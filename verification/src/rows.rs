//! From comma-separated data to records of fields.

use vstd::prelude::*;
use crate::node::texts;

verus! {

/// The records that the `csv` reader finds in `data` after the first one,
/// which names the columns: for each, in order, its fields as text, or `None`
/// where the reader reports an error instead of the record.
pub uninterp spec fn csv_records(data: Seq<u8>) -> Seq<Option<Seq<Seq<char>>>>;

/// What a record that was read, or failed to be, holds.
pub open spec fn entry_view(entry: Option<Vec<String>>) -> Option<Seq<Seq<char>>> {
    match entry {
        Some(fields) => Some(texts(fields@)),
        None => None,
    }
}

/// What each of a sequence of entries holds.
pub open spec fn entry_views(entries: Seq<Option<Vec<String>>>) -> Seq<Option<Seq<Seq<char>>>> {
    entries.map_values(|e: Option<Vec<String>>| entry_view(e))
}

/// What each of a sequence of rows holds.
pub open spec fn row_views(rows: Seq<Vec<String>>) -> Seq<Seq<Seq<char>>> {
    rows.map_values(|r: Vec<String>| texts(r@))
}

/// The records among `entries` that could be read, in their order.
pub open spec fn readable(entries: Seq<Option<Seq<Seq<char>>>>) -> Seq<Seq<Seq<char>>>
    decreases entries.len(),
{
    if entries.len() == 0 {
        Seq::empty()
    } else {
        let earlier = readable(entries.drop_last());
        match entries.last() {
            Some(fields) => earlier.push(fields),
            None => earlier,
        }
    }
}

/// Reads `data` with `csv::Reader::from_reader` in its default
/// configuration and walks `Reader::records` to the end. The contract names
/// what comes out and claims that it depends on `data` alone; a record for
/// which the reader reports an error stands as `None`.
#[verifier::external_body]
fn parse_records(data: &[u8]) -> (entries: Vec<Option<Vec<String>>>)
    ensures
        entry_views(entries@) == csv_records(data@),
{
    let mut reader = csv::Reader::from_reader(data);
    reader.records().map(
        |result| match result {
            Ok(record) => Some(record.iter().map(|field| field.to_owned()).collect()),
            Err(_) => None,
        },
    ).collect()
}

/// A copy of `row`.
fn copy_row(row: &Vec<String>) -> (copy: Vec<String>)
    ensures
        copy@ == row@,
{
    let mut copy: Vec<String> = Vec::new();
    let mut i: usize = 0;
    while i < row.len()
        invariant
            i <= row@.len(),
            copy@ == row@.subrange(0, i as int),
        decreases row@.len() - i,
    {
        copy.push(row[i].clone());
        assert(copy@ =~= row@.subrange(0, i + 1));
        i = i + 1;
    }
    assert(row@.subrange(0, row@.len() as int) =~= row@);
    copy
}

/// The records among `entries` that could be read, in their order; those
/// that could not are passed over.
pub fn keep_readable(entries: &Vec<Option<Vec<String>>>) -> (rows: Vec<Vec<String>>)
    ensures
        row_views(rows@) == readable(entry_views(entries@)),
{
    let ghost views = entry_views(entries@);
    let mut rows: Vec<Vec<String>> = Vec::new();
    let mut i: usize = 0;
    assert(row_views(rows@) =~= readable(views.subrange(0, 0)));
    while i < entries.len()
        invariant
            i <= entries@.len(),
            views == entry_views(entries@),
            row_views(rows@) == readable(views.subrange(0, i as int)),
        decreases entries@.len() - i,
    {
        let ghost before = rows@;
        assert(views.subrange(0, i + 1).drop_last() =~= views.subrange(0, i as int));
        assert(views.subrange(0, i + 1).last() == entry_view(entries@[i as int]));
        match &entries[i] {
            Some(fields) => {
                rows.push(copy_row(fields));
                assert(row_views(rows@) =~= row_views(before).push(texts(fields@)));
            },
            None => {},
        }
        i = i + 1;
    }
    assert(views.subrange(0, entries@.len() as int) =~= views);
    rows
}

/// The records of comma-separated `data`, each as its fields in order. The
/// first record names the columns and is not among them; a record that
/// cannot be read is passed over.
pub fn read_csv(data: &[u8]) -> (rows: Vec<Vec<String>>)
    ensures
        row_views(rows@) == readable(csv_records(data@)),
{
    let entries = parse_records(data);
    keep_readable(&entries)
}

} // verus!
