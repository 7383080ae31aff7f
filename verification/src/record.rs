//! From the fields of a record to a node, and from records to a mapping.

use vstd::prelude::*;
use crate::node::{texts, Node, NodeView, Score};
use crate::node_map::{inserted, well_formed, NodeMap};

verus! {

/// The column of a record that holds the tract's identifier.
pub const CENSUS_TRACT_COLUMN: usize = 0;

/// The column of a record that holds the poverty rate.
pub const POVERTY_RATE_COLUMN: usize = 8;

/// The column of a record that says how far the next supermarket is.
pub const NO_SUPERMARKET_COLUMN: usize = 10;

/// The column of a record that holds the number of households on food
/// assistance.
pub const TRACT_SNAP_COLUMN: usize = 17;

/// One of the three fields of a record that the food insecurity score is the
/// sum of.
#[derive(Clone, Copy, Debug, PartialEq, Eq, Structural)]
pub enum ScoreField {
    PovertyRate,
    NoSupermarket,
    TractSnap,
}

/// What the three score fields of a record came to, when read as numbers:
/// their sum, or the first of them that holds no number.
#[derive(Clone, Copy, Debug, PartialEq, Eq, Structural)]
pub enum ParsedScore {
    Value(Score),
    Invalid(ScoreField),
}

/// Why a record gives no node.
#[derive(Clone, Copy, Debug, PartialEq, Eq, Structural)]
pub enum MalformedRecordError {
    /// The record has no first field, or an empty one.
    MissingId,
    /// The record lacks the named field, or the field holds no number.
    InvalidNumber(ScoreField),
}

/// The first malformed record of a load: its place among the records, and
/// what is wrong with it.
#[derive(Clone, Copy, Debug, PartialEq, Eq, Structural)]
pub struct LoadError {
    pub row: usize,
    pub error: MalformedRecordError,
}

/// One record of the data: its fields in order, and what its score fields
/// came to.
#[derive(Clone, Debug)]
pub struct Record {
    pub fields: Vec<String>,
    pub score: ParsedScore,
}

/// What a [`Record`] holds, as mathematical values.
pub ghost struct RecordView {
    pub fields: Seq<Seq<char>>,
    pub score: ParsedScore,
}

impl View for Record {
    type V = RecordView;

    open spec fn view(&self) -> RecordView {
        RecordView { fields: texts(self.fields@), score: self.score }
    }
}

/// What each of a sequence of records holds.
pub open spec fn record_views(records: Seq<Record>) -> Seq<RecordView> {
    records.map_values(|r: Record| r@)
}

/// The column that holds `field`.
pub open spec fn column_of(field: ScoreField) -> int {
    match field {
        ScoreField::PovertyRate => POVERTY_RATE_COLUMN as int,
        ScoreField::NoSupermarket => NO_SUPERMARKET_COLUMN as int,
        ScoreField::TractSnap => TRACT_SNAP_COLUMN as int,
    }
}

/// Whether `field` is not to be had from a record: the record is too short
/// to hold it, or it was found to hold no number.
pub open spec fn field_fails(fields: Seq<Seq<char>>, score: ParsedScore, field: ScoreField) -> bool {
    fields.len() <= column_of(field) || score == ParsedScore::Invalid(field)
}

/// What is wrong with a record, if anything. The identifier is looked at
/// first, then the score fields in the order of their columns.
pub open spec fn record_error(fields: Seq<Seq<char>>, score: ParsedScore) -> Option<
    MalformedRecordError,
> {
    if fields.len() <= CENSUS_TRACT_COLUMN || fields[CENSUS_TRACT_COLUMN as int].len() == 0 {
        Some(MalformedRecordError::MissingId)
    } else if field_fails(fields, score, ScoreField::PovertyRate) {
        Some(MalformedRecordError::InvalidNumber(ScoreField::PovertyRate))
    } else if field_fails(fields, score, ScoreField::NoSupermarket) {
        Some(MalformedRecordError::InvalidNumber(ScoreField::NoSupermarket))
    } else if field_fails(fields, score, ScoreField::TractSnap) {
        Some(MalformedRecordError::InvalidNumber(ScoreField::TractSnap))
    } else {
        None
    }
}

/// The score of a record whose score fields all hold numbers.
pub open spec fn score_value(score: ParsedScore) -> int {
    match score {
        ParsedScore::Value(s) => s.ordinal as int,
        ParsedScore::Invalid(_) => 0,
    }
}

/// The node that a well-formed record gives: each field under its name, the
/// score, and no edge.
pub open spec fn node_of(fields: Seq<Seq<char>>, score: ParsedScore) -> NodeView {
    NodeView {
        food_insecurity_score: score_value(score),
        census_tract: fields[0],
        county: fields[1],
        urban: fields[2],
        pop_2010: fields[3],
        housing_units: fields[4],
        vehicle_access: fields[5],
        group_quarters: fields[6],
        low_income: fields[7],
        poverty_rate: fields[8],
        median_family_income: fields[9],
        no_supermarket: fields[10],
        tract_kids: fields[11],
        tract_seniors: fields[12],
        tract_white: fields[13],
        tract_black: fields[14],
        tract_asian: fields[15],
        tract_hispanic: fields[16],
        tract_snap: fields[17],
        edges: Seq::empty(),
    }
}

/// The mapping that the first `n` of `records` give, entered one after the
/// other.
pub open spec fn built(records: Seq<RecordView>, n: nat) -> Seq<NodeView>
    decreases n,
{
    if n == 0 {
        Seq::empty()
    } else {
        inserted(
            built(records, (n - 1) as nat),
            node_of(records[n - 1].fields, records[n - 1].score),
        )
    }
}

/// The node of one record. `score` says what the record's three score fields
/// came to. The record is malformed, and gives no node, where its identifier
/// is missing or empty, or where one of the score fields is missing or holds
/// no number; the error names the first such field.
pub fn build_node(row: &Vec<String>, score: ParsedScore) -> (result: Result<
    Node,
    MalformedRecordError,
>)
    ensures
        match result {
            Ok(node) => record_error(texts(row@), score) is None && node@ == node_of(
                texts(row@),
                score,
            ),
            Err(error) => record_error(texts(row@), score) == Some(error),
        },
{
    if row.len() <= CENSUS_TRACT_COLUMN || row[CENSUS_TRACT_COLUMN].as_str().is_empty() {
        return Err(MalformedRecordError::MissingId);
    }
    if row.len() <= POVERTY_RATE_COLUMN {
        return Err(MalformedRecordError::InvalidNumber(ScoreField::PovertyRate));
    }
    if let ParsedScore::Invalid(ScoreField::PovertyRate) = score {
        return Err(MalformedRecordError::InvalidNumber(ScoreField::PovertyRate));
    }
    if row.len() <= NO_SUPERMARKET_COLUMN {
        return Err(MalformedRecordError::InvalidNumber(ScoreField::NoSupermarket));
    }
    if let ParsedScore::Invalid(ScoreField::NoSupermarket) = score {
        return Err(MalformedRecordError::InvalidNumber(ScoreField::NoSupermarket));
    }
    if row.len() <= TRACT_SNAP_COLUMN {
        return Err(MalformedRecordError::InvalidNumber(ScoreField::TractSnap));
    }
    match score {
        ParsedScore::Invalid(field) => Err(MalformedRecordError::InvalidNumber(field)),
        ParsedScore::Value(food_insecurity_score) => {
            let node = Node {
                food_insecurity_score,
                census_tract: row[0].clone(),
                county: row[1].clone(),
                urban: row[2].clone(),
                pop_2010: row[3].clone(),
                housing_units: row[4].clone(),
                vehicle_access: row[5].clone(),
                group_quarters: row[6].clone(),
                low_income: row[7].clone(),
                poverty_rate: row[8].clone(),
                median_family_income: row[9].clone(),
                no_supermarket: row[10].clone(),
                tract_kids: row[11].clone(),
                tract_seniors: row[12].clone(),
                tract_white: row[13].clone(),
                tract_black: row[14].clone(),
                tract_asian: row[15].clone(),
                tract_hispanic: row[16].clone(),
                tract_snap: row[17].clone(),
                edges: Vec::new(),
            };
            assert(node@.edges =~= Seq::<Seq<char>>::empty());
            Ok(node)
        },
    }
}

/// The mapping that `records` give: each record's node is entered under its
/// tract's identifier, so that of two records of one tract the later one
/// stands, in the place of the earlier. The load stops at the first
/// malformed record and reports it.
pub fn create_nodes(records: &Vec<Record>) -> (result: Result<NodeMap, LoadError>)
    ensures
        match result {
            Ok(map) => {
                &&& forall|i: int|
                    0 <= i < records@.len() ==> record_error(
                        (#[trigger] record_views(records@)[i]).fields,
                        record_views(records@)[i].score,
                    ) is None
                &&& map@ == built(record_views(records@), records@.len())
                &&& map.wf()
            },
            Err(e) => {
                &&& e.row < records@.len()
                &&& record_error(
                    record_views(records@)[e.row as int].fields,
                    record_views(records@)[e.row as int].score,
                ) == Some(e.error)
                &&& forall|i: int|
                    0 <= i < e.row ==> record_error(
                        (#[trigger] record_views(records@)[i]).fields,
                        record_views(records@)[i].score,
                    ) is None
            },
        },
{
    let ghost views = record_views(records@);
    let mut nodes = NodeMap::new();
    let mut i: usize = 0;
    while i < records.len()
        invariant
            i <= records@.len(),
            views == record_views(records@),
            nodes@ == built(views, i as nat),
            nodes.wf(),
            forall|k: int|
                0 <= k < i ==> record_error((#[trigger] views[k]).fields, views[k].score) is None,
        decreases records@.len() - i,
    {
        assert(views[i as int] == records@[i as int]@);
        match build_node(&records[i].fields, records[i].score) {
            Ok(node) => {
                nodes.insert(node);
            },
            Err(error) => {
                return Err(LoadError { row: i, error });
            },
        }
        i = i + 1;
    }
    Ok(nodes)
}

} // verus!
