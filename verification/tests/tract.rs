use food_access::tract_number_of;

fn by_std(id: &str) -> Option<i32> {
    id.chars().skip(5).collect::<String>().parse().ok()
}

#[test]
fn the_number_follows_five_characters() {
    assert_eq!(tract_number_of("36001000100"), Some(100));
    assert_eq!(tract_number_of("360010"), Some(0));
    assert_eq!(tract_number_of("ABCDE42"), Some(42));
    assert_eq!(tract_number_of("36001-17"), Some(-17));
    assert_eq!(tract_number_of("36001+17"), Some(17));
    assert_eq!(tract_number_of("36001-0"), Some(0));
}

#[test]
fn short_identifiers_have_no_number() {
    assert_eq!(tract_number_of(""), None);
    assert_eq!(tract_number_of("CT1"), None);
    assert_eq!(tract_number_of("36001"), None);
}

#[test]
fn anything_but_digits_behind_the_sign_gives_no_number() {
    assert_eq!(tract_number_of("36001-"), None);
    assert_eq!(tract_number_of("36001+"), None);
    assert_eq!(tract_number_of("36001+-1"), None);
    assert_eq!(tract_number_of("36001 12"), None);
    assert_eq!(tract_number_of("3600112 "), None);
    assert_eq!(tract_number_of("360011_000"), None);
    assert_eq!(tract_number_of("3600112.5"), None);
    assert_eq!(tract_number_of("360011e3"), None);
    assert_eq!(tract_number_of("36001\u{0661}\u{0662}"), None);
    assert_eq!(tract_number_of("36001ABC"), None);
}

#[test]
fn the_number_fits_in_32_bits_or_is_none() {
    assert_eq!(tract_number_of("360012147483647"), Some(2147483647));
    assert_eq!(tract_number_of("360012147483648"), None);
    assert_eq!(tract_number_of("36001-2147483648"), Some(-2147483648));
    assert_eq!(tract_number_of("36001-2147483649"), None);
    assert_eq!(tract_number_of("36001+2147483647"), Some(2147483647));
    assert_eq!(tract_number_of("3600100000000000000000002147483647"), Some(2147483647));
    assert_eq!(tract_number_of("3600199999999999999999999999999999"), None);
    assert_eq!(tract_number_of("36001-99999999999999999999999999999"), None);
}

#[test]
fn characters_are_counted_not_bytes() {
    assert_eq!(tract_number_of("\u{00e9}\u{00e9}\u{00e9}\u{00e9}\u{00e9}7"), Some(7));
    assert_eq!(tract_number_of("\u{00e9}\u{00e9}12345"), Some(45));
}

#[test]
fn the_number_is_what_the_standard_parser_reads() {
    let ids = [
        "", "1", "12345", "123456", "36001000100", "36001-1", "36001+1", "36001--1", "36001-",
        "36001+", "360012147483647", "360012147483648", "36001-2147483648", "36001-2147483649",
        "3600100000000000000", "36001 1", "360011 ", "360010x10", "36001\u{ff11}", "360014294967296",
        "3600121474836470", "36001-00000000000000000000012", "abcdefghij", "abcde0000",
    ];
    for id in ids {
        assert_eq!(tract_number_of(id), by_std(id), "{id:?}");
    }
}
