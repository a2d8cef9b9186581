use browser_core::settings::{parse_engine_index, render_engine_index};

#[test]
fn parse_plain_number() {
    assert_eq!(parse_engine_index("3"), 3);
    assert_eq!(parse_engine_index("0"), 0);
    assert_eq!(parse_engine_index("6"), 6);
}

#[test]
fn parse_tolerates_surrounding_whitespace() {
    assert_eq!(parse_engine_index(" 5\n"), 5);
    assert_eq!(parse_engine_index("\t2 \r\n"), 2);
}

#[test]
fn empty_or_corrupt_text_gives_index_zero() {
    assert_eq!(parse_engine_index(""), 0);
    assert_eq!(parse_engine_index("   \n"), 0);
    assert_eq!(parse_engine_index("abc"), 0);
    assert_eq!(parse_engine_index("3a"), 0);
    assert_eq!(parse_engine_index("-1"), 0);
    assert_eq!(parse_engine_index("2 3"), 0);
}

#[test]
fn out_of_range_numbers_give_index_zero() {
    assert_eq!(parse_engine_index("7"), 0);
    assert_eq!(parse_engine_index("99"), 0);
    assert_eq!(parse_engine_index("123456789012345678901234567890"), 0);
}

#[test]
fn leading_zeros_keep_the_value() {
    assert_eq!(parse_engine_index("005"), 5);
    assert_eq!(parse_engine_index("0007"), 0);
}

#[test]
fn render_then_parse_round_trips() {
    for i in 0..browser_core::engine_count() {
        assert_eq!(parse_engine_index(&render_engine_index(i)), i);
    }
}

#[test]
fn render_is_a_single_digit() {
    assert_eq!(render_engine_index(0), "0");
    assert_eq!(render_engine_index(6), "6");
}
