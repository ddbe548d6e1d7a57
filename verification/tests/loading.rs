use swedish_postal_code::table::load_pairs;
use swedish_postal_code::text::{dec_string, parse_code_text};

#[test]
fn loads_well_formed_rows_in_order() {
    let pairs = load_pairs("postal_code,city\n11220,Stockholm\n21115,Malmo");
    assert_eq!(pairs.len(), 2);
    assert_eq!(pairs[0].0, 11220);
    assert_eq!(pairs[0].1, "Stockholm");
    assert_eq!(pairs[1].0, 21115);
    assert_eq!(pairs[1].1, "Malmo");
}

#[test]
fn malformed_row_truncates_the_rest() {
    let pairs = load_pairs("postal_code,city\n11220,Stockholm\nbad\n21115,Malmo");
    assert_eq!(pairs.len(), 1);
    assert_eq!(pairs[0].0, 11220);
    assert_eq!(pairs[0].1, "Stockholm");
}

#[test]
fn malformed_first_row_empties_the_table() {
    let pairs = load_pairs("postal_code,city\nnot a code,City\n21115,Malmo");
    assert_eq!(pairs.len(), 0);
}

#[test]
fn empty_line_counts_as_malformed() {
    let pairs = load_pairs("postal_code,city\n11220,Stockholm\n\n21115,Malmo");
    assert_eq!(pairs.len(), 1);
}

#[test]
fn wrong_header_loads_nothing() {
    let pairs = load_pairs("code,town\n11220,Stockholm");
    assert_eq!(pairs.len(), 0);
}

#[test]
fn quoted_city_may_hold_a_comma() {
    let pairs = load_pairs("postal_code,city\n11220,\"Stockholm, Sweden\"");
    assert_eq!(pairs.len(), 1);
    assert_eq!(pairs[0].1, "Stockholm, Sweden");
}

#[test]
fn doubled_quote_reads_as_one() {
    let pairs = load_pairs("postal_code,city\n11220,\"He said \"\"hej\"\"\"");
    assert_eq!(pairs.len(), 1);
    assert_eq!(pairs[0].1, "He said \"hej\"");
}

#[test]
fn unterminated_quote_fails_the_row() {
    let pairs = load_pairs("postal_code,city\n11220,\"Stockholm\n21115,Malmo");
    assert_eq!(pairs.len(), 0);
}

#[test]
fn overflowing_code_fails_the_row() {
    let pairs = load_pairs("postal_code,city\n4294967296,Toolarge\n21115,Malmo");
    assert_eq!(pairs.len(), 0);
}

#[test]
fn decimal_rendering_round_trips() {
    assert_eq!(dec_string(0), "0");
    assert_eq!(dec_string(11220), "11220");
    assert_eq!(dec_string(u32::MAX), "4294967295");
    assert_eq!(parse_code_text(dec_string(98139).as_str()), 98139);
}

#[test]
fn parse_code_text_exact_values() {
    assert_eq!(parse_code_text("0"), 0);
    assert_eq!(parse_code_text("11220"), 11220);
    assert_eq!(parse_code_text("4294967295"), 4294967295);
    assert_eq!(parse_code_text("4294967296"), 0);
    assert_eq!(parse_code_text("007"), 7);
}
