use swedish_postal_code::{bring_verdict, parse_bring_body};

#[test]
fn well_formed_body_reads_exactly() {
    let body = "{\"result\":\"Stockholm\",\"valid\":true,\"postalCodeType\":\"NORMAL\"}";
    let r = parse_bring_body(body).unwrap();
    assert_eq!(r.result, "Stockholm");
    assert!(r.valid);
    assert_eq!(r.postal_code_type, "NORMAL");
}

#[test]
fn verdict_is_the_valid_field_or_false() {
    let good = parse_bring_body("{\"result\":\"\",\"valid\":true,\"postalCodeType\":\"\"}");
    assert!(bring_verdict(&good));
    let bad = parse_bring_body("{\"result\":\"\",\"valid\":false,\"postalCodeType\":\"\"}");
    assert!(!bring_verdict(&bad));
    assert!(!bring_verdict(&None));
}

#[test]
fn malformed_bodies_read_as_nothing() {
    assert!(parse_bring_body("").is_none());
    assert!(parse_bring_body("{").is_none());
    assert!(parse_bring_body("not json").is_none());
    assert!(parse_bring_body("{\"valid\":true}").is_none());
    assert!(parse_bring_body("{\"result\":\"x\",\"valid\":\"yes\",\"postalCodeType\":\"y\"}").is_none());
    assert!(parse_bring_body("{\"result\":\"x\",\"valid\":true,\"postalCodeType\":\"y\"} tail").is_none());
    assert!(parse_bring_body("{\"result\":\"x\",\"valid\":true,\"postalCodeType\":\"y\",}").is_none());
}

#[test]
fn whitespace_and_extra_members_are_tolerated() {
    let body = " { \"other\" : -12 , \"result\" : \"ok\" , \"valid\" : true , \"note\" : null , \"postalCodeType\" : \"B\" } ";
    let r = parse_bring_body(body).unwrap();
    assert_eq!(r.result, "ok");
    assert!(r.valid);
    assert_eq!(r.postal_code_type, "B");
}

#[test]
fn semantic_field_name_is_accepted_too() {
    let body = "{\"result\":\"ok\",\"valid\":true,\"postal_code_type\":\"B\"}";
    let r = parse_bring_body(body).unwrap();
    assert_eq!(r.postal_code_type, "B");
}

#[test]
fn string_escapes_decode() {
    let body = "{\"result\":\"a\\\"b\\\\c\\nd\",\"valid\":true,\"postalCodeType\":\"\\t\"}";
    let r = parse_bring_body(body).unwrap();
    assert_eq!(r.result, "a\"b\\c\nd");
    assert_eq!(r.postal_code_type, "\t");
}

#[test]
fn empty_object_misses_required_fields() {
    assert!(parse_bring_body("{}").is_none());
    assert!(parse_bring_body("  {  }  ").is_none());
}
