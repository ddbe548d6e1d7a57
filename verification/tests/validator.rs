use swedish_postal_code::{valid, LooksLikePostalCode, PostalCode};

#[test]
fn valid_types() {
    let pc = PostalCode::new(true);

    assert!(!pc.valid(0));
    assert!(!pc.valid("0"));

    assert!(pc.valid(11220));
    assert!(pc.valid("11220"));
}

#[test]
fn traits() {
    assert_eq!(10u8.as_u32(), 10u32);
    assert_eq!(10u16.as_u32(), 10u32);
    assert_eq!(10u64.as_u32(), 10u32);
    assert_eq!(10i8.as_u32(), 10u32);
    assert_eq!(10i16.as_u32(), 10u32);
    assert_eq!(10i32.as_u32(), 10u32);
    assert_eq!(10i64.as_u32(), 10u32);
    assert_eq!("10".as_u32(), 10u32);
    assert_eq!(String::from("10").as_u32(), 10u32);
}

#[test]
fn zero_is_never_valid_locally() {
    let pc = PostalCode::new(false);
    assert!(!pc.valid(0));
    assert!(!pc.valid("0"));
    assert!(!pc.valid("000"));
}

#[test]
fn text_and_number_agree_on_known_code() {
    let pc = PostalCode::new(false);
    assert!(pc.valid(11220));
    assert!(pc.valid("11220"));
    assert_eq!(pc.valid(11220), pc.valid("11220"));
}

#[test]
fn unparseable_text_coerces_to_zero() {
    assert_eq!("".as_u32(), 0);
    assert_eq!("abc".as_u32(), 0);
    assert_eq!("1a2".as_u32(), 0);
    assert_eq!("-5".as_u32(), 0);
    assert_eq!("4294967296".as_u32(), 0);
    let pc = PostalCode::new(false);
    assert!(!pc.valid(""));
    assert!(!pc.valid("abc"));
}

#[test]
fn repeated_checks_agree() {
    let pc = PostalCode::new(false);
    let first = pc.valid(11220);
    let second = pc.valid(11220);
    assert_eq!(first, second);
    let miss_first = pc.valid(99998);
    let miss_second = pc.valid(99998);
    assert_eq!(miss_first, miss_second);
}

#[test]
fn fallback_disabled_rejects_local_misses() {
    let pc = PostalCode::new(false);
    assert!(!pc.valid(99998));
    assert!(!pc.valid("99998"));
}

#[test]
fn wrapping_conversions() {
    assert_eq!((-1i8).as_u32(), 0xFFFF_FFFFu32);
    assert_eq!((-1i16).as_u32(), 0xFFFF_FFFFu32);
    assert_eq!((-1i32).as_u32(), 0xFFFF_FFFFu32);
    assert_eq!((-1i64).as_u32(), 0xFFFF_FFFFu32);
    assert_eq!((0x1_0000_000Au64).as_u32(), 10u32);
    assert_eq!((0x1_0000_000Ai64).as_u32(), 10u32);
    assert_eq!(255u8.as_u32(), 255u32);
    assert_eq!(65535u16.as_u32(), 65535u32);
}

#[test]
fn free_function_accepts_known_code() {
    assert!(valid(11220));
    assert!(valid("11220"));
}
