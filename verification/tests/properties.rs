use kvstore::Store;
use kvstore::driver::Driver;
use kvstore::driver::MemoryDriver;
use kvstore::kv::KvMap;
use kvstore::kv::StoreError;
use kvstore::parse::ParseError;

fn str_of(s: &str) -> String {
    String::from(s)
}

fn valid_map() -> KvMap {
    let mut m = KvMap::new();
    m.insert(str_of("alpha"), str_of("1"));
    m.insert(str_of("_beta"), str_of(""));
    m.insert(str_of("g4mm4"), str_of("spaces are fine \r and tabs \t too"));
    m
}

#[test]
fn round_trip_reproduces_mapping() {
    // A store holding a fully valid mapping, saved to a fresh in-memory
    // driver and loaded back, reproduces every entry unaltered.
    let mut s = Store::from(valid_map());
    let mut d = MemoryDriver::new();
    s.save_via_driver(&mut d).unwrap();

    let mut t = Store::new();
    t.load_via_driver(&d).unwrap();

    assert_eq!(t.get(&str_of("alpha")).unwrap(), &str_of("1"));
    assert_eq!(t.get(&str_of("_beta")).unwrap(), &str_of(""));
    assert_eq!(
        t.get(&str_of("g4mm4")).unwrap(),
        &str_of("spaces are fine \r and tabs \t too")
    );
    assert!(t.get(&str_of("alpha2")).is_none());
}

#[test]
fn load_is_atomic_on_invalid_key() {
    // One invalid key among valid entries: the whole load is rejected and
    // the store's current data is untouched.
    let mut bad = KvMap::new();
    bad.insert(str_of("good"), str_of("1"));
    bad.insert(str_of("2bad"), str_of("2"));
    bad.insert(str_of("fine"), str_of("3"));
    let d = MemoryDriver::from(bad);

    let mut prior = KvMap::new();
    prior.insert(str_of("keep"), str_of("old"));
    let mut s = Store::from(prior);

    let r = s.load_via_driver(&d);
    match r {
        Err(StoreError::InvalidKey(k)) => assert_eq!(k, str_of("2bad")),
        other => panic!("expected an invalid-key error, got {:?}", other),
    }
    assert_eq!(s.get(&str_of("keep")).unwrap(), &str_of("old"));
    assert!(s.get(&str_of("good")).is_none());
    assert!(s.get(&str_of("fine")).is_none());
}

#[test]
fn load_is_atomic_on_invalid_value() {
    let mut bad = KvMap::new();
    bad.insert(str_of("good"), str_of("1"));
    bad.insert(str_of("wrapped"), str_of("two\nlines"));
    let d = MemoryDriver::from(bad);

    let mut prior = KvMap::new();
    prior.insert(str_of("keep"), str_of("old"));
    let mut s = Store::from(prior);

    let r = s.load_via_driver(&d);
    match r {
        Err(StoreError::InvalidValue(k)) => assert_eq!(k, str_of("wrapped")),
        other => panic!("expected an invalid-value error, got {:?}", other),
    }
    assert_eq!(s.get(&str_of("keep")).unwrap(), &str_of("old"));
    assert!(s.get(&str_of("good")).is_none());
}

#[test]
fn driver_swap_keeps_data_until_load() {
    // Swapping the active driver alters nothing until `load`; `save` after
    // the swap writes the existing data to the new driver.
    let seeded = MemoryDriver::from(valid_map());
    let mut s = Store::new();
    s.driver_set(seeded);
    s.load().unwrap();

    s.driver_set(MemoryDriver::new());
    assert_eq!(s.get(&str_of("alpha")).unwrap(), &str_of("1"));

    s.save().unwrap();
    let written = s.driver().load().unwrap();
    let t = Store::from(written);
    assert_eq!(t.get(&str_of("alpha")).unwrap(), &str_of("1"));
    assert_eq!(t.get(&str_of("_beta")).unwrap(), &str_of(""));
}

#[test]
fn save_does_not_validate() {
    // Data put in at construction bypasses validation, and `save` hands it
    // to the driver unchecked.
    let mut m = KvMap::new();
    m.insert(str_of("not a key"), str_of("two\nlines"));
    let mut s = Store::from(m);
    s.save().unwrap();
    let written = s.driver().load().unwrap();
    let t = Store::from(written);
    assert_eq!(t.get(&str_of("not a key")).unwrap(), &str_of("two\nlines"));
}

#[test]
fn insert_replaces_earlier_binding() {
    let mut m = KvMap::new();
    m.insert(str_of("k"), str_of("first"));
    m.insert(str_of("k"), str_of("second"));
    let s = Store::from(m);
    assert_eq!(s.get(&str_of("k")).unwrap(), &str_of("second"));
}

#[test]
fn typed_getters_absent_key() {
    let s = Store::new();
    assert!(s.get(&str_of("missing")).is_none());
    assert!(s.get_char(&str_of("missing")).is_none());
    assert!(s.get_i32(&str_of("missing")).is_none());
    assert!(s.get_u64(&str_of("missing")).is_none());
    assert!(s.get_bool(&str_of("missing")).is_none());
}

#[test]
fn typed_getters_parse_failure() {
    let mut m = KvMap::new();
    m.insert(str_of("x"), str_of("abc"));
    let s = Store::from(m);
    assert!(matches!(
        s.get_i32(&str_of("x")),
        Some(Err(ParseError::InvalidDigit))
    ));
    assert!(matches!(
        s.get_u16(&str_of("x")),
        Some(Err(ParseError::InvalidDigit))
    ));
}

#[test]
fn parse_error_kinds() {
    let mut m = KvMap::new();
    m.insert(str_of("empty"), str_of(""));
    m.insert(str_of("trailing"), str_of("12x"));
    m.insert(str_of("big"), str_of("999"));
    m.insert(str_of("low"), str_of("-129"));
    m.insert(str_of("high"), str_of("128"));
    m.insert(str_of("edge"), str_of("-128"));
    m.insert(str_of("minus"), str_of("-1"));
    m.insert(str_of("bare"), str_of("-"));
    let s = Store::from(m);

    assert!(matches!(
        s.get_i8(&str_of("empty")),
        Some(Err(ParseError::Empty))
    ));
    assert!(matches!(
        s.get_i8(&str_of("trailing")),
        Some(Err(ParseError::InvalidDigit))
    ));
    assert!(matches!(
        s.get_i8(&str_of("big")),
        Some(Err(ParseError::OutOfRange))
    ));
    assert!(matches!(
        s.get_i8(&str_of("low")),
        Some(Err(ParseError::OutOfRange))
    ));
    assert!(matches!(
        s.get_i8(&str_of("high")),
        Some(Err(ParseError::OutOfRange))
    ));
    assert_eq!(s.get_i8(&str_of("edge")).unwrap().unwrap(), -128i8);
    // A minus sign is no digit for an unsigned type.
    assert!(matches!(
        s.get_u8(&str_of("minus")),
        Some(Err(ParseError::InvalidDigit))
    ));
    // A minus sign alone carries no digits.
    assert!(matches!(
        s.get_i8(&str_of("bare")),
        Some(Err(ParseError::InvalidDigit))
    ));
}

#[test]
fn u64_range_edges() {
    let mut m = KvMap::new();
    m.insert(str_of("max"), str_of("18446744073709551615"));
    m.insert(str_of("over"), str_of("18446744073709551616"));
    let s = Store::from(m);
    assert_eq!(s.get_u64(&str_of("max")).unwrap().unwrap(), u64::MAX);
    assert!(matches!(
        s.get_u64(&str_of("over")),
        Some(Err(ParseError::OutOfRange))
    ));
}

#[test]
fn bool_literals_are_exact() {
    let mut m = KvMap::new();
    m.insert(str_of("t"), str_of("true"));
    m.insert(str_of("f"), str_of("false"));
    m.insert(str_of("caps"), str_of("TRUE"));
    m.insert(str_of("padded"), str_of("true "));
    let s = Store::from(m);
    assert_eq!(s.get_bool(&str_of("t")).unwrap().unwrap(), true);
    assert_eq!(s.get_bool(&str_of("f")).unwrap().unwrap(), false);
    assert!(matches!(
        s.get_bool(&str_of("caps")),
        Some(Err(ParseError::InvalidBool))
    ));
    assert!(matches!(
        s.get_bool(&str_of("padded")),
        Some(Err(ParseError::InvalidBool))
    ));
}

#[test]
fn get_char_on_empty_value() {
    let mut m = KvMap::new();
    m.insert(str_of("e"), str_of(""));
    let s = Store::from(m);
    assert!(s.get_char(&str_of("e")).is_none());
    assert_eq!(s.get(&str_of("e")).unwrap(), &str_of(""));
}

#[test]
fn load_from_empty_driver_clears_data() {
    // A successful load replaces the data whole, so an empty medium empties
    // the store.
    let mut s = Store::from(valid_map());
    let d = MemoryDriver::new();
    s.load_via_driver(&d).unwrap();
    assert!(s.get(&str_of("alpha")).is_none());
}

#[test]
fn driver_load_returns_copy() {
    // The mapping crosses the driver boundary as a full copy: mutating the
    // store after a save does not touch what the driver holds.
    let mut s = Store::from(valid_map());
    s.save().unwrap();
    let mut again = KvMap::new();
    again.insert(str_of("alpha"), str_of("2"));
    let s2 = Store::from(again);
    let held = s.driver().load().unwrap();
    let t = Store::from(held);
    assert_eq!(t.get(&str_of("alpha")).unwrap(), &str_of("1"));
    assert_eq!(s2.get(&str_of("alpha")).unwrap(), &str_of("2"));
}
