use feacomp::coords::{CoordConverter, CoordConverterSerdeRepr, Location, LocationSerdeRepr};

#[test]
fn coord_converter_round_trips() {
    let converter = CoordConverter {
        user_to_design: vec![(300, 0), (400, 1), (700, 2)],
        default_idx: 1,
    };
    let repr = CoordConverterSerdeRepr::from(converter);
    assert_eq!(repr.default_idx, 1);
    assert_eq!(repr.user_to_design, vec![(300, 0), (400, 1), (700, 2)]);
    let back = CoordConverter::from(repr);
    assert_eq!(back.default_idx, 1);
    assert_eq!(back.user_to_design, vec![(300, 0), (400, 1), (700, 2)]);
}

#[test]
fn location_round_trips() {
    let mut l = Location::new();
    l.insert_entry(String::from("slnt"), -8192);
    l.insert_entry(String::from("wght"), 16384);
    let repr = LocationSerdeRepr::from(l);
    assert_eq!(
        repr.0,
        vec![(String::from("slnt"), -8192), (String::from("wght"), 16384)]
    );
    let back = Location::from(repr);
    assert_eq!(
        back.entries,
        vec![(String::from("slnt"), -8192), (String::from("wght"), 16384)]
    );
}

#[test]
fn location_from_unsorted_entries_is_canonical() {
    // Rebuilding from pairs sorts by tag; a later duplicate overrides.
    let repr = LocationSerdeRepr(vec![
        (String::from("wght"), 100),
        (String::from("slnt"), -50),
        (String::from("wght"), 200),
    ]);
    let back = Location::from(repr);
    assert_eq!(
        back.entries,
        vec![(String::from("slnt"), -50), (String::from("wght"), 200)]
    );
}

#[test]
fn insert_entry_replaces_same_tag() {
    let mut l = Location::new();
    l.insert_entry(String::from("wght"), 0);
    l.insert_entry(String::from("wght"), 16384);
    assert_eq!(l.entries, vec![(String::from("wght"), 16384)]);
}

#[test]
fn location_order_and_equality() {
    let mut a = Location::new();
    a.insert_entry(String::from("wght"), -16384);
    let mut b = Location::new();
    b.insert_entry(String::from("wght"), 0);
    assert!(a.lt(&b));
    assert!(!b.lt(&a));
    assert!(!a.lt(&a));
    assert!(a.eq_loc(&a));
    assert!(!a.eq_loc(&b));
}
