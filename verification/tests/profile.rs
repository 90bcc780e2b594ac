use csvinfo::field::{Field, PERCENT_SCALE};

fn make_field(types: (u64, u64, u64)) -> Field {
    Field { pos: 1, max_len: 1, title: String::from("Test Field"), types, has_value: false }
}

#[test]
fn test_has_value() {
    let mut f: Field = Field {
        pos: 1,
        max_len: 1,
        title: String::from("Test Field"),
        types: (1, 0, 0),
        has_value: false,
    };

    assert_eq!(false, f.has_value);

    // Set it to true
    f.has_value(true);
    assert_eq!(true, f.has_value);
}

#[test]
fn test_has_value_is_one_way() {
    let mut f = make_field((0, 0, 2));
    f.has_value(true);
    f.has_value(false);
    assert_eq!(true, f.has_value);
    let mut g = make_field((0, 0, 2));
    g.has_value(false);
    assert_eq!(false, g.has_value);
}

#[test]
fn test_build_profile() {
    // A field that is 100% int
    let f = make_field((1, 0, 0));
    assert_eq!(f.build_profile(), (PERCENT_SCALE, 0, 0));

    // A field that is 25% int, 25% float, 50% text
    let f = make_field((1, 1, 2));
    assert_eq!(f.build_profile(), (250000, 250000, 500000));
}

#[test]
fn test_build_profile_empty_tally() {
    // A profile exposed before any cell was folded reports all zeroes.
    let f = make_field((0, 0, 0));
    assert_eq!(f.build_profile(), (0, 0, 0));
}

#[test]
fn test_build_profile_rounds_down_but_accounts_for_whole() {
    // Thirds do not divide evenly; each part rounds down and the total stays
    // within two units of one hundred percent.
    let f = make_field((1, 1, 1));
    let (a, b, c) = f.build_profile();
    assert_eq!((a, b, c), (333333, 333333, 333333));
    assert!(a + b + c >= PERCENT_SCALE - 2);
    assert!(a + b + c <= PERCENT_SCALE);
}
