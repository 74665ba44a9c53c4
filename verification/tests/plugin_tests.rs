use zenoh_envelope::plugin::{parse_u64, Compatibility, StructField, StructLayout};

#[test]
fn compatibility_new_parses_release() {
    let c = Compatibility::new("1.70.0", "abcd").unwrap();
    assert_eq!((c.major, c.minor, c.patch, c.stable), (1, 70, 0, true));
    assert_eq!(c.commit, "abcd");
    assert!(c.structs.is_empty());

    let c = Compatibility::new("1.72.0-nightly", "ffff").unwrap();
    assert_eq!((c.major, c.minor, c.patch, c.stable), (1, 72, 0, false));

    assert!(Compatibility::new("1.70", "x").is_none());
    assert!(Compatibility::new("not-a-version", "x").is_none());
    assert!(Compatibility::new("1.a.0", "x").is_none());
}

#[test]
fn stable_builds_compare_by_version_triple() {
    let a = Compatibility::new("1.70.0", "commit-one").unwrap();
    let b = Compatibility::new("1.70.0", "commit-two").unwrap();
    assert!(Compatibility::are_compatible(&a, &b));

    let c = Compatibility::new("1.70.1", "commit-one").unwrap();
    assert!(!Compatibility::are_compatible(&a, &c));
}

#[test]
fn unstable_builds_compare_structurally() {
    let a = Compatibility::new("1.72.0-nightly", "commit-one").unwrap();
    let b = Compatibility::new("1.72.0-nightly", "commit-one").unwrap();
    assert!(Compatibility::are_compatible(&a, &b));

    let c = Compatibility::new("1.72.0-nightly", "commit-two").unwrap();
    assert!(!Compatibility::are_compatible(&a, &c));
}

#[test]
fn struct_layouts_compare_field_by_field() {
    let field = |name: &str, offset: usize, size: usize| StructField {
        name: name.to_owned(),
        offset,
        size,
    };
    let layout = |fields: Vec<StructField>| StructLayout {
        name: "Header".to_owned(),
        size: 16,
        alignment: 8,
        fields_count: fields.len(),
        fields,
    };
    let mut a = Compatibility::new("1.70.0", "one").unwrap();
    a.structs = vec![layout(vec![field("kind", 0, 1), field("len", 8, 8)])];
    let mut b = Compatibility::new("1.70.0", "two").unwrap();
    b.structs = vec![layout(vec![field("kind", 0, 1), field("len", 8, 8)])];
    assert!(Compatibility::are_compatible(&a, &b));

    let mut c = Compatibility::new("1.70.0", "three").unwrap();
    c.structs = vec![layout(vec![field("kind", 0, 1), field("len", 4, 8)])];
    assert!(!Compatibility::are_compatible(&a, &c));

    let mut d = Compatibility::new("1.70.0", "four").unwrap();
    d.structs = vec![];
    assert!(!Compatibility::are_compatible(&a, &d));
}

#[test]
fn parse_u64_edges() {
    assert_eq!(parse_u64("0"), Some(0));
    assert_eq!(parse_u64("70"), Some(70));
    assert_eq!(parse_u64("18446744073709551615"), Some(u64::MAX));
    assert_eq!(parse_u64("18446744073709551616"), None);
    assert_eq!(parse_u64(""), None);
    assert_eq!(parse_u64("1a"), None);
    assert_eq!(parse_u64("-1"), None);
}
