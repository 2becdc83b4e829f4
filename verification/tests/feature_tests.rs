use pyusp::features::{feature_tag, parse_features, TAG_DFLT};

fn t(s: &str) -> u32 {
    feature_tag(s).unwrap()
}

/// The tag as the engine sees it: bytes in memory, in fourcc order.
fn tag_bytes(s: &str) -> [u8; 4] {
    feature_tag(s).unwrap().to_le_bytes()
}

#[test]
fn tag_is_space_padded_fourcc_lsb_first() {
    assert_eq!(tag_bytes("liga"), *b"liga");
    assert_eq!(tag_bytes("kern"), *b"kern");
    assert_eq!(tag_bytes("aBc"), *b"aBc ");
    assert_eq!(tag_bytes("aB"), *b"aB  ");
    assert_eq!(feature_tag("liga").unwrap(), 0x6167_696C);
    assert_eq!(TAG_DFLT.to_le_bytes(), *b"dflt");
}

#[test]
fn tag_is_not_byte_reversed() {
    assert_ne!(feature_tag("liga").unwrap(), 0x6C69_6761);
    assert_eq!(feature_tag("liga").unwrap().to_le_bytes(), *b"liga");
}

#[test]
fn tag_length_and_charset_are_enforced() {
    assert!(feature_tag("").is_err());
    assert!(feature_tag("kernx").is_err());
    assert!(feature_tag("k\u{00e9}rn").is_err());
    assert!(feature_tag("ke\u{0007}rn").is_err());
}

#[test]
fn uniscribe_parameter_values() {
    assert_eq!(parse_features("kern").unwrap(), vec![(t("kern"), 1)]);
    assert_eq!(parse_features("+kern").unwrap(), vec![(t("kern"), 1)]);
    assert_eq!(parse_features("-kern").unwrap(), vec![(t("kern"), 0)]);
    assert_eq!(parse_features("kern=0").unwrap(), vec![(t("kern"), 0)]);
    assert_eq!(parse_features("aalt=2").unwrap(), vec![(t("aalt"), 2)]);
    assert_eq!(parse_features("kern=on").unwrap(), vec![(t("kern"), 1)]);
    assert_eq!(parse_features("kern=off").unwrap(), vec![(t("kern"), 0)]);
    assert_eq!(parse_features("kern 0").unwrap(), vec![(t("kern"), 0)]);
    assert_eq!(parse_features("kern = 0").unwrap(), vec![(t("kern"), 0)]);
    assert_eq!(parse_features("'kern' 1").unwrap(), vec![(t("kern"), 1)]);
    assert_eq!(
        parse_features("\"kern\"=0").unwrap(),
        vec![(t("kern"), 0)]
    );
}

#[test]
fn explicit_value_overrides_the_prefix_like_harfbuzz() {
    assert_eq!(parse_features("+kern=0").unwrap(), vec![(t("kern"), 0)]);
    assert_eq!(parse_features("-kern=1").unwrap(), vec![(t("kern"), 1)]);
    assert_eq!(parse_features("+ss01=2").unwrap(), vec![(t("ss01"), 2)]);
}

#[test]
fn malformed_items_are_errors() {
    for bad in [
        "kern=abc",
        "kern=",
        "kern=-1",
        "kern=1.5",
        "kernx=1",
        "kern[3:5]",
        "aalt[3:5]=2",
        "+",
        "-",
        "=0",
        "kern==",
        "kern==1",
    ] {
        assert!(parse_features(bad).is_err(), "{bad:?} should be rejected");
    }
}

#[test]
fn duplicates_keep_last_value_and_first_position() {
    assert_eq!(
        parse_features("kern=0,kern=1").unwrap(),
        vec![(t("kern"), 1)]
    );
    assert_eq!(
        parse_features("aalt=2,kern=0,aalt=3").unwrap(),
        vec![(t("aalt"), 3), (t("kern"), 0)]
    );
}

#[test]
fn empty_input_is_no_features() {
    assert!(parse_features("").unwrap().is_empty());
    assert!(parse_features("  ,  ,").unwrap().is_empty());
}
