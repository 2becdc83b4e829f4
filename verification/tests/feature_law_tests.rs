use pyusp::features::{feature_tag, parse_features, parse_feature_value, parse_one_feature};
use pyusp::features::{FeatureError, FeatureListError};

fn t(s: &str) -> u32 {
    feature_tag(s).unwrap()
}

#[test]
fn merged_list_keeps_first_position_and_last_value() {
    let got = parse_features("liga, kern=0, +liga=3, -calt, kern").unwrap();
    assert_eq!(got, vec![(t("liga"), 3), (t("kern"), 1), (t("calt"), 0)]);
}

#[test]
fn prefix_is_overridden_by_any_explicit_value() {
    for v in ["0", "1", "7", "on", "off"] {
        let plus = parse_one_feature(&format!("+kern={v}")).unwrap();
        let minus = parse_one_feature(&format!("-kern={v}")).unwrap();
        let bare = parse_one_feature(&format!("kern={v}")).unwrap();
        assert_eq!(plus, minus);
        assert_eq!(plus, bare);
    }
    assert_eq!(parse_one_feature("+kern").unwrap(), parse_one_feature("kern").unwrap());
    assert_eq!(parse_one_feature("-kern").unwrap(), (t("kern"), 0));
}

#[test]
fn blank_lists_give_nothing() {
    for s in ["", " ", ",", " , ,\t,\n", "\u{3000},"] {
        assert_eq!(parse_features(s).unwrap(), vec![]);
    }
}

#[test]
fn values() {
    assert_eq!(parse_feature_value("OFF"), Ok(0));
    assert_eq!(parse_feature_value("On"), Ok(1));
    assert_eq!(parse_feature_value("2147483647"), Ok(i32::MAX));
    assert!(matches!(
        parse_feature_value("2147483648"),
        Err(FeatureError::ValueOutOfRange { .. })
    ));
    assert!(matches!(parse_feature_value(""), Err(FeatureError::ValueNotInteger { .. })));
    assert!(matches!(parse_feature_value("+1"), Err(FeatureError::ValueNotInteger { .. })));
}

#[test]
fn each_item_error() {
    assert!(matches!(feature_tag(""), Err(FeatureError::TagLength { .. })));
    assert!(matches!(feature_tag("kernx"), Err(FeatureError::TagLength { .. })));
    assert!(matches!(feature_tag("k\u{7}rn"), Err(FeatureError::TagNotPrintable { .. })));
    assert!(matches!(parse_one_feature("'kern"), Err(FeatureError::UnterminatedQuote { .. })));
    assert!(matches!(parse_one_feature("+"), Err(FeatureError::MissingTag)));
    assert!(matches!(parse_one_feature("kern[1:2]"), Err(FeatureError::RangeSyntax)));
    assert!(matches!(parse_one_feature("kern="), Err(FeatureError::EqualsWithoutValue)));
    assert!(matches!(parse_one_feature("kern=x"), Err(FeatureError::ValueNotInteger { .. })));
}

#[test]
fn list_error_names_the_item() {
    match parse_features("liga, kern=x ,calt") {
        Err(FeatureListError { part, cause }) => {
            assert_eq!(part, "kern=x");
            assert!(matches!(cause, FeatureError::ValueNotInteger { .. }));
        }
        Ok(_) => panic!("expected an error"),
    }
}

#[test]
fn the_first_malformed_item_is_named() {
    match parse_features("kern, ,x=1, zz=abc, liga[1:2]") {
        Err(FeatureListError { part, cause }) => {
            assert_eq!(part, "zz=abc");
            assert!(matches!(cause, FeatureError::ValueNotInteger { .. }));
        }
        Ok(_) => panic!("expected an error"),
    }
    assert!(parse_features("kern, ,x=1,").is_ok());
}
