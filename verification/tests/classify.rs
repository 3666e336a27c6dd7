use cargo_add::feature::FeatureValue;

#[test]
fn plain_name_is_a_feature() {
    assert_eq!(FeatureValue::new("derive"), FeatureValue::Feature("derive".to_string()));
}

#[test]
fn empty_token_is_a_feature() {
    assert_eq!(FeatureValue::new(""), FeatureValue::Feature(String::new()));
}

#[test]
fn dep_prefix_names_a_dependency() {
    assert_eq!(FeatureValue::new("dep:serde"), FeatureValue::Dep { dep_name: "serde".to_string() });
    assert_eq!(FeatureValue::new("dep:"), FeatureValue::Dep { dep_name: String::new() });
}

#[test]
fn near_miss_of_dep_prefix_is_a_feature() {
    assert_eq!(FeatureValue::new("dep"), FeatureValue::Feature("dep".to_string()));
    assert_eq!(FeatureValue::new("dep;x"), FeatureValue::Feature("dep;x".to_string()));
    assert_eq!(FeatureValue::new("xdep:y"), FeatureValue::Feature("xdep:y".to_string()));
}

#[test]
fn slash_splits_dependency_and_feature() {
    assert_eq!(FeatureValue::new("serde/derive"), FeatureValue::DepFeature {
        dep_name: "serde".to_string(),
        dep_feature: "derive".to_string(),
        weak: false,
    });
}

#[test]
fn question_mark_before_slash_is_the_weak_marker() {
    assert_eq!(FeatureValue::new("serde?/derive"), FeatureValue::DepFeature {
        dep_name: "serde".to_string(),
        dep_feature: "derive".to_string(),
        weak: true,
    });
    assert_eq!(FeatureValue::new("a??/b"), FeatureValue::DepFeature {
        dep_name: "a?".to_string(),
        dep_feature: "b".to_string(),
        weak: true,
    });
    assert_eq!(FeatureValue::new("?/b"), FeatureValue::DepFeature {
        dep_name: String::new(),
        dep_feature: "b".to_string(),
        weak: true,
    });
}

#[test]
fn only_the_first_slash_splits() {
    assert_eq!(FeatureValue::new("a/b/c"), FeatureValue::DepFeature {
        dep_name: "a".to_string(),
        dep_feature: "b/c".to_string(),
        weak: false,
    });
}

#[test]
fn slash_wins_over_dep_prefix() {
    assert_eq!(FeatureValue::new("dep:a/b"), FeatureValue::DepFeature {
        dep_name: "dep:a".to_string(),
        dep_feature: "b".to_string(),
        weak: false,
    });
}

#[test]
fn slash_at_either_end() {
    assert_eq!(FeatureValue::new("/x"), FeatureValue::DepFeature {
        dep_name: String::new(),
        dep_feature: "x".to_string(),
        weak: false,
    });
    assert_eq!(FeatureValue::new("x/"), FeatureValue::DepFeature {
        dep_name: "x".to_string(),
        dep_feature: String::new(),
        weak: false,
    });
}

#[test]
fn characters_outside_ascii_are_kept() {
    assert_eq!(FeatureValue::new("\u{e9}t\u{e9}/\u{4e2d}"), FeatureValue::DepFeature {
        dep_name: "\u{e9}t\u{e9}".to_string(),
        dep_feature: "\u{4e2d}".to_string(),
        weak: false,
    });
}
