use cargo_add::error::AddError;
use cargo_add::parse::{
    apply_feature, assemble_ops, collect_features, distribute_features, parse_crates,
    parse_dependencies, ParsedDependencies,
};
use cargo_add::request::{AddArgs, DepOp};
use cargo_add::table::CrateTable;
use indexmap::IndexSet;

fn strings(items: &[&str]) -> Vec<String> {
    items.iter().map(|s| s.to_string()).collect()
}

fn set(items: &[&str]) -> Option<IndexSet<String>> {
    Some(items.iter().map(|s| s.to_string()).collect())
}

fn key(name: &str) -> Option<String> {
    Some(name.to_string())
}

fn listed(features: &Option<IndexSet<String>>) -> Option<Vec<String>> {
    features.as_ref().map(|s| s.iter().cloned().collect())
}

fn args(crates: &[&str], features: &[&str]) -> AddArgs {
    AddArgs {
        crates: strings(crates),
        features: strings(features),
        rename: None,
        registry: None,
        path: None,
        git: None,
        branch: None,
        rev: None,
        tag: None,
        default_features: false,
        no_default_features: false,
        optional: false,
        no_optional: false,
    }
}

fn bare(crate_spec: Option<&str>, features: Option<IndexSet<String>>) -> DepOp {
    DepOp {
        crate_spec: crate_spec.map(String::from),
        rename: None,
        features,
        default_features: None,
        optional: None,
        registry: None,
        path: None,
        git: None,
        branch: None,
        rev: None,
        tag: None,
    }
}

fn table_of(crates: &[&str]) -> CrateTable {
    parse_crates(&strings(crates)).unwrap()
}

#[test]
fn single_crate_takes_an_unqualified_feature() {
    let parsed = parse_dependencies(&args(&["serde"], &["derive"])).unwrap();
    assert_eq!(parsed.ops.len(), 1);
    assert_eq!(listed(&parsed.ops[0].features), Some(strings(&["derive"])));
    assert_eq!(parsed, ParsedDependencies {
        ops: vec![bare(Some("serde"), set(&["derive"]))],
        infer_crate_name: false
    });
}

#[test]
fn unqualified_feature_with_two_crates_is_ambiguous() {
    let err = parse_dependencies(&args(&["serde", "tokio"], &["derive"])).unwrap_err();
    assert_eq!(err, AddError::AmbiguousFeatureTarget {
        feature: "derive".to_string(),
        candidates: strings(&["serde/derive", "tokio/derive"]),
    });
    let message = err.message();
    assert!(message.contains("serde/derive"));
    assert!(message.contains("tokio/derive"));
}

#[test]
fn qualified_feature_goes_to_its_crate() {
    let parsed = parse_dependencies(&args(&["serde", "tokio"], &["tokio/rt"])).unwrap();
    assert_eq!(parsed.ops.len(), 2);
    assert_eq!(parsed.ops[0].crate_spec, key("serde"));
    assert_eq!(parsed.ops[0].features, None);
    assert_eq!(parsed.ops[1].crate_spec, key("tokio"));
    assert!(parsed.ops[1].features.as_ref().unwrap().contains("rt"));
    assert_eq!(listed(&parsed.ops[1].features), Some(strings(&["rt"])));
}

#[test]
fn no_crate_and_a_path_infers_the_name() {
    let mut a = args(&[], &[]);
    a.path = key("../local");
    let parsed = parse_dependencies(&a).unwrap();
    assert!(parsed.infer_crate_name);
    assert_eq!(parsed.ops.len(), 1);
    assert_eq!(parsed.ops[0].crate_spec, None);
    assert_eq!(parsed.ops[0].features, None);
    assert_eq!(parsed.ops[0].path, key("../local"));
}

#[test]
fn no_crate_and_a_git_url_infers_the_name() {
    let mut a = args(&[], &[]);
    a.git = key("https://example.com/repo.git");
    a.branch = key("main");
    let parsed = parse_dependencies(&a).unwrap();
    assert!(parsed.infer_crate_name);
    assert_eq!(parsed.ops.len(), 1);
    assert_eq!(parsed.ops[0].crate_spec, None);
    assert_eq!(parsed.ops[0].git, key("https://example.com/repo.git"));
    assert_eq!(parsed.ops[0].branch, key("main"));
}

#[test]
fn qualified_feature_is_rejected_while_the_name_is_inferred() {
    let mut a = args(&[], &["tokio/rt"]);
    a.path = key("../local");
    let err = parse_dependencies(&a).unwrap_err();
    assert_eq!(err, AddError::QualifiedFeatureWithInferredName {
        feature: "tokio/rt".to_string(),
        dep_feature: "rt".to_string(),
    });
}

#[test]
fn unqualified_feature_goes_to_the_inferred_crate() {
    let mut a = args(&[], &["derive,std"]);
    a.path = key("../local");
    let parsed = parse_dependencies(&a).unwrap();
    assert!(parsed.infer_crate_name);
    assert_eq!(parsed.ops.len(), 1);
    assert_eq!(parsed.ops[0].crate_spec, None);
    assert_eq!(listed(&parsed.ops[0].features), Some(strings(&["derive", "std"])));
}

#[test]
fn crate_with_a_path_does_not_infer() {
    let mut a = args(&["local"], &[]);
    a.path = key("../local");
    let parsed = parse_dependencies(&a).unwrap();
    assert!(!parsed.infer_crate_name);
    assert_eq!(parsed.ops.len(), 1);
    assert_eq!(parsed.ops[0].crate_spec, key("local"));
}

#[test]
fn rename_with_two_crates_is_rejected() {
    let mut a = args(&["serde", "tokio"], &[]);
    a.rename = key("alias");
    assert_eq!(parse_dependencies(&a).unwrap_err(), AddError::RenameRequiresSingleTarget);
}

#[test]
fn rename_with_one_crate_is_kept() {
    let mut a = args(&["serde"], &[]);
    a.rename = key("alias");
    let parsed = parse_dependencies(&a).unwrap();
    assert_eq!(parsed.ops.len(), 1);
    assert_eq!(parsed.ops[0].rename, key("alias"));
}

#[test]
fn rename_with_a_repeated_crate_counts_one_target() {
    let mut a = args(&["serde", "+derive", "serde"], &[]);
    a.rename = key("alias");
    let parsed = parse_dependencies(&a).unwrap();
    assert_eq!(parsed.ops.len(), 1);
    assert_eq!(parsed.ops[0].crate_spec, key("serde"));
}

#[test]
fn rename_with_an_inferred_name_is_kept() {
    let mut a = args(&[], &[]);
    a.git = key("https://example.com/repo.git");
    a.rename = key("alias");
    let parsed = parse_dependencies(&a).unwrap();
    assert_eq!(parsed.ops.len(), 1);
    assert_eq!(parsed.ops[0].rename, key("alias"));
}

#[test]
fn parsing_twice_gives_the_same_outcome() {
    let mut a = args(&["b", "+x", "a", "+z", "+y", "b", "+w"], &["a/q b/p", "a/z"]);
    a.registry = key("mine");
    a.optional = true;
    let first = parse_dependencies(&a).unwrap();
    let second = parse_dependencies(&a).unwrap();
    assert_eq!(first, second);
    let order: Vec<Vec<String>> = first.ops.iter().map(|op| listed(&op.features).unwrap()).collect();
    assert_eq!(order, vec![strings(&["w", "p"]), strings(&["z", "y", "q"])]);
    let failing = args(&["a", "b"], &["x"]);
    assert_eq!(parse_dependencies(&failing), parse_dependencies(&failing));
}

#[test]
fn operations_follow_first_occurrence_order() {
    let parsed = parse_dependencies(&args(&["c", "a", "+f", "c", "b", "a"], &[])).unwrap();
    let names: Vec<Option<String>> = parsed.ops.iter().map(|op| op.crate_spec.clone()).collect();
    assert_eq!(names, vec![key("c"), key("a"), key("b")]);
}

#[test]
fn leading_suffix_fails_the_whole_parse() {
    let mut a = args(&["+derive", "serde"], &["x"]);
    a.path = key("p");
    assert_eq!(parse_dependencies(&a).unwrap_err(), AddError::DanglingFeatureSuffix);
}

#[test]
fn dangling_suffix_is_reported_before_any_feature_error() {
    let a = args(&["+derive"], &["dep:x"]);
    assert_eq!(parse_dependencies(&a).unwrap_err(), AddError::DanglingFeatureSuffix);
}

#[test]
fn shared_arguments_are_copied_to_every_operation() {
    let mut a = args(&["a", "b", "+x"], &[]);
    a.registry = key("mine");
    a.git = key("https://example.com/repo.git");
    a.tag = key("v1");
    a.no_default_features = true;
    a.optional = true;
    let parsed = parse_dependencies(&a).unwrap();
    let expected = |name: &str, features: Option<IndexSet<String>>| DepOp {
        crate_spec: key(name),
        rename: None,
        features,
        default_features: Some(false),
        optional: Some(true),
        registry: key("mine"),
        path: None,
        git: key("https://example.com/repo.git"),
        branch: None,
        rev: None,
        tag: key("v1"),
    };
    assert_eq!(parsed.ops, vec![expected("a", None), expected("b", set(&["x"]))]);
}

#[test]
fn flag_states_reach_the_operation() {
    let mut a = args(&["a"], &[]);
    a.default_features = true;
    a.no_optional = true;
    let parsed = parse_dependencies(&a).unwrap();
    assert_eq!(parsed.ops[0].default_features, Some(true));
    assert_eq!(parsed.ops[0].optional, Some(false));
    let plain = parse_dependencies(&args(&["a"], &[])).unwrap();
    assert_eq!(plain.ops[0].default_features, None);
    assert_eq!(plain.ops[0].optional, None);
}

#[test]
fn rev_and_path_are_passed_through() {
    let mut a = args(&["a"], &[]);
    a.path = key("/abs/path");
    a.rev = key("abc123");
    let parsed = parse_dependencies(&a).unwrap();
    assert_eq!(parsed.ops[0].path, key("/abs/path"));
    assert_eq!(parsed.ops[0].rev, key("abc123"));
    assert_eq!(parsed.ops[0].git, None);
}

#[test]
fn flag_features_follow_positional_ones() {
    let parsed = parse_dependencies(&args(&["serde", "+alloc"], &["derive", "alloc std"])).unwrap();
    assert_eq!(listed(&parsed.ops[0].features), Some(strings(&["alloc", "derive", "std"])));
}

#[test]
fn explicit_dep_syntax_is_rejected() {
    let err = parse_dependencies(&args(&["serde"], &["dep:serde"])).unwrap_err();
    assert_eq!(err, AddError::ExplicitDepSyntaxUnsupported { feature: "dep:serde".to_string() });
}

#[test]
fn explicit_dep_syntax_is_rejected_while_the_name_is_inferred() {
    let mut a = args(&[], &["dep:x"]);
    a.path = key("p");
    assert_eq!(parse_dependencies(&a).unwrap_err(), AddError::ExplicitDepSyntaxUnsupported {
        feature: "dep:x".to_string()
    });
}

#[test]
fn second_slash_is_rejected() {
    let err = parse_dependencies(&args(&["a"], &["a/b/c"])).unwrap_err();
    assert_eq!(err, AddError::DoubleQualifiedFeature { feature: "a/b/c".to_string() });
}

#[test]
fn second_slash_is_rejected_before_the_crate_is_looked_up() {
    let err = parse_dependencies(&args(&["a"], &["zzz/b/c"])).unwrap_err();
    assert_eq!(err, AddError::DoubleQualifiedFeature { feature: "zzz/b/c".to_string() });
}

#[test]
fn inference_is_checked_before_the_second_slash() {
    let mut a = args(&[], &["a/b/c"]);
    a.path = key("p");
    assert_eq!(parse_dependencies(&a).unwrap_err(), AddError::QualifiedFeatureWithInferredName {
        feature: "a/b/c".to_string(),
        dep_feature: "b/c".to_string(),
    });
}

#[test]
fn feature_for_an_unnamed_crate_is_rejected() {
    let err = parse_dependencies(&args(&["serde"], &["tokio/rt"])).unwrap_err();
    assert_eq!(err, AddError::UnknownFeatureTarget {
        dep_feature: "rt".to_string(),
        dep_name: "tokio".to_string(),
    });
}

#[test]
fn crate_key_must_match_the_whole_token() {
    let err = parse_dependencies(&args(&["serde@1"], &["serde/derive"])).unwrap_err();
    assert_eq!(err, AddError::UnknownFeatureTarget {
        dep_feature: "derive".to_string(),
        dep_name: "serde".to_string(),
    });
}

#[test]
fn weak_marker_is_taken_off_the_crate_name() {
    let parsed = parse_dependencies(&args(&["serde", "tokio"], &["serde?/derive"])).unwrap();
    assert_eq!(listed(&parsed.ops[0].features), Some(strings(&["derive"])));
    assert_eq!(parsed.ops[1].features, None);
}

#[test]
fn qualified_feature_with_one_crate_is_accepted() {
    let parsed = parse_dependencies(&args(&["serde"], &["serde/derive"])).unwrap();
    assert_eq!(listed(&parsed.ops[0].features), Some(strings(&["derive"])));
}

#[test]
fn first_rejected_feature_decides() {
    let err = parse_dependencies(&args(&["a", "b"], &["a/x", "zzz/y dep:q", "plain"])).unwrap_err();
    assert_eq!(err, AddError::UnknownFeatureTarget {
        dep_feature: "y".to_string(),
        dep_name: "zzz".to_string()
    });
}

#[test]
fn feature_error_comes_before_the_rename_check() {
    let mut a = args(&["a", "b"], &["plain"]);
    a.rename = key("alias");
    assert!(matches!(parse_dependencies(&a).unwrap_err(), AddError::AmbiguousFeatureTarget { .. }));
}

#[test]
fn feature_values_are_concatenated_in_argument_order() {
    assert_eq!(collect_features(&strings(&["b a", "", "c,,d", " "])), strings(&["b", "a", "c", "d"]));
    assert_eq!(collect_features(&Vec::new()), Vec::<String>::new());
}

#[test]
fn apply_feature_enters_a_plain_feature() {
    let table = apply_feature(table_of(&["a"]), "x").unwrap();
    assert_eq!(table.into_entries(), vec![(key("a"), set(&["x"]))]);
}

#[test]
fn apply_feature_keeps_inference() {
    let mut table = CrateTable::new();
    table.insert_inferred();
    let table = apply_feature(table, "x").unwrap();
    assert!(table.infer_crate_name());
    assert_eq!(table.into_entries(), vec![(None, set(&["x"]))]);
}

#[test]
fn distribute_features_fills_the_table_in_token_order() {
    let table = distribute_features(table_of(&["a", "b"]), &strings(&["b/y a/x", "b/z,b/y"])).unwrap();
    assert_eq!(table.into_entries(), vec![(key("a"), set(&["x"])), (key("b"), set(&["y", "z"]))]);
}

#[test]
fn distribute_features_without_features_changes_nothing() {
    let table = distribute_features(table_of(&["a", "+k", "b"]), &strings(&[" ", ""])).unwrap();
    assert_eq!(table.into_entries(), vec![(key("a"), set(&["k"])), (key("b"), None)]);
}

#[test]
fn assemble_gives_one_operation_for_each_entry() {
    let ops = assemble_ops(table_of(&["a", "+x", "b"]), &args(&[], &[])).unwrap();
    assert_eq!(ops, vec![bare(Some("a"), set(&["x"])), bare(Some("b"), None)]);
}

#[test]
fn assemble_of_an_empty_table_gives_no_operation() {
    let mut a = args(&[], &[]);
    a.rename = key("alias");
    assert_eq!(assemble_ops(CrateTable::new(), &a).unwrap(), Vec::<DepOp>::new());
}

#[test]
fn assemble_rejects_a_rename_for_two_entries() {
    let mut a = args(&[], &[]);
    a.rename = key("alias");
    assert_eq!(assemble_ops(table_of(&["a", "b"]), &a).unwrap_err(), AddError::RenameRequiresSingleTarget);
}
