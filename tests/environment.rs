use mod_rewrite::config::JsonEnvironmentVarsTree;
use mod_rewrite::envtree::EnvTree;

/// Writes a tree as JSON with the keys of each object in sorted order.
fn render(t: &EnvTree) -> String {
    match t {
        EnvTree::Text(s) => format!("{s:?}"),
        EnvTree::Array(items) => {
            let parts: Vec<String> = items.iter().map(render).collect();
            format!("[{}]", parts.join(","))
        }
        EnvTree::Object(keys, vals) => {
            let mut pairs: Vec<(String, String)> = keys
                .iter()
                .zip(vals.iter())
                .map(|(k, v)| (format!("{k:?}"), render(v)))
                .collect();
            pairs.sort();
            let parts: Vec<String> = pairs.into_iter().map(|(k, v)| format!("{k}:{v}")).collect();
            format!("{{{}}}", parts.join(","))
        }
    }
}

fn build(prefix: &str, vars: &[(&str, &str)]) -> String {
    let names = vars.iter().map(|(k, _)| k.to_string()).collect();
    let values = vars.iter().map(|(_, v)| v.to_string()).collect();
    render(&JsonEnvironmentVarsTree::new(prefix).build(&names, &values))
}

#[test]
fn test_environment_tree() {
    let tree = build(
        "STHUB__",
        &[
            ("STHUB__TEST__NESTED__VAR", "value1"),
            ("STHUB__TEST__VAR", "value2"),
            ("STHUB__ANOTHER__VAR", "value3"),
            ("STHUB__TEST__NESTED__ANOTHER__VAR", "value4"),
            ("STHUB__TEST__NESTED__VAR2", "value5"),
            ("STHUB__MYARRAY__0", "first"),
            ("STHUB__MYARRAY__1", "second"),
            ("STHUB__MYARRAY__2", "third"),
            ("STHUB__MIXED__0", "zero"),
            ("STHUB__MIXED__NAME", "name_value"),
            ("OTHER__TEST", "ignored"),
        ],
    );
    assert_eq!(
        tree,
        r#"{"ANOTHER":{"VAR":"value3"},"MIXED":{"0":"zero","NAME":"name_value"},"MYARRAY":["first","second","third"],"TEST":{"NESTED":{"ANOTHER":{"VAR":"value4"},"VAR":"value1","VAR2":"value5"},"VAR":"value2"}}"#
    );
}

#[test]
fn test_array_notation() {
    let tree = build(
        "TEST_ARRAY__",
        &[
            ("TEST_ARRAY__ITEMS__2", "item2"),
            ("TEST_ARRAY__ITEMS__0", "item0"),
            ("TEST_ARRAY__ITEMS__1", "item1"),
        ],
    );
    assert_eq!(tree, r#"{"ITEMS":["item0","item1","item2"]}"#);
}

#[test]
fn test_mixed_notation() {
    let tree = build(
        "TEST_MIXED__",
        &[
            ("TEST_MIXED__DATA__0", "zero"),
            ("TEST_MIXED__DATA__1", "one"),
            ("TEST_MIXED__DATA__NAME", "name_val"),
        ],
    );
    assert_eq!(tree, r#"{"DATA":{"0":"zero","1":"one","NAME":"name_val"}}"#);
}

#[test]
fn test_non_consecutive_array() {
    let tree = build(
        "TEST_SPARSE__",
        &[("TEST_SPARSE__DATA__0", "zero"), ("TEST_SPARSE__DATA__2", "two")],
    );
    assert_eq!(tree, r#"{"DATA":{"0":"zero","2":"two"}}"#);
}

#[test]
fn environment_tree_edge_cases() {
    assert_eq!(build("P__", &[]), "{}");
    assert_eq!(build("P__", &[("P__A", "1"), ("P__A__B", "2")]), r#"{"A":"1"}"#);
    assert_eq!(build("P__", &[("P__A__B", "2"), ("P__A", "1")]), r#"{"A":"1"}"#);
    assert_eq!(build("P__", &[("P__0", "a"), ("P__00", "b")]), r#"{"0":"a","00":"b"}"#);
    assert_eq!(build("P__", &[("P__1", "b"), ("P__0", "a")]), r#"["a","b"]"#);
}
