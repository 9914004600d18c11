use solite::analyzer::rules::{get_rule_by_id, LintRule};
use solite::analyzer::schema::Schema;
use solite::ast::DocComment;
use solite::strmap::StrMap;

fn nargs(entries: &[(&str, Vec<i32>)]) -> StrMap<Vec<i32>> {
    let mut m = StrMap::new();
    for (k, v) in entries {
        m.insert(k.to_string(), v.clone());
    }
    m
}

#[test]
fn merge_takes_the_later_argument_counts() {
    let mut a = Schema::new();
    a.set_function_nargs(nargs(&[("f", vec![1]), ("g", vec![2])]));
    let mut b = Schema::new();
    b.set_function_nargs(nargs(&[("f", vec![3]), ("h", vec![-1])]));
    a.merge(b);
    assert_eq!(a.function_nargs("f"), Some(&[3][..]));
    assert_eq!(a.function_nargs("g"), Some(&[2][..]));
    assert_eq!(a.function_nargs("h"), Some(&[-1][..]));
}

#[test]
fn merge_overrides_every_registry() {
    let mut a = Schema::new();
    a.add_table("t", vec!["x".to_string()], false);
    a.add_index("i", "t", vec!["x".to_string()], false);
    a.add_view("v", vec!["x".to_string()]);
    let mut b = Schema::new();
    b.add_table("T", vec!["y".to_string()], true);
    b.add_index("I", "t", vec!["y".to_string()], true);
    a.merge(b);
    assert_eq!(a.columns_for_table("t"), Some(&["y".to_string()][..]));
    assert_eq!(a.table_names(), vec!["T".to_string()]);
    assert!(a.get_index("i").unwrap().is_unique);
    assert_eq!(a.get_index("i").unwrap().name, "I");
    assert_eq!(a.columns_for_view("v"), Some(&["x".to_string()][..]));
}

#[test]
fn readding_a_table_replaces_it_and_its_name() {
    let mut s = Schema::new();
    s.add_table("Users", vec!["a".to_string()], false);
    s.add_table("USERS", vec!["b".to_string()], true);
    assert_eq!(s.table_names(), vec!["USERS".to_string()]);
    let t = s.get_table("users").unwrap();
    assert_eq!(t.original_columns, vec!["b".to_string()]);
    assert!(t.without_rowid);
}

#[test]
fn doc_comment_new_is_default() {
    let d = DocComment::new();
    assert!(d == DocComment::default());
    assert!(d.description.is_empty());
    assert!(d.tags.is_empty());
}

#[test]
fn doc_comment_equality_ignores_tag_order() {
    let mut a = DocComment::new();
    a.tags.insert("x".to_string(), vec!["1".to_string()]);
    a.tags.insert("y".to_string(), vec!["2".to_string()]);
    let mut b = DocComment::new();
    b.tags.insert("y".to_string(), vec!["2".to_string()]);
    b.tags.insert("x".to_string(), vec!["1".to_string()]);
    assert!(a == b);
    let c = a.clone();
    assert!(c == a);
    b.tags.insert("x".to_string(), vec!["3".to_string()]);
    assert!(a != b);
}

#[test]
fn rules_are_found_by_id() {
    assert_eq!(get_rule_by_id("missing-as").unwrap().name(), "Missing AS Keyword");
    assert_eq!(get_rule_by_id("empty-blob-literal").unwrap().id(), "empty-blob-literal");
    assert!(get_rule_by_id("double-quoted-string").unwrap().is_fixable());
    assert!(get_rule_by_id("nope").is_none());
}

#[test]
fn table_names_hold_one_name_per_table() {
    let mut s = Schema::new();
    s.add_table("Users", vec!["id".to_string()], false);
    s.add_table_with_doc("Orders", vec!["id".to_string()], false, None, StrMap::new());
    s.add_table_with_doc("USERS", vec!["id".to_string(), "name".to_string()], false, None, StrMap::new());
    let mut other = Schema::new();
    other.add_table("orders", vec!["total".to_string()], true);
    other.add_table("Items", vec!["sku".to_string()], false);
    s.merge(other);
    let mut names = s.table_names();
    names.sort();
    assert_eq!(names, vec!["Items".to_string(), "USERS".to_string(), "orders".to_string()]);
    for n in &names {
        assert!(s.has_table(n));
    }
    assert_eq!(s.get_table("users").unwrap().original_columns, vec!["id".to_string(), "name".to_string()]);
}
