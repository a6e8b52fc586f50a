use dprint::changes::ChangeStep;
use dprint::changes::EditAction;
use dprint::configuration::ConfigKeyValue;
use dprint::deserialize::JsonTree;
use dprint::json_edit::edit_tree;
use dprint::json_edit::i32_text;
use dprint::json_edit::json_eq;
use dprint::json_edit::json_of_value;
use dprint::json_edit::print_json;
use dprint::json_edit::take_section;

fn s(t: &str) -> JsonTree {
    JsonTree::String(t.to_string())
}

fn n(t: &str) -> JsonTree {
    JsonTree::Number(t.to_string())
}

fn o(entries: Vec<(&str, JsonTree)>) -> JsonTree {
    JsonTree::Object(entries.into_iter().map(|(k, v)| (k.to_string(), v)).collect())
}

#[test]
fn i32_text_writes_sign_and_digits() {
    assert_eq!(i32_text(0), "0");
    assert_eq!(i32_text(42), "42");
    assert_eq!(i32_text(-7), "-7");
    assert_eq!(i32_text(i32::MIN), "-2147483648");
}

#[test]
fn json_of_value_writes_each_kind() {
    let v = ConfigKeyValue::Array(vec![
        ConfigKeyValue::Number(-3),
        ConfigKeyValue::Bool(true),
        ConfigKeyValue::Null,
        ConfigKeyValue::Object(vec![("k".to_string(), ConfigKeyValue::String("v".to_string()))]),
    ]);
    let expected = JsonTree::Array(vec![n("-3"), JsonTree::Boolean(true), JsonTree::Null, o(vec![("k", s("v"))])]);
    assert!(json_eq(&json_of_value(&v), &expected));
}

#[test]
fn json_eq_tells_values_apart() {
    assert!(json_eq(&o(vec![("a", n("1"))]), &o(vec![("a", n("1"))])));
    assert!(!json_eq(&o(vec![("a", n("1"))]), &o(vec![("a", n("2"))])));
    assert!(!json_eq(&o(vec![("a", n("1"))]), &o(vec![("b", n("1"))])));
    assert!(!json_eq(&JsonTree::Array(vec![]), &o(vec![])));
    assert!(!json_eq(&s("1"), &n("1")));
}

#[test]
fn edit_tree_carries_out_each_action() {
    let base = || o(vec![("a", JsonTree::Array(vec![n("1"), n("2")])), ("b", s("x"))]);
    let steps = vec![ChangeStep::Property("a".to_string())];
    let appended = edit_tree(base(), &vec![], 0, &EditAction::AppendToArrayProperty("a".to_string()), n("3"));
    assert!(json_eq(&appended, &o(vec![("a", JsonTree::Array(vec![n("1"), n("2"), n("3")])), ("b", s("x"))])));
    let set_in_place = edit_tree(base(), &vec![], 0, &EditAction::AppendProperty("b".to_string()), s("y"));
    assert!(json_eq(&set_in_place, &o(vec![("a", JsonTree::Array(vec![n("1"), n("2")])), ("b", s("y"))])));
    let added = edit_tree(base(), &vec![], 0, &EditAction::AppendProperty("c".to_string()), JsonTree::Null);
    assert!(json_eq(
        &added,
        &o(vec![("a", JsonTree::Array(vec![n("1"), n("2")])), ("b", s("x")), ("c", JsonTree::Null)])
    ));
    let inserted_past_end = edit_tree(base(), &steps, 0, &EditAction::InsertElement(9), n("9"));
    assert!(json_eq(&inserted_past_end, &o(vec![("a", JsonTree::Array(vec![n("1"), n("2"), n("9")])), ("b", s("x"))])));
    let inserted = edit_tree(base(), &steps, 0, &EditAction::InsertElement(0), n("0"));
    assert!(json_eq(&inserted, &o(vec![("a", JsonTree::Array(vec![n("0"), n("1"), n("2")])), ("b", s("x"))])));
    let removed = edit_tree(base(), &steps, 0, &EditAction::RemoveElement(0), JsonTree::Null);
    assert!(json_eq(&removed, &o(vec![("a", JsonTree::Array(vec![n("2")])), ("b", s("x"))])));
    let replaced = edit_tree(
        base(),
        &vec![ChangeStep::Property("a".to_string()), ChangeStep::Element(1)],
        0,
        &EditAction::Replace,
        s("two"),
    );
    assert!(json_eq(&replaced, &o(vec![("a", JsonTree::Array(vec![n("1"), s("two")])), ("b", s("x"))])));
    let gone = edit_tree(base(), &vec![], 0, &EditAction::RemoveProperty("a".to_string()), JsonTree::Null);
    assert!(json_eq(&gone, &o(vec![("b", s("x"))])));
    let missing_step = edit_tree(base(), &vec![ChangeStep::Property("z".to_string())], 0, &EditAction::Replace, s("q"));
    assert!(json_eq(&missing_step, &base()));
}

#[test]
fn take_section_finds_the_plugins_object() {
    let value = o(vec![("plugin", o(vec![("a", n("1"))])), ("other", n("2"))]);
    let section = take_section(Some(value), "plugin").unwrap();
    assert!(json_eq(&section, &o(vec![("a", n("1"))])));
    assert!(take_section(Some(o(vec![("other", n("2"))])), "other").is_none());
    assert!(take_section(Some(o(vec![])), "plugin").is_none());
    assert!(take_section(None, "plugin").is_none());
}

#[test]
fn print_json_writes_compact_escaped_json() {
    let v = o(vec![
        ("a", JsonTree::Array(vec![n("1"), JsonTree::Null, JsonTree::Boolean(false)])),
        ("q\"", s("line\nbreak\ttab\\ \u{1}")),
        ("e", o(vec![])),
        ("f", JsonTree::Array(vec![])),
    ]);
    assert_eq!(
        print_json(&v),
        "{\"a\":[1,null,false],\"q\\\"\":\"line\\nbreak\\ttab\\\\ \\u0001\",\"e\":{},\"f\":[]}"
    );
}
