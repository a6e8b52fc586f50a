use dprint::changes::change_diagnostic;
use dprint::changes::display_path;
use dprint::changes::parse_failure_diagnostic;
use dprint::changes::plan_change;
use dprint::changes::ChangeError;
use dprint::changes::ChangeKindTag;
use dprint::changes::ChangeStep;
use dprint::changes::ConfigChange;
use dprint::changes::ConfigChangeKind;
use dprint::changes::ConfigChangePathItem;
use dprint::changes::EditAction;
use dprint::configuration::ConfigKeyValue;
use dprint::deserialize::JsonTree;

fn key(k: &str) -> ConfigChangePathItem {
    ConfigChangePathItem::String(k.to_string())
}

fn obj(entries: Vec<(&str, JsonTree)>) -> JsonTree {
    JsonTree::Object(entries.into_iter().map(|(k, v)| (k.to_string(), v)).collect())
}

fn num(n: &str) -> JsonTree {
    JsonTree::Number(n.to_string())
}

fn change(path: Vec<ConfigChangePathItem>, kind: ConfigChangeKind) -> ConfigChange {
    ConfigChange { path, kind }
}

fn step_names(steps: &[ChangeStep]) -> Vec<String> {
    steps
        .iter()
        .map(|s| match s {
            ChangeStep::Property(k) => format!(".{}", k),
            ChangeStep::Element(i) => format!("[{}]", i),
        })
        .collect()
}

#[test]
fn plan_add_into_object_appends_property() {
    let plugin = obj(vec![("other", num("5"))]);
    let plan = plan_change(&plugin, &change(vec![key("test")], ConfigChangeKind::Add(ConfigKeyValue::Bool(true)))).unwrap();
    assert!(plan.steps.is_empty());
    assert!(matches!(plan.action, EditAction::AppendProperty(ref k) if k == "test"));
}

#[test]
fn plan_add_onto_array_property() {
    let plugin = obj(vec![("other", JsonTree::Array(vec![JsonTree::String("test".to_string())]))]);
    let plan = plan_change(&plugin, &change(vec![key("other")], ConfigChangeKind::Add(ConfigKeyValue::Number(5)))).unwrap();
    assert!(matches!(plan.action, EditAction::AppendToArrayProperty(ref k) if k == "other"));
}

#[test]
fn plan_add_deep_path() {
    let plugin = obj(vec![
        ("other", JsonTree::Array(vec![])),
        ("array", JsonTree::Array(vec![obj(vec![("prop", obj(vec![]))]), JsonTree::Boolean(true)])),
    ]);
    let path = vec![key("array"), ConfigChangePathItem::Number(0), key("prop"), key("sub")];
    let plan = plan_change(&plugin, &change(path, ConfigChangeKind::Add(ConfigKeyValue::Null))).unwrap();
    assert_eq!(step_names(&plan.steps), vec![".array", "[0]", ".prop"]);
    assert!(matches!(plan.action, EditAction::AppendProperty(ref k) if k == "sub"));
}

#[test]
fn plan_add_by_position_inserts() {
    let plugin = obj(vec![("list", JsonTree::Array(vec![num("1")]))]);
    let plan = plan_change(
        &plugin,
        &change(vec![key("list"), ConfigChangePathItem::Number(7)], ConfigChangeKind::Add(ConfigKeyValue::Null)),
    )
    .unwrap();
    assert_eq!(step_names(&plan.steps), vec![".list"]);
    assert!(matches!(plan.action, EditAction::InsertElement(7)));
}

#[test]
fn plan_add_into_non_object_is_unsupported() {
    let plugin = obj(vec![("list", JsonTree::Array(vec![num("1")]))]);
    let err = plan_change(
        &plugin,
        &change(vec![key("list"), ConfigChangePathItem::Number(0), key("x")], ConfigChangeKind::Add(ConfigKeyValue::Null)),
    )
    .unwrap_err();
    match &err {
        ChangeError::UnsupportedAdd { steps, key } => {
            assert_eq!(step_names(steps), vec![".list", "[0]"]);
            assert_eq!(key, "x");
        }
        _ => panic!("unexpected error"),
    }
    assert_eq!(err.message("\"1\""), "Unsupported. Could not add into \"1\" with string key 'x'");
}

#[test]
fn plan_set_values() {
    let plugin = obj(vec![
        ("other", JsonTree::Array(vec![JsonTree::String("value".to_string()), num("5"), num("2")])),
        ("next", obj(vec![("asdf", JsonTree::Array(vec![JsonTree::Boolean(true), obj(vec![("asdf", num("5"))])]))])),
    ]);
    let plan = plan_change(&plugin, &change(vec![key("other")], ConfigChangeKind::SetTo(ConfigKeyValue::Bool(true)))).unwrap();
    assert_eq!(step_names(&plan.steps), vec![".other"]);
    assert!(matches!(plan.action, EditAction::Replace));
    let plan = plan_change(
        &plugin,
        &change(vec![key("next"), key("asdf"), ConfigChangePathItem::Number(1)], ConfigChangeKind::SetTo(ConfigKeyValue::Null)),
    )
    .unwrap();
    assert_eq!(step_names(&plan.steps), vec![".next", ".asdf", "[1]"]);
    assert!(matches!(plan.action, EditAction::Replace));
}

#[test]
fn plan_remove_values() {
    let plugin = obj(vec![("other", num("5")), ("prop", JsonTree::Array(vec![num("1"), num("2")]))]);
    let plan = plan_change(&plugin, &change(vec![key("other")], ConfigChangeKind::Remove)).unwrap();
    assert!(plan.steps.is_empty());
    assert!(matches!(plan.action, EditAction::RemoveProperty(ref k) if k == "other"));
    let plan = plan_change(&plugin, &change(vec![key("prop"), ConfigChangePathItem::Number(0)], ConfigChangeKind::Remove)).unwrap();
    assert_eq!(step_names(&plan.steps), vec![".prop"]);
    assert!(matches!(plan.action, EditAction::RemoveElement(0)));
}

#[test]
fn plan_errors() {
    let plugin = obj(vec![("other", num("5")), ("prop", JsonTree::Array(vec![num("1")]))]);
    let err = plan_change(&plugin, &change(vec![key("missing")], ConfigChangeKind::SetTo(ConfigKeyValue::Null))).unwrap_err();
    assert_eq!(err.message(""), "Expected property 'missing'.");
    let err = plan_change(&plugin, &change(vec![key("other"), key("x")], ConfigChangeKind::Remove)).unwrap_err();
    assert_eq!(err.message(""), "Expected object for property 'x'.");
    let err = plan_change(&plugin, &change(vec![key("other"), key("x")], ConfigChangeKind::SetTo(ConfigKeyValue::Null))).unwrap_err();
    assert_eq!(err.message(""), "Expected property 'x'.");
    let err = plan_change(&plugin, &change(vec![key("other"), ConfigChangePathItem::Number(0)], ConfigChangeKind::Remove)).unwrap_err();
    assert_eq!(err.message(""), "Expected array.");
    let err = plan_change(&plugin, &change(vec![key("prop"), ConfigChangePathItem::Number(1)], ConfigChangeKind::Remove)).unwrap_err();
    assert_eq!(err.message(""), "Expected array index '1' to be less than the length of the array.");
    let err = plan_change(&plugin, &change(vec![], ConfigChangeKind::Add(ConfigKeyValue::Null))).unwrap_err();
    assert!(matches!(err, ChangeError::NothingFound(ChangeKindTag::Add)));
    assert_eq!(err.message(""), "Failed to discover item to add to.");
    let err = plan_change(&plugin, &change(vec![], ConfigChangeKind::SetTo(ConfigKeyValue::Null))).unwrap_err();
    assert_eq!(err.message(""), "Failed to discover item to set.");
    let err = plan_change(&plugin, &change(vec![], ConfigChangeKind::Remove)).unwrap_err();
    assert_eq!(err.message(""), "Failed to discover item to remove.");
}

#[test]
fn plan_uses_first_property_of_a_name() {
    let plugin = obj(vec![("a", num("1")), ("a", JsonTree::Array(vec![]))]);
    let plan = plan_change(&plugin, &change(vec![key("a")], ConfigChangeKind::Add(ConfigKeyValue::Null))).unwrap();
    assert!(matches!(plan.action, EditAction::AppendProperty(ref k) if k == "a"));
}

#[test]
fn display_path_writes_names_and_positions() {
    let path = vec![key("array"), ConfigChangePathItem::Number(10), key("prop")];
    assert_eq!(display_path("plugin", &path), "plugin.array[10].prop");
    assert_eq!(display_path("plugin", &vec![]), "plugin");
}

#[test]
fn diagnostics_text() {
    let c = change(vec![key("a"), ConfigChangePathItem::Number(2)], ConfigChangeKind::Remove);
    assert_eq!(change_diagnostic(&c, "typescript", "Expected array."), "Failed removing item at path 'typescript.a[2]': Expected array.");
    let c = change(vec![key("a")], ConfigChangeKind::Add(ConfigKeyValue::Null));
    assert_eq!(change_diagnostic(&c, "json", "x"), "Failed adding item at path 'json.a': x");
    let c = change(vec![key("a")], ConfigChangeKind::SetTo(ConfigKeyValue::Null));
    assert_eq!(change_diagnostic(&c, "json", "x"), "Failed setting item at path 'json.a': x");
    assert_eq!(parse_failure_diagnostic("oops"), "Failed applying change since config file failed to parse: oops");
}
