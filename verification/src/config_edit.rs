//! Editing the configuration file through jsonc_parser's syntax tree, which
//! keeps the author's formatting and comments: the library plans each edit
//! on the file's JSON value, performs the plan on the tree, and reads the
//! printed text back to confirm that its value is the one planned; when it
//! is not, the planned value is written out as JSON instead.
use vstd::prelude::*;
use jsonc_parser::cst::{CstArray, CstContainerNode, CstInputValue, CstLeafNode, CstNode, CstObject, CstRootNode};
use crate::changes::{
    lemma_object_keys, ChangeError, ChangeStep, ConfigChange, ConfigChangeKind, EditAction, EditPlan, ErrorView,
    change_diagnostic, error_message, failure_lead, kind_tag, parse_failure_diagnostic, path_text, plan_change,
    steps_view,
};
use crate::configuration::{ConfigKeyValue, find_key, key_index, lemma_key_index};
use crate::deserialize::{JsonTree, JsonView, json_array_view, json_object_view, map_insert, parse_jsonc, parsed_jsonc};
use crate::json_edit::{array_property, copy_json, copy_opt_json, json_text, print_json, put_property, take_array_property, with_property, kind_value, edit_tree, json_eq, json_of_value, opt_json, replay, section_object, take_section};
use crate::manipulation::{
    ApplyConfigChangesResult, ConfigEditError, NpmSpecifier, NpmView, npm_entry_matches, spec_npm_entry_matches,
};
use crate::text::copy_str;

verus! {

#[verifier::external_type_specification]
#[verifier::external_body]
pub struct ExCstRootNode(CstRootNode);

#[verifier::external_type_specification]
#[verifier::external_body]
pub struct ExCstObject(CstObject);

#[verifier::external_type_specification]
#[verifier::external_body]
pub struct ExCstArray(CstArray);

#[verifier::external_type_specification]
#[verifier::external_body]
pub struct ExCstNode(CstNode);

#[verifier::external_type_specification]
#[verifier::external_body]
pub struct ExCstInputValue(CstInputValue);

/// The message (`{:#}`) of the error with which `CstRootNode::parse`, with
/// the default options, refuses a text; none when it parses. It depends on
/// the text alone.
pub uninterp spec fn cst_parse_failure(text: Seq<char>) -> Option<Seq<char>>;

/// `CstRootNode::parse` with the default options, or the error's message.
/// Whether it fails, and with what message, is named [`cst_parse_failure`].
#[verifier::external_body]
fn parse_cst(text: &str) -> (r: Result<CstRootNode, String>)
    ensures
        match cst_parse_failure(text@) {
            Some(m) => r matches Err(e) && e@ == m,
            None => r is Ok,
        },
{
    CstRootNode::parse(text, &Default::default()).map_err(|err| format!("{:#}", err))
}

/// `CstRootNode::object_value_or_set`: the root's object, set to an empty
/// one when the root holds none. Nothing is stated of the tree.
#[verifier::external_body]
fn root_object(root: &CstRootNode) -> CstObject {
    root.object_value_or_set()
}

/// `CstObject::object_value`: the object held by the object's property of
/// this name. Nothing is stated of the tree.
#[verifier::external_body]
fn object_property_object(obj: &CstObject, name: &str) -> Option<CstObject> {
    obj.object_value(name)
}

/// The object as a node of the tree (`From<CstObject> for CstNode`).
#[verifier::external_body]
fn object_node(obj: &CstObject) -> CstNode {
    obj.clone().into()
}

/// `CstObject::get` then `CstObjectProp::value`: the value of the node's
/// property of this name, when the node is an object. Nothing is stated of
/// the tree.
#[verifier::external_body]
fn property_value(node: &CstNode, name: &str) -> Option<CstNode> {
    node.as_object()?.get(name)?.value()
}

/// `CstArray::elements`: the node's element at this position, when the node
/// is an array. Nothing is stated of the tree.
#[verifier::external_body]
fn element_at(node: &CstNode, index: usize) -> Option<CstNode> {
    node.as_array()?.elements().into_iter().nth(index)
}

/// The node's text (`Display`), quoted as `{:?}` writes a string.
#[verifier::external_body]
fn node_quoted_text(node: &CstNode) -> String {
    format!("{:?}", node.to_string())
}

/// The tree's input value for a configuration value: each kind of value
/// becomes the same kind, a number its decimal text.
#[verifier::external_body]
fn cst_input(value: &ConfigKeyValue) -> CstInputValue {
    match value {
        ConfigKeyValue::Bool(b) => CstInputValue::Bool(*b),
        ConfigKeyValue::Number(n) => CstInputValue::Number(n.to_string()),
        ConfigKeyValue::String(s) => CstInputValue::String(s.clone()),
        ConfigKeyValue::Array(a) => CstInputValue::Array(a.iter().map(cst_input).collect()),
        ConfigKeyValue::Object(o) => CstInputValue::Object(o.iter().map(|(k, v)| (k.clone(), cst_input(v))).collect()),
        ConfigKeyValue::Null => CstInputValue::Null,
    }
}

/// `CstObject::array_value` then `CstArray::append`: appends the value to
/// the array of the node's property of this name; false when there is none.
#[verifier::external_body]
fn append_to_array_property(node: &CstNode, name: &str, value: CstInputValue) -> bool {
    match node.as_object().and_then(|o| o.array_value(name)) {
        Some(array) => {
            array.append(value);
            true
        },
        None => false,
    }
}

/// `CstObject::append`: appends a property to the node; false when the node
/// is not an object.
#[verifier::external_body]
fn append_property(node: &CstNode, name: &str, value: CstInputValue) -> bool {
    match node.as_object() {
        Some(o) => {
            o.append(name, value);
            true
        },
        None => false,
    }
}

/// `CstArray::insert`: inserts the value at the position; false when the
/// node is not an array.
#[verifier::external_body]
fn insert_element(node: &CstNode, index: usize, value: CstInputValue) -> bool {
    match node.as_array() {
        Some(a) => {
            a.insert(index, value);
            true
        },
        None => false,
    }
}

/// `replace_with` of the node's kind: replaces a value node with the value;
/// false for a node that is not a value (a property, the root or a token).
#[verifier::external_body]
fn replace_node(node: CstNode, value: CstInputValue) -> bool {
    let _replacement = match node {
        CstNode::Container(CstContainerNode::Array(n)) => n.replace_with(value),
        CstNode::Container(CstContainerNode::Object(n)) => n.replace_with(value),
        CstNode::Leaf(CstLeafNode::BooleanLit(n)) => n.replace_with(value),
        CstNode::Leaf(CstLeafNode::NullKeyword(n)) => n.replace_with(value),
        CstNode::Leaf(CstLeafNode::NumberLit(n)) => n.replace_with(value),
        CstNode::Leaf(CstLeafNode::StringLit(n)) => n.replace_with(value),
        CstNode::Leaf(CstLeafNode::WordLit(n)) => n.replace_with(value),
        _ => return false,
    };
    true
}

/// `CstObject::get` then `CstObjectProp::remove`: removes the node's
/// property of this name; false when there is none.
#[verifier::external_body]
fn remove_property(node: &CstNode, name: &str) -> bool {
    match node.as_object().and_then(|o| o.get(name)) {
        Some(prop) => {
            prop.remove();
            true
        },
        None => false,
    }
}

/// `CstNode::remove` of the array's element at the position; false when
/// there is none.
#[verifier::external_body]
fn remove_element(node: &CstNode, index: usize) -> bool {
    match node.as_array().and_then(|a| a.elements().into_iter().nth(index)) {
        Some(element) => {
            element.remove();
            true
        },
        None => false,
    }
}

/// `CstObject::array_value_or_set`: the array of the object's property of
/// this name, set to an empty one when there is none. Nothing is stated of
/// the tree.
#[verifier::external_body]
fn array_value_or_set(obj: &CstObject, name: &str) -> CstArray {
    obj.array_value_or_set(name)
}

/// `CstArray::ensure_multiline`: puts the array's elements on lines of their
/// own. Nothing is stated of the tree.
#[verifier::external_body]
fn ensure_multiline(array: &CstArray) {
    array.ensure_multiline()
}

/// `CstArray::append` of a string. Nothing is stated of the tree.
#[verifier::external_body]
fn append_string(array: &CstArray, text: &str) {
    array.append(CstInputValue::String(text.to_string()));
}

/// `CstRootNode::object_value`: the root's object, when it holds one.
/// Nothing is stated of the tree.
#[verifier::external_body]
fn root_object_value(root: &CstRootNode) -> Option<CstObject> {
    root.object_value()
}

/// `CstObject::array_value`: the array of the object's property of this
/// name, when it holds one. Nothing is stated of the tree.
#[verifier::external_body]
fn object_array_value(obj: &CstObject, name: &str) -> Option<CstArray> {
    obj.array_value(name)
}

/// `CstArray::elements`: the array's elements. Nothing is stated of them.
#[verifier::external_body]
fn array_elements(array: &CstArray) -> Vec<CstNode> {
    array.elements()
}

/// `CstStringLit::replace_with` a string, for a string literal node.
/// Nothing is stated of the tree.
#[verifier::external_body]
fn replace_string_literal(node: &CstNode, text: &str) {
    if let CstNode::Leaf(CstLeafNode::StringLit(s)) = node {
        s.clone().replace_with(CstInputValue::String(text.to_string()));
    }
}

/// The tree printed back (`Display` of the root).
#[verifier::external_body]
fn root_text(root: &CstRootNode) -> String {
    root.to_string()
}

/// The node that the steps lead to from the plugin's object, if each step
/// is there.
fn node_at(plugin_obj: &CstObject, steps: &Vec<ChangeStep>) -> Option<CstNode> {
    let mut node = object_node(plugin_obj);
    let mut i: usize = 0;
    while i < steps.len()
        invariant
            i <= steps@.len(),
        decreases steps@.len() - i,
    {
        let next = match &steps[i] {
            ChangeStep::Property(name) => property_value(&node, name.as_str()),
            ChangeStep::Element(index) => element_at(&node, *index),
        };
        match next {
            Some(n) => node = n,
            None => return None,
        }
        i = i + 1;
    }
    Some(node)
}

/// Does what the plan says at the node it leads to, with the change's value;
/// false when the node, or what the action needs, is not in the tree.
fn perform(plugin_obj: &CstObject, plan: &EditPlan, kind: &ConfigChangeKind) -> bool {
    let node = match node_at(plugin_obj, &plan.steps) {
        Some(n) => n,
        None => return false,
    };
    let done = match kind {
        ConfigChangeKind::Add(value) | ConfigChangeKind::SetTo(value) => match &plan.action {
            EditAction::AppendToArrayProperty(name) => append_to_array_property(&node, name.as_str(), cst_input(value)),
            EditAction::AppendProperty(name) => append_property(&node, name.as_str(), cst_input(value)),
            EditAction::InsertElement(index) => insert_element(&node, *index, cst_input(value)),
            EditAction::Replace => replace_node(node, cst_input(value)),
            EditAction::RemoveProperty(name) => remove_property(&node, name.as_str()),
            EditAction::RemoveElement(index) => remove_element(&node, *index),
        },
        ConfigChangeKind::Remove => match &plan.action {
            EditAction::RemoveProperty(name) => remove_property(&node, name.as_str()),
            EditAction::RemoveElement(index) => remove_element(&node, *index),
            _ => false,
        },
    };
    done
}

/// Whether `d` is the diagnostic for the change `c` to the plugin
/// `plugin_key`, which could not be applied for the reason `e`: what was
/// tried, where, and why not (an unsupported addition quotes the node's
/// text as the syntax tree prints it).
pub open spec fn is_failure_diagnostic(d: Seq<char>, c: ConfigChange, plugin_key: Seq<char>, e: ErrorView) -> bool {
    exists|t: Seq<char>|
        d == failure_lead(kind_tag(c.kind)) + path_text(plugin_key, c.path@) + "': "@ + #[trigger] error_message(e, t)
}

/// Whether `text` reads back (see [`parsed_jsonc`]) with `section` as the
/// plugin's section.
pub open spec fn reads_back_with_section(text: Seq<char>, plugin_key: Seq<char>, section: JsonView) -> bool {
    parsed_jsonc(text) matches Ok(v) && section_object(v, plugin_key) == Some(section)
}

/// What applying `changes` gives when the file's JSON value is `value`:
/// without changes, the text as it is; without a plugin section, nothing;
/// else a diagnostic for each change that cannot be applied, in order, and
/// a new text whose plugin section is the section with the other changes
/// carried out (see [`replay`]). That text is the syntax tree's, which keeps
/// the author's formatting and comments; when the tree does not read back
/// that way (as when a property name repeats, which the tree and the JSON
/// value read differently), it is the planned value written out (see
/// [`json_text`]).
pub open spec fn reports_edits(
    r: ApplyConfigChangesResult,
    file_text: Seq<char>,
    value: Option<JsonView>,
    changes: Seq<ConfigChange>,
    plugin_key: Seq<char>,
) -> bool {
    if changes.len() == 0 {
        r.new_text@ == file_text && r.diagnostics@.len() == 0
    } else {
        match section_object(value, plugin_key) {
            None => r.new_text@.len() == 0 && r.diagnostics@.len() == 0,
            Some(s) => {
                let done = replay(s, changes);
                &&& r.diagnostics@.len() == done.1.len()
                &&& forall|i: int|
                    0 <= i < done.1.len() ==> is_failure_diagnostic(
                        #[trigger] r.diagnostics@[i]@,
                        changes[done.1[i].0],
                        plugin_key,
                        done.1[i].1,
                    )
                &&& reads_back_with_section(r.new_text@, plugin_key, done.0) || r.new_text@ == json_text(
                    with_property(value, plugin_key, done.0),
                )
            },
        }
    }
}

/// Whether the text reads back with the planned section.
fn section_reads_back(text: &str, plugin_key: &str, planned: &JsonTree) -> (r: bool)
    ensures
        r ==> reads_back_with_section(text@, plugin_key@, planned@),
{
    match parse_jsonc(text) {
        Ok(value) => {
            assert(parsed_jsonc(text@) == Ok::<Option<JsonView>, Seq<char>>(opt_json(value)));
            match take_section(value, plugin_key) {
                Some(back) => json_eq(&back, planned),
                None => false,
            }
        },
        Err(_) => false,
    }
}

/// The change's value as the JSON it is written as; null for a removal.
fn change_json(kind: &ConfigChangeKind) -> (r: JsonTree)
    ensures
        r@ == kind_value(*kind),
{
    match kind {
        ConfigChangeKind::Add(v) => json_of_value(v),
        ConfigChangeKind::SetTo(v) => json_of_value(v),
        ConfigChangeKind::Remove => JsonTree::Null,
    }
}

/// Applies a plugin's changes, in order, to its section of the
/// configuration text: each change is planned on the section as the changes
/// before it left it, and carried out on the file's syntax tree, which keeps
/// the rest of the text as it is written; each change that cannot be applied
/// gives a diagnostic. The edited text is read back; when its plugin section
/// is not the one planned, the planned value is written out instead (see
/// [`reports_edits`]). A text that does not parse stays as it is, with one
/// diagnostic that says so; when the plugin has no section, changes give
/// nothing back.
pub fn apply_config_changes(file_text: &str, plugin_key: &str, changes: &Vec<ConfigChange>) -> (r: ApplyConfigChangesResult)
    ensures
        match cst_parse_failure(file_text@) {
            Some(m) => r.new_text@ == file_text@ && r.diagnostics.deep_view() == seq![
                "Failed applying change since config file failed to parse: "@ + m,
            ],
            None => match parsed_jsonc(file_text@) {
                Err(m) => r.new_text@ == file_text@ && r.diagnostics.deep_view() == seq![
                    "Failed applying change since config file failed to parse: "@ + m,
                ],
                Ok(value) => reports_edits(r, file_text@, value, changes@, plugin_key@),
            },
        },
{
    let root = match parse_cst(file_text) {
        Ok(root) => root,
        Err(message) => {
            let mut diagnostics: Vec<String> = Vec::new();
            diagnostics.push(parse_failure_diagnostic(message.as_str()));
            assert(diagnostics.deep_view() =~= seq![
                "Failed applying change since config file failed to parse: "@ + message@,
            ]);
            return ApplyConfigChangesResult { new_text: copy_str(file_text), diagnostics };
        },
    };
    let value = match parse_jsonc(file_text) {
        Ok(v) => v,
        Err(message) => {
            let mut diagnostics: Vec<String> = Vec::new();
            diagnostics.push(parse_failure_diagnostic(message.as_str()));
            assert(diagnostics.deep_view() =~= seq![
                "Failed applying change since config file failed to parse: "@ + message@,
            ]);
            return ApplyConfigChangesResult { new_text: copy_str(file_text), diagnostics };
        },
    };
    assert(parsed_jsonc(file_text@) == Ok::<Option<JsonView>, Seq<char>>(opt_json(value)));
    if changes.len() == 0 {
        return ApplyConfigChangesResult { new_text: copy_str(file_text), diagnostics: Vec::new() };
    }
    let whole = copy_opt_json(&value);
    let mut model = match take_section(value, plugin_key) {
        Some(m) => m,
        None => return ApplyConfigChangesResult { new_text: String::new(), diagnostics: Vec::new() },
    };
    let root_obj = root_object(&root);
    let plugin_obj = object_property_object(&root_obj, plugin_key);
    let mut agreed = plugin_obj.is_some();
    let ghost section = model@;
    let mut diagnostics: Vec<String> = Vec::new();
    let mut i: usize = 0;
    assert(changes@.take(0) =~= Seq::<ConfigChange>::empty());
    while i < changes.len()
        invariant
            i <= changes@.len(),
            ({
                let done = replay(section, changes@.take(i as int));
                &&& model@ == done.0
                &&& diagnostics@.len() == done.1.len()
                &&& forall|k: int|
                    0 <= k < done.1.len() ==> is_failure_diagnostic(
                        #[trigger] diagnostics@[k]@,
                        changes@[done.1[k].0],
                        plugin_key@,
                        done.1[k].1,
                    )
            }),
        decreases changes@.len() - i,
    {
        let change = &changes[i];
        let ghost prefix = changes@.take(i + 1);
        proof {
            assert(prefix.drop_last() =~= changes@.take(i as int));
            assert(prefix.last() == *change);
        }
        let ghost done = replay(section, changes@.take(i as int));
        let ghost old_diagnostics = diagnostics@;
        match plan_change(&model, change) {
            Ok(plan) => {
                if agreed {
                    if let Some(obj) = &plugin_obj {
                        if !perform(obj, &plan, &change.kind) {
                            agreed = false;
                        }
                    }
                }
                let v = change_json(&change.kind);
                proof {
                    assert(steps_view(plan.steps@).subrange(0, plan.steps@.len() as int) =~= steps_view(plan.steps@));
                }
                model = edit_tree(model, &plan.steps, 0, &plan.action, v);
            },
            Err(err) => {
                let node_text = match (&err, &plugin_obj) {
                    (ChangeError::UnsupportedAdd { steps, .. }, Some(obj)) => match node_at(obj, steps) {
                        Some(n) => node_quoted_text(&n),
                        None => String::new(),
                    },
                    _ => String::new(),
                };
                let message = err.message(node_text.as_str());
                let d = change_diagnostic(change, plugin_key, message.as_str());
                diagnostics.push(d);
                proof {
                    let after = replay(section, prefix);
                    assert(after.1 == done.1.push((i as int, err@)));
                    assert(is_failure_diagnostic(d@, changes@[i as int], plugin_key@, err@)) by {
                        assert(changes@[i as int] == *change);
                        assert(d@ == failure_lead(kind_tag(change.kind)) + path_text(plugin_key@, change.path@)
                            + "': "@ + error_message(err@, node_text@));
                    }
                    assert forall|k: int| 0 <= k < after.1.len() implies is_failure_diagnostic(
                        #[trigger] diagnostics@[k]@,
                        changes@[after.1[k].0],
                        plugin_key@,
                        after.1[k].1,
                    ) by {
                        if k < done.1.len() {
                            assert(diagnostics@[k] == old_diagnostics[k]);
                        }
                    }
                }
            },
        }
        i = i + 1;
    }
    assert(changes@.take(changes@.len() as int) =~= changes@);
    let tree_text = root_text(&root);
    let new_text = if agreed && section_reads_back(tree_text.as_str(), plugin_key, &model) {
        tree_text
    } else {
        let planned = put_property(whole, plugin_key, copy_json(&model));
        print_json(&planned)
    };
    ApplyConfigChangesResult { new_text, diagnostics }
}

/// The configuration's JSON value with the url added: the root object (an
/// empty one when the value is not an object) with its `plugins` array (an
/// empty one when it has none or that property holds something else) ending
/// with the url, in the property's place, or as a new last property.
pub open spec fn with_plugin_url(value: Option<JsonView>, url: Seq<char>) -> JsonView {
    let props = match value {
        Some(JsonView::Object(p)) => p,
        _ => Seq::empty(),
    };
    let items = match key_index(props, "plugins"@) {
        Some(j) => match props[j].1 {
            JsonView::Array(a) => a,
            _ => Seq::empty(),
        },
        None => Seq::empty(),
    };
    JsonView::Object(map_insert(props, "plugins"@, JsonView::Array(items.push(JsonView::String(url)))))
}

/// The value the configuration is planned to have once the url is added
/// (see [`with_plugin_url`]).
fn plan_plugin_url(value: Option<JsonTree>, url: &str) -> (r: JsonTree)
    ensures
        r@ == with_plugin_url(opt_json(value), url@),
{
    let mut props: Vec<(String, JsonTree)> = match value {
        Some(JsonTree::Object(p)) => p,
        _ => Vec::new(),
    };
    let ghost before = props@;
    let found = find_key(&props, "plugins");
    proof {
        lemma_object_keys(props@, "plugins"@);
        lemma_key_index(json_object_view(props@), "plugins"@);
        assert(json_object_view(before) =~= match opt_json(value) {
            Some(JsonView::Object(p)) => p,
            _ => Seq::empty(),
        });
    }
    match found {
        Some(j) => {
            assert(json_object_view(before)[j as int].1 == before[j as int].1@);
            let (name, v) = props.remove(j);
            let mut items: Vec<JsonTree> = match v {
                JsonTree::Array(a) => a,
                _ => Vec::new(),
            };
            let ghost old_items = json_array_view(items@);
            assert(old_items =~= match json_object_view(before)[j as int].1 {
                JsonView::Array(a) => a,
                _ => Seq::<JsonView>::empty(),
            });
            items.push(JsonTree::String(copy_str(url)));
            assert(json_array_view(items@) =~= old_items.push(JsonView::String(url@)));
            props.insert(j, (name, JsonTree::Array(items)));
            assert(props@ =~= before.update(j as int, props@[j as int]));
            assert(json_object_view(props@) =~= json_object_view(before).update(
                j as int,
                ("plugins"@, JsonView::Array(old_items.push(JsonView::String(url@)))),
            ));
        },
        None => {
            let mut items: Vec<JsonTree> = Vec::new();
            items.push(JsonTree::String(copy_str(url)));
            assert(json_array_view(items@) =~= Seq::<JsonView>::empty().push(JsonView::String(url@)));
            props.push((copy_str("plugins"), JsonTree::Array(items)));
            assert(json_object_view(props@) =~= json_object_view(before).push(
                ("plugins"@, JsonView::Array(Seq::<JsonView>::empty().push(JsonView::String(url@)))),
            ));
        },
    }
    JsonTree::Object(props)
}

/// Adds a plugin's url to the end of the configuration's `plugins` array in
/// the file's syntax tree, creating the root object and the array when they
/// are missing and putting the array's elements on lines of their own, and
/// prints the tree back; the rest of the text stays as it is written. The
/// new text reads back as the old value with the url added (see
/// [`with_plugin_url`]); when the tree does not (as when the root object
/// repeats the `plugins` key), that value is written out instead (see
/// [`json_text`]). A text that does not parse is refused with the parser's
/// message.
pub fn add_to_plugins_array(file_text: &str, url: &str) -> (r: Result<String, ConfigEditError>)
    ensures
        match cst_parse_failure(file_text@) {
            Some(m) => r matches Err(e) && e.message@ == m,
            None => match parsed_jsonc(file_text@) {
                Err(m) => r matches Err(e) && e.message@ == m,
                Ok(value) => r matches Ok(t) && (parsed_jsonc(t@) == Ok::<Option<JsonView>, Seq<char>>(
                    Some(with_plugin_url(value, url@)),
                ) || t@ == json_text(with_plugin_url(value, url@))),
            },
        },
{
    let root = match parse_cst(file_text) {
        Ok(root) => root,
        Err(message) => return Err(ConfigEditError { message }),
    };
    let value = match parse_jsonc(file_text) {
        Ok(v) => v,
        Err(message) => return Err(ConfigEditError { message }),
    };
    assert(parsed_jsonc(file_text@) == Ok::<Option<JsonView>, Seq<char>>(opt_json(value)));
    let planned = plan_plugin_url(value, url);
    let root_obj = root_object(&root);
    let plugins = array_value_or_set(&root_obj, "plugins");
    ensure_multiline(&plugins);
    append_string(&plugins, url);
    let new_text = root_text(&root);
    let agrees = match parse_jsonc(new_text.as_str()) {
        Ok(Some(back)) => json_eq(&back, &planned),
        _ => false,
    };
    if agrees {
        Ok(new_text)
    } else {
        Ok(print_json(&planned))
    }
}

/// Whether a `plugins` element is a string that names the old npm package,
/// version and file with the old checksum (see [`spec_npm_entry_matches`]).
pub open spec fn is_old_npm_entry(e: JsonView, old: NpmView, old_checksum: Option<Seq<char>>) -> bool {
    e matches JsonView::String(s) && spec_npm_entry_matches(s, old, old_checksum)
}

/// The `plugins` elements with each entry of the old npm reference replaced
/// by the new url, and the others as they are.
pub open spec fn npm_entries_replaced(
    items: Seq<JsonView>,
    old: NpmView,
    old_checksum: Option<Seq<char>>,
    new_url: Seq<char>,
) -> Seq<JsonView> {
    items.map_values(
        |e: JsonView|
            if is_old_npm_entry(e, old, old_checksum) {
                JsonView::String(new_url)
            } else {
                e
            },
    )
}

/// The `plugins` array of a configuration text, read as JSON; none when the
/// text does not parse or has no such array.
pub open spec fn parsed_plugins(text: Seq<char>) -> Option<Seq<JsonView>> {
    match parsed_jsonc(text) {
        Ok(v) => array_property(v, "plugins"@),
        Err(_) => None,
    }
}

/// The checksum as a plain value.
pub open spec fn opt_text(c: Option<&str>) -> Option<Seq<char>> {
    match c {
        Some(c) => Some(c@),
        None => None,
    }
}

/// Rewrites an npm plugin's entries in the configuration's `plugins` array:
/// each string element that names the old package, version and file with
/// the old checksum (see [`npm_entry_matches`]) becomes the new url, through
/// the file's syntax tree, so that the rest of the text and any other
/// mention of the old reference stay as they are. A text that does not
/// parse, has no root object with a `plugins` array, or no matching entry
/// is given back unchanged. The edited text is read back: when its
/// `plugins` array is not the one planned (the syntax tree and the file's
/// JSON value read the file differently, as with a repeated `plugins` key),
/// the planned value is written out instead (see [`json_text`]).
pub fn replace_npm_plugin_in_config(
    file_text: &str,
    old: &NpmSpecifier,
    old_checksum: Option<&str>,
    new_url: &str,
) -> (r: String)
    ensures
        match parsed_jsonc(file_text@) {
            Ok(value) => match array_property(value, "plugins"@) {
                Some(items) if exists|k: int|
                    0 <= k < items.len() && is_old_npm_entry(#[trigger] items[k], old@, opt_text(old_checksum)) => {
                    let replaced = npm_entries_replaced(items, old@, opt_text(old_checksum), new_url@);
                    ||| parsed_plugins(r@) == Some(replaced)
                    ||| r@ == json_text(with_property(value, "plugins"@, JsonView::Array(replaced)))
                },
                _ => r@ == file_text@,
            },
            Err(_) => r@ == file_text@,
        },
{
    let value = match parse_jsonc(file_text) {
        Ok(v) => v,
        Err(_) => return copy_str(file_text),
    };
    assert(parsed_jsonc(file_text@) == Ok::<Option<JsonView>, Seq<char>>(opt_json(value)));
    let whole = copy_opt_json(&value);
    let items = match take_array_property(value, "plugins") {
        Some(items) => items,
        None => return copy_str(file_text),
    };
    let ghost old_items = json_array_view(items@);
    let ghost ck = opt_text(old_checksum);
    let mut matched: Vec<usize> = Vec::new();
    let mut planned: Vec<JsonTree> = Vec::new();
    let mut i: usize = 0;
    while i < items.len()
        invariant
            i <= items@.len(),
            old_items == json_array_view(items@),
            ck == opt_text(old_checksum),
            json_array_view(planned@) == npm_entries_replaced(old_items, old@, ck, new_url@).take(i as int),
            matched@.len() == 0 <==> forall|k: int| 0 <= k < i ==> !is_old_npm_entry(#[trigger] old_items[k], old@, ck),
        decreases items@.len() - i,
    {
        assert(old_items[i as int] == items@[i as int]@);
        let is_match = match &items[i] {
            JsonTree::String(entry) => npm_entry_matches(entry.as_str(), old, old_checksum),
            _ => false,
        };
        let ghost before = json_array_view(planned@);
        if is_match {
            matched.push(i);
            planned.push(JsonTree::String(copy_str(new_url)));
        } else {
            planned.push(copy_json(&items[i]));
        }
        assert(json_array_view(planned@) =~= before.push(json_array_view(planned@).last()));
        assert(npm_entries_replaced(old_items, old@, ck, new_url@).take(i + 1) =~= npm_entries_replaced(
            old_items,
            old@,
            ck,
            new_url@,
        ).take(i as int).push(npm_entries_replaced(old_items, old@, ck, new_url@)[i as int]));
        i = i + 1;
    }
    assert(npm_entries_replaced(old_items, old@, ck, new_url@).take(i as int) =~= npm_entries_replaced(
        old_items,
        old@,
        ck,
        new_url@,
    ));
    if matched.len() == 0 {
        return copy_str(file_text);
    }
    let planned_array = JsonTree::Array(planned);
    let edited = match parse_cst(file_text) {
        Ok(root) => match root_object_value(&root) {
            Some(obj) => match object_array_value(&obj, "plugins") {
                Some(plugins) => {
                    let elements = array_elements(&plugins);
                    let mut k: usize = 0;
                    while k < matched.len()
                        invariant
                            k <= matched@.len(),
                        decreases matched@.len() - k,
                    {
                        if matched[k] < elements.len() {
                            replace_string_literal(&elements[matched[k]], new_url);
                        }
                        k = k + 1;
                    }
                    Some(root_text(&root))
                },
                None => None,
            },
            None => None,
        },
        Err(_) => None,
    };
    if let Some(new_text) = edited {
        let agrees = match parse_jsonc(new_text.as_str()) {
            Ok(back) => {
                assert(parsed_jsonc(new_text@) == Ok::<Option<JsonView>, Seq<char>>(opt_json(back)));
                match take_array_property(back, "plugins") {
                    Some(back_items) => json_eq(&JsonTree::Array(back_items), &planned_array),
                    None => false,
                }
            },
            Err(_) => false,
        };
        if agrees {
            return new_text;
        }
    }
    print_json(&put_property(whole, "plugins", planned_array))
}

} // verus!
