//! What a plugin's changes do to its configuration section, read as JSON:
//! the value each configuration value is written as, an edit plan carried
//! out on a JSON value, and equality of JSON values.
use vstd::prelude::*;
use crate::changes::{
    ActionView, ChangeStep, ConfigChange, ConfigChangeKind, EditAction, ErrorView, StepView, follow, kind_tag,
    lemma_object_keys, spec_plan, steps_view,
};
use crate::configuration::{ConfigKeyValue, find_key, key_index, lemma_key_index, lemma_key_index_same_keys};
use crate::deserialize::{JsonTree, JsonView, json_array_view, json_object_view, map_insert};
use crate::text::{chars_of, concat2, copy_str, decimal, decimal_text_u64, str_eq, string_of};

verus! {

/// An integer as `i32`'s `Display` writes it.
pub open spec fn int_text(n: int) -> Seq<char> {
    if n < 0 {
        seq!['-'] + decimal((-n) as nat)
    } else {
        decimal(n as nat)
    }
}

/// Writes an `i32` (see [`int_text`]).
pub fn i32_text(n: i32) -> (r: String)
    ensures
        r@ == int_text(n as int),
{
    if n < 0 {
        let m: u64 = (0i64 - n as i64) as u64;
        let digits = decimal_text_u64(m);
        proof {
            reveal_strlit("-");
        }
        concat2("-", digits.as_str())
    } else {
        decimal_text_u64(n as u64)
    }
}

/// The JSON value a configuration value is written as: each kind of value
/// the same kind, a number its decimal text.
pub open spec fn value_json(v: &ConfigKeyValue) -> JsonView
    decreases v,
{
    match v {
        ConfigKeyValue::String(s) => JsonView::String(s@),
        ConfigKeyValue::Number(n) => JsonView::Number(int_text(*n as int)),
        ConfigKeyValue::Bool(b) => JsonView::Boolean(*b),
        ConfigKeyValue::Array(a) => JsonView::Array(values_json(a@)),
        ConfigKeyValue::Object(o) => JsonView::Object(entries_json(o@)),
        ConfigKeyValue::Null => JsonView::Null,
    }
}

/// The JSON values of an array's elements.
pub open spec fn values_json(a: Seq<ConfigKeyValue>) -> Seq<JsonView>
    decreases a,
{
    Seq::new(a.len(), |i: int| if 0 <= i < a.len() { value_json(&a[i]) } else { JsonView::Null })
}

/// The JSON entries of an object's entries.
pub open spec fn entries_json(o: Seq<(String, ConfigKeyValue)>) -> Seq<(Seq<char>, JsonView)>
    decreases o,
{
    Seq::new(
        o.len(),
        |i: int| if 0 <= i < o.len() { (o[i].0@, value_json(&o[i].1)) } else { (Seq::empty(), JsonView::Null) },
    )
}

/// The JSON value a configuration value is written as (see [`value_json`]).
#[verifier::loop_isolation(false)]
pub fn json_of_value(v: &ConfigKeyValue) -> (r: JsonTree)
    ensures
        r@ == value_json(v),
    decreases v,
{
    match v {
        ConfigKeyValue::String(s) => JsonTree::String(copy_str(s.as_str())),
        ConfigKeyValue::Number(n) => JsonTree::Number(i32_text(*n)),
        ConfigKeyValue::Bool(b) => JsonTree::Boolean(*b),
        ConfigKeyValue::Array(items) => {
            let mut out: Vec<JsonTree> = Vec::new();
            let mut i: usize = 0;
            while i < items.len()
                invariant
                    i <= items@.len(),
                    json_array_view(out@) == values_json(items@).take(i as int),
                decreases items@.len() - i,
            {
                assert(decreases_to!(v => items@[i as int]));
                let x = json_of_value(&items[i]);
                let ghost before = json_array_view(out@);
                out.push(x);
                assert(json_array_view(out@) =~= before.push(x@));
                assert(values_json(items@).take(i + 1) =~= values_json(items@).take(i as int).push(
                    value_json(&items@[i as int]),
                ));
                i = i + 1;
            }
            assert(values_json(items@).take(i as int) =~= values_json(items@));
            JsonTree::Array(out)
        },
        ConfigKeyValue::Object(entries) => {
            let mut out: Vec<(String, JsonTree)> = Vec::new();
            let mut i: usize = 0;
            while i < entries.len()
                invariant
                    i <= entries@.len(),
                    json_object_view(out@) == entries_json(entries@).take(i as int),
                decreases entries@.len() - i,
            {
                assert(decreases_to!(v => entries@[i as int].1));
                let x = json_of_value(&entries[i].1);
                let ghost before = json_object_view(out@);
                out.push((copy_str(entries[i].0.as_str()), x));
                assert(json_object_view(out@) =~= before.push((entries@[i as int].0@, x@)));
                assert(entries_json(entries@).take(i + 1) =~= entries_json(entries@).take(i as int).push(
                    (entries@[i as int].0@, value_json(&entries@[i as int].1)),
                ));
                i = i + 1;
            }
            assert(entries_json(entries@).take(i as int) =~= entries_json(entries@));
            JsonTree::Object(out)
        },
        ConfigKeyValue::Null => JsonTree::Null,
    }
}


/// What `action` does to the node it lands on, `value` being what it adds
/// or sets: appended to the array of the object's first property of that
/// name; set as the object's property of that name (in place when the
/// object has one, else at its end); inserted into the array at the
/// position, or at its end when the array is shorter; put in the node's
/// place; or the object's first property of that name, or the array's
/// element at the position, removed. Where the node is not what the action
/// needs, it stays as it is.
pub open spec fn act(node: JsonView, action: ActionView, value: JsonView) -> JsonView {
    match action {
        ActionView::AppendToArrayProperty(k) => match node {
            JsonView::Object(props) => match key_index(props, k) {
                Some(j) => match props[j].1 {
                    JsonView::Array(items) => JsonView::Object(props.update(j, (props[j].0, JsonView::Array(items.push(value))))),
                    _ => node,
                },
                None => node,
            },
            _ => node,
        },
        ActionView::AppendProperty(k) => match node {
            JsonView::Object(props) => JsonView::Object(map_insert(props, k, value)),
            _ => node,
        },
        ActionView::InsertElement(i) => match node {
            JsonView::Array(items) => JsonView::Array(
                items.insert(if i < items.len() { i as int } else { items.len() as int }, value),
            ),
            _ => node,
        },
        ActionView::Replace => value,
        ActionView::RemoveProperty(k) => match node {
            JsonView::Object(props) => match key_index(props, k) {
                Some(j) => JsonView::Object(props.remove(j)),
                None => node,
            },
            _ => node,
        },
        ActionView::RemoveElement(i) => match node {
            JsonView::Array(items) => if i < items.len() {
                JsonView::Array(items.remove(i as int))
            } else {
                node
            },
            _ => node,
        },
    }
}

/// `node` with `action` done where `steps` lead: each step goes to the
/// object's first property of that name or to the array's element at that
/// position; where a step is not there, the node stays as it is.
pub open spec fn edit_at(node: JsonView, steps: Seq<StepView>, action: ActionView, value: JsonView) -> JsonView
    decreases steps.len(),
{
    if steps.len() == 0 {
        act(node, action, value)
    } else {
        match (node, steps[0]) {
            (JsonView::Object(props), StepView::Property(k)) => match key_index(props, k) {
                Some(j) => JsonView::Object(
                    props.update(j, (props[j].0, edit_at(props[j].1, steps.drop_first(), action, value))),
                ),
                None => node,
            },
            (JsonView::Array(items), StepView::Element(i)) => if i < items.len() {
                JsonView::Array(items.update(i as int, edit_at(items[i as int], steps.drop_first(), action, value)))
            } else {
                node
            },
            _ => node,
        }
    }
}

fn act_tree(node: JsonTree, action: &EditAction, value: JsonTree) -> (r: JsonTree)
    ensures
        r@ == act(node@, action@, value@),
{
    match action {
        EditAction::AppendToArrayProperty(k) => match node {
            JsonTree::Object(mut props) => {
                let found = find_key(&props, k.as_str());
                proof {
                    lemma_object_keys(props@, k@);
                    lemma_key_index(json_object_view(props@), k@);
                }
                let ghost before = props@;
                match found {
                    Some(j) => {
                        let (name, child) = props.remove(j);
                        match child {
                            JsonTree::Array(mut items) => {
                                let ghost old_items = items@;
                                items.push(value);
                                assert(json_array_view(items@) =~= json_array_view(old_items).push(value@));
                                props.insert(j, (name, JsonTree::Array(items)));
                            },
                            other => {
                                props.insert(j, (name, other));
                                assert(props@ =~= before);
                            },
                        }
                        assert(json_object_view(before)[j as int].1 == before[j as int].1@);
                        assert(props@ =~= before.update(j as int, props@[j as int]));
                        assert(json_object_view(props@) =~= json_object_view(before).update(
                            j as int,
                            (props@[j as int].0@, props@[j as int].1@),
                        ));
                        JsonTree::Object(props)
                    },
                    None => JsonTree::Object(props),
                }
            },
            other => other,
        },
        EditAction::AppendProperty(k) => match node {
            JsonTree::Object(mut props) => {
                let found = find_key(&props, k.as_str());
                proof {
                    lemma_object_keys(props@, k@);
                    lemma_key_index(json_object_view(props@), k@);
                }
                let ghost before = props@;
                match found {
                    Some(j) => {
                        let (name, _) = props.remove(j);
                        props.insert(j, (name, value));
                        assert(props@ =~= before.update(j as int, props@[j as int]));
                        assert(json_object_view(props@) =~= json_object_view(before).update(j as int, (k@, value@)));
                    },
                    None => {
                        props.push((copy_str(k.as_str()), value));
                        assert(json_object_view(props@) =~= json_object_view(before).push((k@, value@)));
                    },
                }
                JsonTree::Object(props)
            },
            other => other,
        },
        EditAction::InsertElement(i) => match node {
            JsonTree::Array(mut items) => {
                let ghost before = items@;
                let at = if *i < items.len() {
                    *i
                } else {
                    items.len()
                };
                items.insert(at, value);
                assert(json_array_view(items@) =~= json_array_view(before).insert(at as int, value@));
                JsonTree::Array(items)
            },
            other => other,
        },
        EditAction::Replace => value,
        EditAction::RemoveProperty(k) => match node {
            JsonTree::Object(mut props) => {
                let found = find_key(&props, k.as_str());
                proof {
                    lemma_object_keys(props@, k@);
                    lemma_key_index(json_object_view(props@), k@);
                }
                let ghost before = props@;
                if let Some(j) = found {
                    props.remove(j);
                    assert(json_object_view(props@) =~= json_object_view(before).remove(j as int));
                }
                JsonTree::Object(props)
            },
            other => other,
        },
        EditAction::RemoveElement(i) => match node {
            JsonTree::Array(mut items) => {
                let ghost before = items@;
                if *i < items.len() {
                    items.remove(*i);
                    assert(json_array_view(items@) =~= json_array_view(before).remove(*i as int));
                }
                JsonTree::Array(items)
            },
            other => other,
        },
    }
}

/// `node` with the plan's action done where its steps, from the
/// `from`th on, lead (see [`edit_at`]).
pub fn edit_tree(node: JsonTree, steps: &Vec<ChangeStep>, from: usize, action: &EditAction, value: JsonTree) -> (r:
    JsonTree)
    requires
        from <= steps@.len(),
    ensures
        r@ == edit_at(node@, steps_view(steps@).subrange(from as int, steps@.len() as int), action@, value@),
    decreases steps@.len() - from,
{
    let ghost rest = steps_view(steps@).subrange(from as int, steps@.len() as int);
    if from == steps.len() {
        assert(rest.len() == 0);
        return act_tree(node, action, value);
    }
    proof {
        assert(rest[0] == steps@[from as int]@);
        assert(rest.drop_first() =~= steps_view(steps@).subrange(from + 1, steps@.len() as int));
    }
    match node {
        JsonTree::Object(mut props) => match &steps[from] {
            ChangeStep::Property(k) => {
                let found = find_key(&props, k.as_str());
                proof {
                    lemma_object_keys(props@, k@);
                    lemma_key_index(json_object_view(props@), k@);
                }
                let ghost before = props@;
                match found {
                    Some(j) => {
                        let (name, child) = props.remove(j);
                        let edited = edit_tree(child, steps, from + 1, action, value);
                        props.insert(j, (name, edited));
                        assert(props@ =~= before.update(j as int, props@[j as int]));
                        assert(json_object_view(props@) =~= json_object_view(before).update(
                            j as int,
                            (before[j as int].0@, edited@),
                        ));
                        JsonTree::Object(props)
                    },
                    None => JsonTree::Object(props),
                }
            },
            _ => JsonTree::Object(props),
        },
        JsonTree::Array(mut items) => match &steps[from] {
            ChangeStep::Element(i) => {
                let i = *i;
                if i < items.len() {
                    let ghost before = items@;
                    assert(json_array_view(before)[i as int] == before[i as int]@);
                    let child = items.remove(i);
                    let edited = edit_tree(child, steps, from + 1, action, value);
                    items.insert(i, edited);
                    assert(items@ =~= before.update(i as int, edited));
                    assert(json_array_view(items@) =~= json_array_view(before).update(i as int, edited@));
                    JsonTree::Array(items)
                } else {
                    JsonTree::Array(items)
                }
            },
            _ => JsonTree::Array(items),
        },
        other => other,
    }
}

/// Whether two JSON values are the same value.
#[verifier::loop_isolation(false)]
pub fn json_eq(a: &JsonTree, b: &JsonTree) -> (r: bool)
    ensures
        r == (a@ == b@),
    decreases a,
{
    match (a, b) {
        (JsonTree::Null, JsonTree::Null) => true,
        (JsonTree::Boolean(x), JsonTree::Boolean(y)) => *x == *y,
        (JsonTree::Number(x), JsonTree::Number(y)) => str_eq(x.as_str(), y.as_str()),
        (JsonTree::String(x), JsonTree::String(y)) => str_eq(x.as_str(), y.as_str()),
        (JsonTree::Array(xs), JsonTree::Array(ys)) => {
            if xs.len() != ys.len() {
                assert(json_array_view(xs@).len() != json_array_view(ys@).len());
                return false;
            }
            let mut i: usize = 0;
            while i < xs.len()
                invariant
                    i <= xs@.len(),
                    xs@.len() == ys@.len(),
                    forall|k: int| 0 <= k < i ==> #[trigger] json_array_view(xs@)[k] == json_array_view(ys@)[k],
                decreases xs@.len() - i,
            {
                assert(decreases_to!(a => xs@[i as int]));
                if !json_eq(&xs[i], &ys[i]) {
                    assert(json_array_view(xs@)[i as int] != json_array_view(ys@)[i as int]);
                    return false;
                }
                assert(json_array_view(xs@)[i as int] == json_array_view(ys@)[i as int]);
                i = i + 1;
            }
            assert(json_array_view(xs@) =~= json_array_view(ys@));
            true
        },
        (JsonTree::Object(xs), JsonTree::Object(ys)) => {
            if xs.len() != ys.len() {
                assert(json_object_view(xs@).len() != json_object_view(ys@).len());
                return false;
            }
            let mut i: usize = 0;
            while i < xs.len()
                invariant
                    i <= xs@.len(),
                    xs@.len() == ys@.len(),
                    forall|k: int| 0 <= k < i ==> #[trigger] json_object_view(xs@)[k] == json_object_view(ys@)[k],
                decreases xs@.len() - i,
            {
                assert(json_object_view(xs@)[i as int] == (xs@[i as int].0@, xs@[i as int].1@));
                assert(json_object_view(ys@)[i as int] == (ys@[i as int].0@, ys@[i as int].1@));
                if !str_eq(xs[i].0.as_str(), ys[i].0.as_str()) {
                    return false;
                }
                assert(decreases_to!(a => xs@[i as int].1));
                if !json_eq(&xs[i].1, &ys[i].1) {
                    return false;
                }
                i = i + 1;
            }
            assert(json_object_view(xs@) =~= json_object_view(ys@));
            true
        },
        _ => false,
    }
}

/// The plugin's section of a configuration value: the object held by the
/// root object's first property named `key`, when there is one and it holds
/// an object.
pub open spec fn section_object(value: Option<JsonView>, key: Seq<char>) -> Option<JsonView> {
    match value {
        Some(JsonView::Object(props)) => match key_index(props, key) {
            Some(j) => if props[j].1 is Object {
                Some(props[j].1)
            } else {
                None
            },
            None => None,
        },
        _ => None,
    }
}

/// The view of a value that may be missing.
pub open spec fn opt_json(value: Option<JsonTree>) -> Option<JsonView> {
    match value {
        Some(v) => Some(v@),
        None => None,
    }
}

/// The plugin's section, taken out of the configuration's value (see
/// [`section_object`]).
pub fn take_section(value: Option<JsonTree>, key: &str) -> (r: Option<JsonTree>)
    ensures
        match section_object(opt_json(value), key@) {
            Some(s) => r matches Some(t) && t@ == s,
            None => r is None,
        },
{
    match value {
        Some(JsonTree::Object(mut props)) => {
            let found = find_key(&props, key);
            proof {
                lemma_object_keys(props@, key@);
                lemma_key_index(json_object_view(props@), key@);
            }
            match found {
                Some(j) => {
                    assert(json_object_view(props@)[j as int].1 == props@[j as int].1@);
                    let (_, v) = props.remove(j);
                    match v {
                        JsonTree::Object(o) => Some(JsonTree::Object(o)),
                        _ => None,
                    }
                },
                None => None,
            }
        },
        _ => None,
    }
}

/// The JSON value a change adds or sets; null for a removal.
pub open spec fn change_value(c: ConfigChange) -> JsonView {
    kind_value(c.kind)
}

/// The JSON value that a change of this kind adds or sets; null for a
/// removal.
pub open spec fn kind_value(kind: ConfigChangeKind) -> JsonView {
    match kind {
        ConfigChangeKind::Add(v) => value_json(&v),
        ConfigChangeKind::SetTo(v) => value_json(&v),
        ConfigChangeKind::Remove => JsonView::Null,
    }
}

/// The plugin's section after `changes`, each planned (see
/// [`spec_plan`]) on the section as the changes before it left it and
/// carried out (see [`edit_at`]) when it can be; and, in order, the
/// positions of the changes that cannot be, with why not.
pub open spec fn replay(section: JsonView, changes: Seq<ConfigChange>) -> (JsonView, Seq<(int, ErrorView)>)
    decreases changes.len(),
{
    if changes.len() == 0 {
        (section, Seq::empty())
    } else {
        let before = replay(section, changes.drop_last());
        let c = changes.last();
        match spec_plan(kind_tag(c.kind), before.0, c.path@, 0, Seq::empty()) {
            Ok(p) => (edit_at(before.0, p.steps, p.action, change_value(c)), before.1),
            Err(e) => (before.0, before.1.push((changes.len() - 1, e))),
        }
    }
}

/// The array held by the root object's first property named `key`, when
/// the value is an object with such a property that holds an array.
pub open spec fn array_property(value: Option<JsonView>, key: Seq<char>) -> Option<Seq<JsonView>> {
    match value {
        Some(JsonView::Object(props)) => match key_index(props, key) {
            Some(j) => match props[j].1 {
                JsonView::Array(items) => Some(items),
                _ => None,
            },
            None => None,
        },
        _ => None,
    }
}

/// The array of the root object's property named `key`, taken out of the
/// value (see [`array_property`]).
pub fn take_array_property(value: Option<JsonTree>, key: &str) -> (r: Option<Vec<JsonTree>>)
    ensures
        match array_property(opt_json(value), key@) {
            Some(items) => r matches Some(v) && json_array_view(v@) == items,
            None => r is None,
        },
{
    match value {
        Some(JsonTree::Object(mut props)) => {
            let found = find_key(&props, key);
            proof {
                lemma_object_keys(props@, key@);
                lemma_key_index(json_object_view(props@), key@);
            }
            match found {
                Some(j) => {
                    assert(json_object_view(props@)[j as int].1 == props@[j as int].1@);
                    let (_, v) = props.remove(j);
                    match v {
                        JsonTree::Array(items) => Some(items),
                        _ => None,
                    }
                },
                None => None,
            }
        },
        _ => None,
    }
}

/// A copy of a JSON value.
#[verifier::loop_isolation(false)]
pub fn copy_json(v: &JsonTree) -> (r: JsonTree)
    ensures
        r@ == v@,
    decreases v,
{
    match v {
        JsonTree::Null => JsonTree::Null,
        JsonTree::Boolean(b) => JsonTree::Boolean(*b),
        JsonTree::Number(t) => JsonTree::Number(copy_str(t.as_str())),
        JsonTree::String(t) => JsonTree::String(copy_str(t.as_str())),
        JsonTree::Array(items) => {
            let mut out: Vec<JsonTree> = Vec::new();
            let mut i: usize = 0;
            while i < items.len()
                invariant
                    i <= items@.len(),
                    json_array_view(out@) == json_array_view(items@).take(i as int),
                decreases items@.len() - i,
            {
                assert(decreases_to!(v => items@[i as int]));
                let x = copy_json(&items[i]);
                let ghost before = json_array_view(out@);
                out.push(x);
                assert(json_array_view(out@) =~= before.push(x@));
                assert(json_array_view(items@).take(i + 1) =~= json_array_view(items@).take(i as int).push(
                    items@[i as int]@,
                ));
                i = i + 1;
            }
            assert(json_array_view(items@).take(i as int) =~= json_array_view(items@));
            JsonTree::Array(out)
        },
        JsonTree::Object(entries) => {
            let mut out: Vec<(String, JsonTree)> = Vec::new();
            let mut i: usize = 0;
            while i < entries.len()
                invariant
                    i <= entries@.len(),
                    json_object_view(out@) == json_object_view(entries@).take(i as int),
                decreases entries@.len() - i,
            {
                assert(decreases_to!(v => entries@[i as int].1));
                let x = copy_json(&entries[i].1);
                let ghost before = json_object_view(out@);
                out.push((copy_str(entries[i].0.as_str()), x));
                assert(json_object_view(out@) =~= before.push((entries@[i as int].0@, x@)));
                assert(json_object_view(entries@).take(i + 1) =~= json_object_view(entries@).take(i as int).push(
                    (entries@[i as int].0@, entries@[i as int].1@),
                ));
                i = i + 1;
            }
            assert(json_object_view(entries@).take(i as int) =~= json_object_view(entries@));
            JsonTree::Object(out)
        },
    }
}

/// The node one step leads to from `node`, if it is there.
pub open spec fn step_into(node: JsonView, step: StepView) -> Option<JsonView> {
    match (node, step) {
        (JsonView::Object(props), StepView::Property(k)) => match key_index(props, k) {
            Some(j) => Some(props[j].1),
            None => None,
        },
        (JsonView::Array(items), StepView::Element(i)) => if i < items.len() {
            Some(items[i as int])
        } else {
            None
        },
        _ => None,
    }
}

/// Following steps is taking the first one, then following the rest.
proof fn lemma_follow_first(node: JsonView, steps: Seq<StepView>)
    requires
        steps.len() > 0,
    ensures
        follow(node, steps) == match step_into(node, steps[0]) {
            Some(c) => follow(c, steps.drop_first()),
            None => None,
        },
    decreases steps.len(),
{
    let last = steps.last();
    assert(follow(node, steps) == match follow(node, steps.drop_last()) {
        Some(n) => step_into(n, last),
        None => None,
    });
    if steps.len() == 1 {
        assert(steps.drop_last() =~= Seq::<StepView>::empty());
        assert(steps.drop_first() =~= Seq::<StepView>::empty());
    } else {
        lemma_follow_first(node, steps.drop_last());
        assert(steps.drop_last()[0] == steps[0]);
        assert(steps.drop_last().drop_first() =~= steps.drop_first().drop_last());
        assert(steps.drop_first().last() == last);
        if let Some(c) = step_into(node, steps[0]) {
            assert(follow(c, steps.drop_first()) == match follow(c, steps.drop_first().drop_last()) {
                Some(n) => step_into(n, last),
                None => None,
            });
        }
    }
}

/// What a replacement writes is read back: where the steps lead to a node,
/// the edited value holds the new value there.
pub proof fn law_replace_then_follow(node: JsonView, steps: Seq<StepView>, value: JsonView)
    requires
        follow(node, steps) is Some,
    ensures
        follow(edit_at(node, steps, ActionView::Replace, value), steps) == Some(value),
    decreases steps.len(),
{
    if steps.len() > 0 {
        lemma_follow_first(node, steps);
        let edited = edit_at(node, steps, ActionView::Replace, value);
        lemma_follow_first(edited, steps);
        let rest = steps.drop_first();
        match (node, steps[0]) {
            (JsonView::Object(props), StepView::Property(k)) => {
                let j = key_index(props, k)->0;
                lemma_key_index(props, k);
                law_replace_then_follow(props[j].1, rest, value);
                let updated = props.update(j, (props[j].0, edit_at(props[j].1, rest, ActionView::Replace, value)));
                lemma_key_index_same_keys(updated, props, k);
            },
            (JsonView::Array(items), StepView::Element(i)) => {
                law_replace_then_follow(items[i as int], rest, value);
            },
            _ => {},
        }
    }
}

/// A hexadecimal digit (below 16), lower case.
pub open spec fn hex_digit(d: nat) -> char {
    if d < 10 {
        ((d + 48) as u8) as char
    } else {
        ((d + 87) as u8) as char
    }
}

/// A character as it is written inside a JSON string: quotes, backslashes
/// and control characters escaped.
pub open spec fn escaped_char(c: char) -> Seq<char> {
    if c == '"' {
        seq!['\\', '"']
    } else if c == '\\' {
        seq!['\\', '\\']
    } else if c == '\n' {
        seq!['\\', 'n']
    } else if c == '\r' {
        seq!['\\', 'r']
    } else if c == '\t' {
        seq!['\\', 't']
    } else if (c as u32) < 32 {
        seq!['\\', 'u', '0', '0', hex_digit((c as u32 / 16) as nat), hex_digit((c as u32 % 16) as nat)]
    } else {
        seq![c]
    }
}

/// A text as it is written inside a JSON string.
pub open spec fn escaped(s: Seq<char>) -> Seq<char>
    decreases s.len(),
{
    if s.len() == 0 {
        Seq::empty()
    } else {
        escaped(s.drop_last()) + escaped_char(s.last())
    }
}

/// A JSON value written out compactly: no whitespace, strings quoted and
/// escaped, numbers as their text.
pub open spec fn json_text(v: JsonView) -> Seq<char>
    decreases v,
{
    match v {
        JsonView::Null => seq!['n', 'u', 'l', 'l'],
        JsonView::Boolean(b) => if b {
            seq!['t', 'r', 'u', 'e']
        } else {
            seq!['f', 'a', 'l', 's', 'e']
        },
        JsonView::Number(t) => t,
        JsonView::String(t) => seq!['"'] + escaped(t) + seq!['"'],
        JsonView::Array(items) => seq!['['] + items_text(items) + seq![']'],
        JsonView::Object(props) => seq!['{'] + entries_text(props) + seq!['}'],
    }
}

/// An array's elements written out, separated by commas.
pub open spec fn items_text(items: Seq<JsonView>) -> Seq<char>
    decreases items,
{
    if items.len() == 0 {
        Seq::empty()
    } else if items.len() == 1 {
        json_text(items[0])
    } else {
        items_text(items.subrange(0, items.len() - 1)) + seq![','] + json_text(items[items.len() - 1])
    }
}

/// An object's entries written out, each name quoted before a colon and its
/// value, separated by commas.
pub open spec fn entries_text(props: Seq<(Seq<char>, JsonView)>) -> Seq<char>
    decreases props,
{
    if props.len() == 0 {
        Seq::empty()
    } else {
        let last = props[props.len() - 1];
        let entry = seq!['"'] + escaped(last.0) + seq!['"', ':'] + json_text(last.1);
        if props.len() == 1 {
            entry
        } else {
            entries_text(props.subrange(0, props.len() - 1)) + seq![','] + entry
        }
    }
}

fn push_hex_digit(d: u32, out: &mut Vec<char>)
    requires
        d < 16,
    ensures
        final(out)@ == old(out)@.push(hex_digit(d as nat)),
{
    let c = if d < 10 {
        ((d + 48) as u8) as char
    } else {
        ((d + 87) as u8) as char
    };
    out.push(c);
}

fn write_escaped_char(c: char, out: &mut Vec<char>)
    ensures
        final(out)@ == old(out)@ + escaped_char(c),
{
    let ghost start = out@;
    if c == '"' {
        out.push('\\');
        out.push('"');
    } else if c == '\\' {
        out.push('\\');
        out.push('\\');
    } else if c == '\n' {
        out.push('\\');
        out.push('n');
    } else if c == '\r' {
        out.push('\\');
        out.push('r');
    } else if c == '\t' {
        out.push('\\');
        out.push('t');
    } else if (c as u32) < 32 {
        let code = c as u32;
        out.push('\\');
        out.push('u');
        out.push('0');
        out.push('0');
        push_hex_digit(code / 16, out);
        push_hex_digit(code % 16, out);
    } else {
        out.push(c);
    }
    assert(out@ =~= start + escaped_char(c));
}

fn write_escaped(text: &str, out: &mut Vec<char>)
    ensures
        final(out)@ == old(out)@ + escaped(text@),
{
    let cs = chars_of(text);
    let ghost start = out@;
    let mut i: usize = 0;
    assert(cs@.take(0) =~= Seq::<char>::empty());
    while i < cs.len()
        invariant
            i <= cs@.len(),
            cs@ == text@,
            out@ == start + escaped(cs@.take(i as int)),
        decreases cs@.len() - i,
    {
        let ghost before = out@;
        write_escaped_char(cs[i], out);
        assert(cs@.take(i + 1).drop_last() =~= cs@.take(i as int));
        assert(cs@.take(i + 1).last() == cs@[i as int]);
        assert(out@ =~= start + escaped(cs@.take(i + 1)));
        i = i + 1;
    }
    assert(cs@.take(i as int) =~= cs@);
}

fn push_all(out: &mut Vec<char>, t: &str)
    ensures
        final(out)@ == old(out)@ + t@,
{
    let cs = chars_of(t);
    let ghost start = out@;
    let mut i: usize = 0;
    while i < cs.len()
        invariant
            i <= cs@.len(),
            cs@ == t@,
            out@ == start + cs@.take(i as int),
        decreases cs@.len() - i,
    {
        out.push(cs[i]);
        assert(cs@.take(i + 1) =~= cs@.take(i as int).push(cs@[i as int]));
        i = i + 1;
    }
    assert(cs@.take(i as int) =~= cs@);
}

/// Writes a JSON value out (see [`json_text`]).
#[verifier::loop_isolation(false)]
fn write_json(v: &JsonTree, out: &mut Vec<char>)
    ensures
        final(out)@ == old(out)@ + json_text(v@),
    decreases v,
{
    let ghost start = out@;
    match v {
        JsonTree::Null => {
            out.push('n');
            out.push('u');
            out.push('l');
            out.push('l');
            assert(out@ =~= start + json_text(v@));
        },
        JsonTree::Boolean(b) => {
            if *b {
                out.push('t');
                out.push('r');
                out.push('u');
                out.push('e');
            } else {
                out.push('f');
                out.push('a');
                out.push('l');
                out.push('s');
                out.push('e');
            }
            assert(out@ =~= start + json_text(v@));
        },
        JsonTree::Number(t) => {
            push_all(out, t.as_str());
        },
        JsonTree::String(t) => {
            out.push('"');
            write_escaped(t.as_str(), out);
            out.push('"');
            assert(out@ =~= start + json_text(v@));
        },
        JsonTree::Array(items) => {
            out.push('[');
            let ghost views = json_array_view(items@);
            let mut i: usize = 0;
            assert(views.take(0) =~= Seq::<JsonView>::empty());
            while i < items.len()
                invariant
                    i <= items@.len(),
                    views == json_array_view(items@),
                    out@ == start + seq!['['] + items_text(views.take(i as int)),
                decreases items@.len() - i,
            {
                let ghost before = out@;
                if i > 0 {
                    out.push(',');
                }
                assert(decreases_to!(v => items@[i as int]));
                write_json(&items[i], out);
                assert(views[i as int] == items@[i as int]@);
                let ghost next = views.take(i + 1);
                assert(next[next.len() - 1] == views[i as int]);
                if i > 0 {
                    assert(next.subrange(0, next.len() - 1) =~= views.take(i as int));
                    assert(out@ =~= start + seq!['['] + items_text(next));
                } else {
                    assert(out@ =~= start + seq!['['] + items_text(next));
                }
                i = i + 1;
            }
            assert(views.take(i as int) =~= views);
            out.push(']');
            assert(out@ =~= start + json_text(v@));
        },
        JsonTree::Object(entries) => {
            out.push('{');
            let ghost views = json_object_view(entries@);
            let mut i: usize = 0;
            assert(views.take(0) =~= Seq::<(Seq<char>, JsonView)>::empty());
            while i < entries.len()
                invariant
                    i <= entries@.len(),
                    views == json_object_view(entries@),
                    out@ == start + seq!['{'] + entries_text(views.take(i as int)),
                decreases entries@.len() - i,
            {
                let ghost before = out@;
                if i > 0 {
                    out.push(',');
                }
                let ghost mid = out@;
                out.push('"');
                write_escaped(entries[i].0.as_str(), out);
                out.push('"');
                out.push(':');
                assert(decreases_to!(v => entries@[i as int].1));
                write_json(&entries[i].1, out);
                assert(views[i as int] == (entries@[i as int].0@, entries@[i as int].1@));
                let ghost next = views.take(i + 1);
                assert(next[next.len() - 1] == views[i as int]);
                let ghost entry = seq!['"'] + escaped(entries@[i as int].0@) + seq!['"', ':'] + json_text(
                    entries@[i as int].1@,
                );
                assert(out@ =~= mid + entry);
                if i > 0 {
                    assert(next.subrange(0, next.len() - 1) =~= views.take(i as int));
                }
                assert(out@ =~= start + seq!['{'] + entries_text(next));
                i = i + 1;
            }
            assert(views.take(i as int) =~= views);
            out.push('}');
            assert(out@ =~= start + json_text(v@));
        },
    }
}

/// A JSON value written out compactly (see [`json_text`]).
pub fn print_json(v: &JsonTree) -> (r: String)
    ensures
        r@ == json_text(v@),
{
    let mut out: Vec<char> = Vec::new();
    write_json(v, &mut out);
    assert(Seq::<char>::empty() + json_text(v@) =~= json_text(v@));
    string_of(out.as_slice())
}

/// The value with the root object's first property named `key` holding
/// `new` in its place; a value that is not an object, or has no such
/// property, as it is (null for no value).
pub open spec fn with_property(value: Option<JsonView>, key: Seq<char>, new: JsonView) -> JsonView {
    match value {
        Some(JsonView::Object(props)) => match key_index(props, key) {
            Some(j) => JsonView::Object(props.update(j, (props[j].0, new))),
            None => JsonView::Object(props),
        },
        Some(v) => v,
        None => JsonView::Null,
    }
}

/// The value with the property set (see [`with_property`]).
pub fn put_property(value: Option<JsonTree>, key: &str, new: JsonTree) -> (r: JsonTree)
    ensures
        r@ == with_property(opt_json(value), key@, new@),
{
    match value {
        Some(JsonTree::Object(mut props)) => {
            let found = find_key(&props, key);
            proof {
                lemma_object_keys(props@, key@);
                lemma_key_index(json_object_view(props@), key@);
            }
            let ghost before = props@;
            if let Some(j) = found {
                let (name, _) = props.remove(j);
                props.insert(j, (name, new));
                assert(props@ =~= before.update(j as int, props@[j as int]));
                assert(json_object_view(props@) =~= json_object_view(before).update(
                    j as int,
                    (json_object_view(before)[j as int].0, new@),
                ));
            }
            JsonTree::Object(props)
        },
        Some(v) => v,
        None => JsonTree::Null,
    }
}

/// A copy of a value that may be missing.
pub fn copy_opt_json(value: &Option<JsonTree>) -> (r: Option<JsonTree>)
    ensures
        opt_json(r) == opt_json(*value),
{
    match value {
        Some(v) => Some(copy_json(v)),
        None => None,
    }
}

} // verus!
