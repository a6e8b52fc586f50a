//! Changes a plugin asks for in its own section of the configuration file:
//! where each change lands, what is done there, and what its author is told
//! when the file does not have the shape the change expects.
use vstd::prelude::*;
use crate::configuration::{ConfigKeyValue, key_index, key_view, find_key, lemma_key_index, lemma_key_index_same_keys};
use crate::deserialize::{JsonTree, JsonView, json_object_view, json_array_view};
use crate::text::{copy_str, concat2, concat3, chars_of, string_of, decimal, decimal_text};

verus! {

/// One step of the path to the value a change is about: a property of an
/// object by name, or an element of an array by position.
#[derive(Debug)]
pub enum ConfigChangePathItem {
    String(String),
    Number(usize),
}

/// What a change does at the end of its path.
#[derive(Debug)]
pub enum ConfigChangeKind {
    Add(ConfigKeyValue),
    SetTo(ConfigKeyValue),
    Remove,
}

/// A change to a plugin's section of the configuration file.
#[derive(Debug)]
pub struct ConfigChange {
    pub path: Vec<ConfigChangePathItem>,
    pub kind: ConfigChangeKind,
}

/// The kind of a change without its value.
#[derive(Debug, Clone, Copy, PartialEq, Eq, Structural)]
pub enum ChangeKindTag {
    Add,
    SetTo,
    Remove,
}

pub open spec fn kind_tag(k: ConfigChangeKind) -> ChangeKindTag {
    match k {
        ConfigChangeKind::Add(_) => ChangeKindTag::Add,
        ConfigChangeKind::SetTo(_) => ChangeKindTag::SetTo,
        ConfigChangeKind::Remove => ChangeKindTag::Remove,
    }
}

impl ConfigChange {
    /// The kind of this change.
    pub fn kind_tag(&self) -> (r: ChangeKindTag)
        ensures
            r == kind_tag(self.kind),
    {
        match &self.kind {
            ConfigChangeKind::Add(_) => ChangeKindTag::Add,
            ConfigChangeKind::SetTo(_) => ChangeKindTag::SetTo,
            ConfigChangeKind::Remove => ChangeKindTag::Remove,
        }
    }
}

/// A step from a node of the configuration's syntax tree to one of its
/// values: the first property with the name, or the element at the position.
#[derive(Debug)]
pub enum ChangeStep {
    Property(String),
    Element(usize),
}

pub enum StepView {
    Property(Seq<char>),
    Element(usize),
}

impl View for ChangeStep {
    type V = StepView;

    open spec fn view(&self) -> StepView {
        match self {
            ChangeStep::Property(k) => StepView::Property(k@),
            ChangeStep::Element(i) => StepView::Element(*i),
        }
    }
}

/// What is done to the node the steps lead to.
#[derive(Debug)]
pub enum EditAction {
    /// Append the value to the array held by the object's first property of
    /// this name.
    AppendToArrayProperty(String),
    /// Append a property of this name with the value to the object.
    AppendProperty(String),
    /// Insert the value into the array at this position (or at its end when
    /// the array is shorter).
    InsertElement(usize),
    /// Replace the node with the value.
    Replace,
    /// Remove the object's first property of this name.
    RemoveProperty(String),
    /// Remove the array's element at this position.
    RemoveElement(usize),
}

pub enum ActionView {
    AppendToArrayProperty(Seq<char>),
    AppendProperty(Seq<char>),
    InsertElement(usize),
    Replace,
    RemoveProperty(Seq<char>),
    RemoveElement(usize),
}

impl View for EditAction {
    type V = ActionView;

    open spec fn view(&self) -> ActionView {
        match self {
            EditAction::AppendToArrayProperty(k) => ActionView::AppendToArrayProperty(k@),
            EditAction::AppendProperty(k) => ActionView::AppendProperty(k@),
            EditAction::InsertElement(i) => ActionView::InsertElement(*i),
            EditAction::Replace => ActionView::Replace,
            EditAction::RemoveProperty(k) => ActionView::RemoveProperty(k@),
            EditAction::RemoveElement(i) => ActionView::RemoveElement(*i),
        }
    }
}

/// Where a change lands, starting at the plugin's object, and what is done
/// there.
#[derive(Debug)]
pub struct EditPlan {
    pub steps: Vec<ChangeStep>,
    pub action: EditAction,
}

pub struct PlanView {
    pub steps: Seq<StepView>,
    pub action: ActionView,
}

pub open spec fn steps_view(steps: Seq<ChangeStep>) -> Seq<StepView> {
    steps.map_values(|s: ChangeStep| s@)
}

impl View for EditPlan {
    type V = PlanView;

    open spec fn view(&self) -> PlanView {
        PlanView { steps: steps_view(self.steps@), action: self.action@ }
    }
}

/// Why a change could not be applied.
#[derive(Debug)]
pub enum ChangeError {
    ExpectedProperty(String),
    ExpectedObjectForProperty(String),
    ExpectedArray,
    IndexOutOfRange(usize),
    /// An addition by name into a node that is not an object; the steps lead
    /// to that node.
    UnsupportedAdd { steps: Vec<ChangeStep>, key: String },
    NothingFound(ChangeKindTag),
}

pub enum ErrorView {
    ExpectedProperty(Seq<char>),
    ExpectedObjectForProperty(Seq<char>),
    ExpectedArray,
    IndexOutOfRange(usize),
    UnsupportedAdd(Seq<StepView>, Seq<char>),
    NothingFound(ChangeKindTag),
}

impl View for ChangeError {
    type V = ErrorView;

    open spec fn view(&self) -> ErrorView {
        match self {
            ChangeError::ExpectedProperty(k) => ErrorView::ExpectedProperty(k@),
            ChangeError::ExpectedObjectForProperty(k) => ErrorView::ExpectedObjectForProperty(k@),
            ChangeError::ExpectedArray => ErrorView::ExpectedArray,
            ChangeError::IndexOutOfRange(i) => ErrorView::IndexOutOfRange(*i),
            ChangeError::UnsupportedAdd { steps, key } => ErrorView::UnsupportedAdd(steps_view(steps@), key@),
            ChangeError::NothingFound(k) => ErrorView::NothingFound(*k),
        }
    }
}

pub open spec fn plan_result_view(r: Result<EditPlan, ChangeError>) -> Result<PlanView, ErrorView> {
    match r {
        Ok(p) => Ok(p@),
        Err(e) => Err(e@),
    }
}

/// Where a change of `kind` with `path` lands when the node reached so far
/// is `node`, the steps taken are `steps` and the next path item is the
/// `i`th: an addition by name at the end of the path goes into the object
/// (onto the array its first property of that name holds, else as a new
/// property), an addition by position inserts into the array; a replacement
/// or removal needs the property or element to be there; on the way, each
/// name must be a property of an object and each position an element of an
/// array.
pub open spec fn spec_plan(
    kind: ChangeKindTag,
    node: JsonView,
    path: Seq<ConfigChangePathItem>,
    i: int,
    steps: Seq<StepView>,
) -> Result<PlanView, ErrorView>
    decreases path.len() - i,
{
    if i < 0 || i >= path.len() {
        Err(ErrorView::NothingFound(kind))
    } else {
        let last = i == path.len() - 1;
        match path[i] {
            ConfigChangePathItem::String(key) => {
                let k = key@;
                if kind == ChangeKindTag::Add && last {
                    match node {
                        JsonView::Object(props) => if (key_index(props, k) matches Some(j) && props[j].1 is Array) {
                            Ok(PlanView { steps, action: ActionView::AppendToArrayProperty(k) })
                        } else {
                            Ok(PlanView { steps, action: ActionView::AppendProperty(k) })
                        },
                        _ => Err(ErrorView::UnsupportedAdd(steps, k)),
                    }
                } else {
                    match node {
                        JsonView::Object(props) => match key_index(props, k) {
                            Some(j) => if !last {
                                spec_plan(kind, props[j].1, path, i + 1, steps.push(StepView::Property(k)))
                            } else if kind == ChangeKindTag::SetTo {
                                Ok(PlanView { steps: steps.push(StepView::Property(k)), action: ActionView::Replace })
                            } else {
                                Ok(PlanView { steps, action: ActionView::RemoveProperty(k) })
                            },
                            None => Err(ErrorView::ExpectedProperty(k)),
                        },
                        _ => if kind == ChangeKindTag::Remove {
                            Err(ErrorView::ExpectedObjectForProperty(k))
                        } else {
                            Err(ErrorView::ExpectedProperty(k))
                        },
                    }
                }
            },
            ConfigChangePathItem::Number(idx) => match node {
                JsonView::Array(items) => if kind == ChangeKindTag::Add && last {
                    Ok(PlanView { steps, action: ActionView::InsertElement(idx) })
                } else if idx >= items.len() {
                    Err(ErrorView::IndexOutOfRange(idx))
                } else if !last {
                    spec_plan(kind, items[idx as int], path, i + 1, steps.push(StepView::Element(idx)))
                } else if kind == ChangeKindTag::SetTo {
                    Ok(PlanView { steps: steps.push(StepView::Element(idx)), action: ActionView::Replace })
                } else {
                    Ok(PlanView { steps, action: ActionView::RemoveElement(idx) })
                },
                _ => Err(ErrorView::ExpectedArray),
            },
        }
    }
}

pub(crate) proof fn lemma_object_keys(props: Seq<(String, JsonTree)>, key: Seq<char>)
    ensures
        key_index(json_object_view(props), key) == key_index(key_view(props), key),
{
    let a = json_object_view(props);
    let b = key_view(props);
    assert forall|i: int| 0 <= i < a.len() implies #[trigger] a[i].0 == b[i].0 by {
        assert(a[i].0 == props[i].0@);
    }
    lemma_key_index_same_keys(a, b, key);
}

/// Where `change` lands in the plugin's object `plugin_obj` and what is done
/// there, or why it cannot be applied (see [`spec_plan`]).
pub fn plan_change(plugin_obj: &JsonTree, change: &ConfigChange) -> (r: Result<EditPlan, ChangeError>)
    ensures
        plan_result_view(r) == spec_plan(kind_tag(change.kind), plugin_obj@, change.path@, 0, Seq::empty()),
{
    let kind = change.kind_tag();
    let path = &change.path;
    let n = path.len();
    let mut node: &JsonTree = plugin_obj;
    let mut steps: Vec<ChangeStep> = Vec::new();
    let mut i: usize = 0;
    assert(steps_view(steps@) =~= Seq::<StepView>::empty());
    while i < n
        invariant
            n == path@.len(),
            i <= n,
            kind == kind_tag(change.kind),
            path@ == change.path@,
            spec_plan(kind, plugin_obj@, path@, 0, Seq::empty()) == spec_plan(kind, node@, path@, i as int, steps_view(steps@)),
        decreases n - i,
    {
        let last = i + 1 == n;
        let ghost sv = steps_view(steps@);
        match &path[i] {
            ConfigChangePathItem::String(key) => {
                match node {
                    JsonTree::Object(props) => {
                        let found = find_key(props, key.as_str());
                        proof {
                            lemma_object_keys(props@, key@);
                            lemma_key_index(json_object_view(props@), key@);
                            if let Some(j) = found {
                                assert(json_object_view(props@)[j as int].1 == props@[j as int].1@);
                            }
                        }
                        if kind == ChangeKindTag::Add && last {
                            let holds_array = match found {
                                Some(j) => match &props[j].1 {
                                    JsonTree::Array(_) => true,
                                    _ => false,
                                },
                                None => false,
                            };
                            let action = if holds_array {
                                EditAction::AppendToArrayProperty(copy_str(key.as_str()))
                            } else {
                                EditAction::AppendProperty(copy_str(key.as_str()))
                            };
                            return Ok(EditPlan { steps, action });
                        }
                        match found {
                            Some(j) => {
                                if last {
                                    if kind == ChangeKindTag::SetTo {
                                        steps.push(ChangeStep::Property(copy_str(key.as_str())));
                                        assert(steps_view(steps@) =~= sv.push(StepView::Property(key@)));
                                        return Ok(EditPlan { steps, action: EditAction::Replace });
                                    } else {
                                        return Ok(EditPlan { steps, action: EditAction::RemoveProperty(copy_str(key.as_str())) });
                                    }
                                }
                                steps.push(ChangeStep::Property(copy_str(key.as_str())));
                                assert(steps_view(steps@) =~= sv.push(StepView::Property(key@)));
                                node = &props[j].1;
                            },
                            None => {
                                return Err(ChangeError::ExpectedProperty(copy_str(key.as_str())));
                            },
                        }
                    },
                    _ => {
                        if kind == ChangeKindTag::Add && last {
                            return Err(ChangeError::UnsupportedAdd { steps, key: copy_str(key.as_str()) });
                        } else if kind == ChangeKindTag::Remove {
                            return Err(ChangeError::ExpectedObjectForProperty(copy_str(key.as_str())));
                        } else {
                            return Err(ChangeError::ExpectedProperty(copy_str(key.as_str())));
                        }
                    },
                }
            },
            ConfigChangePathItem::Number(idx) => {
                let idx = *idx;
                match node {
                    JsonTree::Array(items) => {
                        if kind == ChangeKindTag::Add && last {
                            return Ok(EditPlan { steps, action: EditAction::InsertElement(idx) });
                        }
                        if idx >= items.len() {
                            return Err(ChangeError::IndexOutOfRange(idx));
                        }
                        if last {
                            if kind == ChangeKindTag::SetTo {
                                steps.push(ChangeStep::Element(idx));
                                assert(steps_view(steps@) =~= sv.push(StepView::Element(idx)));
                                return Ok(EditPlan { steps, action: EditAction::Replace });
                            } else {
                                return Ok(EditPlan { steps, action: EditAction::RemoveElement(idx) });
                            }
                        }
                        steps.push(ChangeStep::Element(idx));
                        assert(steps_view(steps@) =~= sv.push(StepView::Element(idx)));
                        assert(json_array_view(items@)[idx as int] == items@[idx as int]@);
                        node = &items[idx];
                    },
                    _ => {
                        return Err(ChangeError::ExpectedArray);
                    },
                }
            },
        }
        i = i + 1;
    }
    Err(ChangeError::NothingFound(kind))
}

fn append_str(out: &mut Vec<char>, s: &str)
    ensures
        final(out)@ == old(out)@ + s@,
{
    let cs = chars_of(s);
    let ghost before = out@;
    let mut i: usize = 0;
    while i < cs.len()
        invariant
            i <= cs@.len(),
            cs@ == s@,
            out@ == before + cs@.take(i as int),
        decreases cs@.len() - i,
    {
        out.push(cs[i]);
        assert(cs@.take(i + 1) =~= cs@.take(i as int).push(cs@[i as int]));
        i = i + 1;
    }
    assert(cs@.take(i as int) =~= cs@);
}

/// How one path item is written after the plugin's key: `.name` or `[n]`.
pub open spec fn item_text(p: ConfigChangePathItem) -> Seq<char> {
    match p {
        ConfigChangePathItem::String(k) => seq!['.'] + k@,
        ConfigChangePathItem::Number(n) => seq!['['] + decimal(n as nat) + seq![']'],
    }
}

/// How a change's path is written: the plugin's key, then each item.
pub open spec fn path_text(key: Seq<char>, path: Seq<ConfigChangePathItem>) -> Seq<char>
    decreases path.len(),
{
    if path.len() == 0 {
        key
    } else {
        path_text(key, path.drop_last()) + item_text(path.last())
    }
}

/// Writes a change's path (see [`path_text`]).
pub fn display_path(plugin_key: &str, path: &Vec<ConfigChangePathItem>) -> (r: String)
    ensures
        r@ == path_text(plugin_key@, path@),
{
    let mut out: Vec<char> = Vec::new();
    append_str(&mut out, plugin_key);
    assert(out@ =~= plugin_key@);
    let mut i: usize = 0;
    while i < path.len()
        invariant
            i <= path@.len(),
            out@ == path_text(plugin_key@, path@.take(i as int)),
        decreases path@.len() - i,
    {
        let ghost before = out@;
        match &path[i] {
            ConfigChangePathItem::String(key) => {
                out.push('.');
                append_str(&mut out, key.as_str());
                assert(out@ =~= before + item_text(path@[i as int]));
            },
            ConfigChangePathItem::Number(n) => {
                out.push('[');
                let digits = decimal_text(*n);
                append_str(&mut out, digits.as_str());
                out.push(']');
                assert(out@ =~= before + item_text(path@[i as int]));
            },
        }
        assert(path@.take(i + 1).drop_last() =~= path@.take(i as int));
        i = i + 1;
    }
    assert(path@.take(i as int) =~= path@);
    string_of(out.as_slice())
}

/// What a change's author is told when it could not be applied;
/// `node_text` is the quoted text of the node an unsupported addition was
/// aimed at.
pub open spec fn error_message(e: ErrorView, node_text: Seq<char>) -> Seq<char> {
    match e {
        ErrorView::ExpectedProperty(k) => "Expected property '"@ + k + "'."@,
        ErrorView::ExpectedObjectForProperty(k) => "Expected object for property '"@ + k + "'."@,
        ErrorView::ExpectedArray => "Expected array."@,
        ErrorView::IndexOutOfRange(i) => "Expected array index '"@ + decimal(i as nat)
            + "' to be less than the length of the array."@,
        ErrorView::UnsupportedAdd(_, k) => "Unsupported. Could not add into "@ + node_text + " with string key '"@ + k
            + "'"@,
        ErrorView::NothingFound(ChangeKindTag::Add) => "Failed to discover item to add to."@,
        ErrorView::NothingFound(ChangeKindTag::SetTo) => "Failed to discover item to set."@,
        ErrorView::NothingFound(ChangeKindTag::Remove) => "Failed to discover item to remove."@,
    }
}

impl ChangeError {
    /// The message for this error (see [`error_message`]).
    pub fn message(&self, node_text: &str) -> (r: String)
        ensures
            r@ == error_message(self@, node_text@),
    {
        match self {
            ChangeError::ExpectedProperty(k) => concat3("Expected property '", k.as_str(), "'."),
            ChangeError::ExpectedObjectForProperty(k) => concat3("Expected object for property '", k.as_str(), "'."),
            ChangeError::ExpectedArray => copy_str("Expected array."),
            ChangeError::IndexOutOfRange(i) => {
                let digits = decimal_text(*i);
                concat3("Expected array index '", digits.as_str(), "' to be less than the length of the array.")
            },
            ChangeError::UnsupportedAdd { key, .. } => {
                let head = concat3("Unsupported. Could not add into ", node_text, " with string key '");
                concat3(head.as_str(), key.as_str(), "'")
            },
            ChangeError::NothingFound(ChangeKindTag::Add) => copy_str("Failed to discover item to add to."),
            ChangeError::NothingFound(ChangeKindTag::SetTo) => copy_str("Failed to discover item to set."),
            ChangeError::NothingFound(ChangeKindTag::Remove) => copy_str("Failed to discover item to remove."),
        }
    }
}

/// The start of the diagnostic for a change of `kind` that failed.
pub open spec fn failure_lead(kind: ChangeKindTag) -> Seq<char> {
    match kind {
        ChangeKindTag::Add => "Failed adding item at path '"@,
        ChangeKindTag::SetTo => "Failed setting item at path '"@,
        ChangeKindTag::Remove => "Failed removing item at path '"@,
    }
}

/// The diagnostic for `change` to the plugin `plugin_key` that failed with
/// `message`: what was tried, where, and why not.
pub fn change_diagnostic(change: &ConfigChange, plugin_key: &str, message: &str) -> (r: String)
    ensures
        r@ == failure_lead(kind_tag(change.kind)) + path_text(plugin_key@, change.path@) + "': "@ + message@,
{
    let lead = match change.kind_tag() {
        ChangeKindTag::Add => copy_str("Failed adding item at path '"),
        ChangeKindTag::SetTo => copy_str("Failed setting item at path '"),
        ChangeKindTag::Remove => copy_str("Failed removing item at path '"),
    };
    let path = display_path(plugin_key, &change.path);
    let head = concat3(lead.as_str(), path.as_str(), "': ");
    concat2(head.as_str(), message)
}

/// The diagnostic when the configuration file does not parse, with the
/// parser's error.
pub fn parse_failure_diagnostic(error: &str) -> (r: String)
    ensures
        r@ == "Failed applying change since config file failed to parse: "@ + error@,
{
    concat2("Failed applying change since config file failed to parse: ", error)
}

/// The node that `steps` lead to from `node`, if each step is there.
pub open spec fn follow(node: JsonView, steps: Seq<StepView>) -> Option<JsonView>
    decreases steps.len(),
{
    if steps.len() == 0 {
        Some(node)
    } else {
        match (follow(node, steps.drop_last()), steps.last()) {
            (Some(JsonView::Object(props)), StepView::Property(k)) => match key_index(props, k) {
                Some(j) => Some(props[j].1),
                None => None,
            },
            (Some(JsonView::Array(items)), StepView::Element(i)) => if i < items.len() {
                Some(items[i as int])
            } else {
                None
            },
            _ => None,
        }
    }
}

/// Whether `action` can be done to `target`: additions of properties go into
/// an object, insertions into an array, and what is removed is there.
pub open spec fn action_fits(target: JsonView, action: ActionView) -> bool {
    match action {
        ActionView::AppendToArrayProperty(k) => target matches JsonView::Object(props) && (key_index(props, k) matches Some(
            j,
        ) && props[j].1 is Array),
        ActionView::AppendProperty(_) => target is Object,
        ActionView::InsertElement(_) => target is Array,
        ActionView::Replace => true,
        ActionView::RemoveProperty(k) => target matches JsonView::Object(props) && key_index(props, k) is Some,
        ActionView::RemoveElement(i) => target matches JsonView::Array(items) && i < items.len(),
    }
}

proof fn lemma_plan_lands(
    kind: ChangeKindTag,
    root: JsonView,
    node: JsonView,
    path: Seq<ConfigChangePathItem>,
    i: int,
    steps: Seq<StepView>,
)
    requires
        0 <= i,
        follow(root, steps) == Some(node),
    ensures
        match spec_plan(kind, node, path, i, steps) {
            Ok(p) => follow(root, p.steps) matches Some(t) && action_fits(t, p.action),
            Err(ErrorView::UnsupportedAdd(s, _)) => follow(root, s) is Some,
            Err(_) => true,
        },
    decreases path.len() - i,
{
    if i < path.len() {
        let last = i == path.len() - 1;
        match path[i] {
            ConfigChangePathItem::String(key) => {
                let k = key@;
                let next = steps.push(StepView::Property(k));
                assert(next.drop_last() =~= steps);
                if let JsonView::Object(props) = node {
                    if let Some(j) = key_index(props, k) {
                        if !last && !(kind == ChangeKindTag::Add && last) {
                            lemma_plan_lands(kind, root, props[j].1, path, i + 1, next);
                        }
                    }
                }
            },
            ConfigChangePathItem::Number(idx) => {
                let next = steps.push(StepView::Element(idx));
                assert(next.drop_last() =~= steps);
                if let JsonView::Array(items) = node {
                    if idx < items.len() && !last {
                        lemma_plan_lands(kind, root, items[idx as int], path, i + 1, next);
                    }
                }
            },
        }
    }
}

/// A change that can be applied is applied to what is there: its steps lead
/// from the plugin's object to an existing node and its action fits that
/// node; an unsupported addition names a node that is there too.
pub proof fn law_plan_lands(kind: ChangeKindTag, plugin_obj: JsonView, path: Seq<ConfigChangePathItem>)
    ensures
        match spec_plan(kind, plugin_obj, path, 0, Seq::empty()) {
            Ok(p) => follow(plugin_obj, p.steps) matches Some(t) && action_fits(t, p.action),
            Err(ErrorView::UnsupportedAdd(s, _)) => follow(plugin_obj, s) is Some,
            Err(_) => true,
        },
{
    lemma_plan_lands(kind, plugin_obj, plugin_obj, path, 0, Seq::empty());
}

} // verus!
