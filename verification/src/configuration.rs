//! The values of a configuration file, the ordered maps that hold them, and
//! what the resolver takes out of them.
use vstd::prelude::*;
use crate::text::{copy_str, concat3, str_eq};
use crate::canonicalized_path_buf::CanonicalizedPathBuf;
use crate::permissions::{DenoPermissions, DenoPermissionValue, PermissionValue, lookup, copy_strings};

verus! {

/// A configuration value as plugins receive it.
#[derive(Debug)]
pub enum ConfigKeyValue {
    String(String),
    Number(i32),
    Bool(bool),
    Array(Vec<ConfigKeyValue>),
    Object(Vec<(String, ConfigKeyValue)>),
    Null,
}

/// The mathematical value of a [`ConfigKeyValue`].
pub enum ValueView {
    String(Seq<char>),
    Number(i32),
    Bool(bool),
    Array(Seq<ValueView>),
    Object(Seq<(Seq<char>, ValueView)>),
    Null,
}

/// The mathematical value of a configuration value.
pub open spec fn value_view(v: &ConfigKeyValue) -> ValueView
    decreases v,
{
    match v {
        ConfigKeyValue::String(s) => ValueView::String(s@),
        ConfigKeyValue::Number(n) => ValueView::Number(*n),
        ConfigKeyValue::Bool(b) => ValueView::Bool(*b),
        ConfigKeyValue::Array(a) => ValueView::Array(array_view(a@)),
        ConfigKeyValue::Object(o) => ValueView::Object(object_view(o@)),
        ConfigKeyValue::Null => ValueView::Null,
    }
}

/// The mathematical values of the elements of an array.
pub open spec fn array_view(a: Seq<ConfigKeyValue>) -> Seq<ValueView>
    decreases a,
{
    Seq::new(
        a.len(),
        |i: int|
            if 0 <= i < a.len() {
                value_view(&a[i])
            } else {
                ValueView::Null
            },
    )
}

/// The mathematical values of the entries of an object.
pub open spec fn object_view(o: Seq<(String, ConfigKeyValue)>) -> Seq<(Seq<char>, ValueView)>
    decreases o,
{
    Seq::new(
        o.len(),
        |i: int|
            if 0 <= i < o.len() {
                (o[i].0@, value_view(&o[i].1))
            } else {
                (Seq::empty(), ValueView::Null)
            },
    )
}

impl View for ConfigKeyValue {
    type V = ValueView;

    open spec fn view(&self) -> ValueView {
        value_view(self)
    }
}

/// The mathematical value of an ordered map of configuration values.
pub open spec fn key_map_view(m: Seq<(String, ConfigKeyValue)>) -> Seq<(Seq<char>, ValueView)> {
    m.map_values(|e: (String, ConfigKeyValue)| (e.0@, e.1@))
}

/// The position of the first entry with `key` at or after `from`, if any.
pub open spec fn key_index_from<V>(keys: Seq<(Seq<char>, V)>, key: Seq<char>, from: int) -> Option<int>
    decreases keys.len() - from,
{
    if from < 0 || from >= keys.len() {
        None
    } else if keys[from].0 == key {
        Some(from)
    } else {
        key_index_from(keys, key, from + 1)
    }
}

/// The position of the first entry with `key`, if any.
pub open spec fn key_index<V>(keys: Seq<(Seq<char>, V)>, key: Seq<char>) -> Option<int> {
    key_index_from(keys, key, 0)
}

pub proof fn lemma_key_index_from<V>(keys: Seq<(Seq<char>, V)>, key: Seq<char>, from: int)
    requires
        0 <= from,
    ensures
        match key_index_from(keys, key, from) {
            Some(i) => from <= i < keys.len() && keys[i].0 == key && forall|j: int| from <= j < i ==> keys[j].0 != key,
            None => forall|j: int| from <= j < keys.len() ==> keys[j].0 != key,
        },
    decreases keys.len() - from,
{
    if from < keys.len() && keys[from].0 != key {
        lemma_key_index_from(keys, key, from + 1);
    }
}

pub proof fn lemma_key_index<V>(keys: Seq<(Seq<char>, V)>, key: Seq<char>)
    ensures
        match key_index(keys, key) {
            Some(i) => 0 <= i < keys.len() && keys[i].0 == key && forall|j: int| 0 <= j < i ==> keys[j].0 != key,
            None => forall|j: int| 0 <= j < keys.len() ==> keys[j].0 != key,
        },
{
    lemma_key_index_from(keys, key, 0);
}

proof fn lemma_key_index_from_same_keys<A, B>(
    a: Seq<(Seq<char>, A)>,
    b: Seq<(Seq<char>, B)>,
    key: Seq<char>,
    from: int,
)
    requires
        a.len() == b.len(),
        forall|i: int| 0 <= i < a.len() ==> #[trigger] a[i].0 == b[i].0,
    ensures
        key_index_from(a, key, from) == key_index_from(b, key, from),
    decreases a.len() - from,
{
    if 0 <= from < a.len() {
        lemma_key_index_from_same_keys(a, b, key, from + 1);
    }
}

/// Two ordered maps with the same keys in the same order find a key at the
/// same position.
pub proof fn lemma_key_index_same_keys<A, B>(a: Seq<(Seq<char>, A)>, b: Seq<(Seq<char>, B)>, key: Seq<char>)
    requires
        a.len() == b.len(),
        forall|i: int| 0 <= i < a.len() ==> #[trigger] a[i].0 == b[i].0,
    ensures
        key_index(a, key) == key_index(b, key),
{
    lemma_key_index_from_same_keys(a, b, key, 0);
}

/// The keys of an ordered map, each with a value that is not looked at.
pub open spec fn key_view<V>(m: Seq<(String, V)>) -> Seq<(Seq<char>, ())> {
    m.map_values(|e: (String, V)| (e.0@, ()))
}

/// Removes the entry with `key` from an ordered map, keeping the order of the
/// others, and gives its value.
pub fn shift_remove<V>(map: &mut Vec<(String, V)>, key: &str) -> (r: Option<V>)
    ensures
        match key_index(key_view(old(map)@), key@) {
            Some(i) => r == Some(old(map)@[i].1) && final(map)@ == old(map)@.remove(i),
            None => r is None && final(map)@ == old(map)@,
        },
{
    let ghost kv = key_view(map@);
    let ghost original = map@;
    let mut i: usize = 0;
    while i < map.len()
        invariant
            map@ == original,
            original == old(map)@,
            kv == key_view(map@),
            i <= map@.len(),
            key_index(kv, key@) == key_index_from(kv, key@, i as int),
        decreases map@.len() - i,
    {
        assert(kv[i as int].0 == map@[i as int].0@);
        if str_eq(map[i].0.as_str(), key) {
            assert(key_index_from(kv, key@, i as int) == Some(i as int));
            assert(original == old(map)@);
            assert(key_index(key_view(old(map)@), key@) == Some(i as int));
            let entry = map.remove(i);
            return Some(entry.1);
        }
        i = i + 1;
    }
    None
}

/// The string values of an array, in order; other values are left out.
pub open spec fn strings_in(a: Seq<ValueView>) -> Seq<Seq<char>>
    decreases a.len(),
{
    if a.len() == 0 {
        Seq::empty()
    } else {
        match a.last() {
            ValueView::String(s) => strings_in(a.drop_last()).push(s),
            _ => strings_in(a.drop_last()),
        }
    }
}

/// The permission a configuration value grants: a boolean as it is, an
/// array as the list of its strings; nothing for any other value.
pub open spec fn permission_of(v: ValueView) -> Option<PermissionValue> {
    match v {
        ValueView::Bool(b) => Some(PermissionValue::Boolean(b)),
        ValueView::Array(a) => Some(PermissionValue::Scoped(strings_in(a))),
        _ => None,
    }
}

/// The permission granted for `key` by the object's entries: the last entry
/// with that key that grants one.
pub open spec fn permission_in(entries: Seq<(Seq<char>, ValueView)>, key: Seq<char>) -> Option<PermissionValue>
    decreases entries.len(),
{
    if entries.len() == 0 {
        None
    } else if entries.last().0 == key && permission_of(entries.last().1) is Some {
        permission_of(entries.last().1)
    } else {
        permission_in(entries.drop_last(), key)
    }
}

/// The strings of an array value.
fn collect_strings(arr: &Vec<ConfigKeyValue>) -> (r: Vec<String>)
    ensures
        r.deep_view() == strings_in(array_view(arr@)),
{
    let ghost all = array_view(arr@);
    let mut r: Vec<String> = Vec::new();
    let mut i: usize = 0;
    assert(all.take(0) =~= Seq::<ValueView>::empty());
    while i < arr.len()
        invariant
            i <= arr@.len(),
            all.len() == arr@.len(),
            forall|j: int| 0 <= j < arr@.len() ==> #[trigger] all[j] == value_view(&arr@[j]),
            r.deep_view() == strings_in(all.take(i as int)),
        decreases arr@.len() - i,
    {
        assert(all.take(i + 1).drop_last() =~= all.take(i as int));
        assert(all.take(i + 1).last() == value_view(&arr@[i as int]));
        match &arr[i] {
            ConfigKeyValue::String(s) => {
                let ghost before = r.deep_view();
                r.push(copy_str(s.as_str()));
                assert(r.deep_view() =~= before.push(s@));
            },
            _ => {},
        }
        i = i + 1;
    }
    assert(all.take(arr@.len() as int) =~= all);
    r
}

/// Takes the `permissions` entry out of a plugin's configuration so that it
/// isn't sent to the plugin, and reads it as deno permissions when it is an
/// object: a boolean entry grants or denies in full, an array entry grants
/// the strings it lists, and other entries are ignored.
pub fn extract_permissions_from_config(config: &mut Vec<(String, ConfigKeyValue)>) -> (r: Option<DenoPermissions>)
    ensures
        match key_index(key_view(old(config)@), "permissions"@) {
            Some(i) => final(config)@ == old(config)@.remove(i) && match old(config)@[i].1@ {
                ValueView::Object(entries) => r matches Some(p) && forall|k: Seq<char>|
                    #[trigger] lookup(p@, k) == permission_in(entries, k),
                _ => r is None,
            },
            None => r is None && final(config)@ == old(config)@,
        },
{
    let value = shift_remove(config, "permissions");
    match value {
        Some(ConfigKeyValue::Object(map)) => {
            let ghost ev = object_view(map@);
            let mut permissions = DenoPermissions::new();
            let mut i: usize = 0;
            while i < map.len()
                invariant
                    i <= map@.len(),
                    ev.len() == map@.len(),
                    forall|j: int| 0 <= j < map@.len() ==> #[trigger] ev[j] == (map@[j].0@, value_view(&map@[j].1)),
                    forall|k: Seq<char>| #[trigger] lookup(permissions@, k) == permission_in(ev.take(i as int), k),
                decreases map@.len() - i,
            {
                assert(ev.take(i + 1).drop_last() =~= ev.take(i as int));
                assert(ev.take(i + 1).last() == ev[i as int]);
                let (key, val) = &map[i];
                let ghost prev = ev.take(i as int);
                let ghost cur = ev.take(i + 1);
                assert(cur.last() == (key@, value_view(val)));
                match val {
                    ConfigKeyValue::Bool(b) => {
                        permissions.insert(copy_str(key.as_str()), DenoPermissionValue::Boolean(*b));
                        assert(permission_of(value_view(val)) == Some(PermissionValue::Boolean(*b)));
                        assert forall|k: Seq<char>| #[trigger] lookup(permissions@, k) == permission_in(cur, k) by {
                            if k != key@ {
                                assert(permission_in(cur, k) == permission_in(prev, k));
                            }
                        }
                    },
                    ConfigKeyValue::Array(arr) => {
                        let scopes = collect_strings(arr);
                        let ghost sv = scopes.deep_view();
                        permissions.insert(copy_str(key.as_str()), DenoPermissionValue::Scoped(scopes));
                        assert(permission_of(value_view(val)) == Some(PermissionValue::Scoped(sv)));
                        assert forall|k: Seq<char>| #[trigger] lookup(permissions@, k) == permission_in(cur, k) by {
                            if k != key@ {
                                assert(permission_in(cur, k) == permission_in(prev, k));
                            }
                        }
                    },
                    _ => {
                        assert(permission_of(value_view(val)) is None);
                        assert forall|k: Seq<char>| #[trigger] lookup(permissions@, k) == permission_in(cur, k) by {
                            assert(permission_in(cur, k) == permission_in(prev, k));
                        }
                    },
                }
                assert(ev[i as int] == (key@, value_view(val)));
                i = i + 1;
            }
            assert(ev.take(map@.len() as int) =~= ev);
            Some(permissions)
        },
        _ => None,
    }
}


/// Properties of a plugin that apply only to the files matching `files`.
#[derive(Debug)]
pub struct RawPluginConfigOverride {
    pub files: Vec<String>,
    pub properties: Vec<(String, ConfigKeyValue)>,
}

/// The mathematical value of a [`RawPluginConfigOverride`].
pub struct OverrideView {
    pub files: Seq<Seq<char>>,
    pub properties: Seq<(Seq<char>, ValueView)>,
}

impl View for RawPluginConfigOverride {
    type V = OverrideView;

    open spec fn view(&self) -> OverrideView {
        OverrideView { files: self.files.deep_view(), properties: object_view(self.properties@) }
    }
}

/// The mathematical values of a list of overrides.
pub open spec fn overrides_view(o: Seq<RawPluginConfigOverride>) -> Seq<OverrideView> {
    o.map_values(|x: RawPluginConfigOverride| x@)
}

/// Unresolved plugin configuration.
#[derive(Debug)]
pub struct RawPluginConfig {
    pub associations: Option<Vec<String>>,
    pub locked: bool,
    pub properties: Vec<(String, ConfigKeyValue)>,
    pub overrides: Vec<RawPluginConfigOverride>,
}

/// The mathematical value of a [`RawPluginConfig`].
pub struct PluginConfigView {
    pub associations: Option<Seq<Seq<char>>>,
    pub locked: bool,
    pub properties: Seq<(Seq<char>, ValueView)>,
    pub overrides: Seq<OverrideView>,
}

/// The mathematical value of a list of strings that may be missing.
pub open spec fn opt_strings_view(v: Option<Vec<String>>) -> Option<Seq<Seq<char>>> {
    match v {
        Some(v) => Some(v.deep_view()),
        None => None,
    }
}

impl View for RawPluginConfig {
    type V = PluginConfigView;

    open spec fn view(&self) -> PluginConfigView {
        PluginConfigView {
            associations: opt_strings_view(self.associations),
            locked: self.locked,
            properties: object_view(self.properties@),
            overrides: overrides_view(self.overrides@),
        }
    }
}

/// A value of the configuration file's root object.
#[derive(Debug)]
pub enum ConfigMapValue {
    KeyValue(ConfigKeyValue),
    PluginConfig(RawPluginConfig),
    Vec(Vec<String>),
}

/// The mathematical value of a [`ConfigMapValue`].
pub enum MapValueView {
    KeyValue(ValueView),
    PluginConfig(PluginConfigView),
    Vec(Seq<Seq<char>>),
}

impl View for ConfigMapValue {
    type V = MapValueView;

    open spec fn view(&self) -> MapValueView {
        match self {
            ConfigMapValue::KeyValue(v) => MapValueView::KeyValue(v@),
            ConfigMapValue::PluginConfig(c) => MapValueView::PluginConfig(c@),
            ConfigMapValue::Vec(v) => MapValueView::Vec(v.deep_view()),
        }
    }
}

impl ConfigMapValue {
    /// A number value.
    pub fn from_i32(value: i32) -> (r: ConfigMapValue)
        ensures
            r@ == MapValueView::KeyValue(ValueView::Number(value)),
    {
        ConfigMapValue::KeyValue(ConfigKeyValue::Number(value))
    }

    /// A string value.
    pub fn from_str(value: &str) -> (r: ConfigMapValue)
        ensures
            r@ == MapValueView::KeyValue(ValueView::String(value@)),
    {
        ConfigMapValue::KeyValue(ConfigKeyValue::String(copy_str(value)))
    }

    /// A boolean value.
    pub fn from_bool(value: bool) -> (r: ConfigMapValue)
        ensures
            r@ == MapValueView::KeyValue(ValueView::Bool(value)),
    {
        ConfigMapValue::KeyValue(ConfigKeyValue::Bool(value))
    }
}

impl ConfigKeyValue {
    /// A copy of the value.
    pub fn duplicate(&self) -> (r: ConfigKeyValue)
        ensures
            r@ == self@,
    {
        duplicate_value(self)
    }
}

/// A copy of a configuration value.
#[verifier::loop_isolation(false)]
fn duplicate_value(value: &ConfigKeyValue) -> (r: ConfigKeyValue)
    ensures
        r@ == value@,
    decreases value,
{
    match value {
        ConfigKeyValue::String(s) => ConfigKeyValue::String(copy_str(s.as_str())),
        ConfigKeyValue::Number(n) => ConfigKeyValue::Number(*n),
        ConfigKeyValue::Bool(b) => ConfigKeyValue::Bool(*b),
        ConfigKeyValue::Null => ConfigKeyValue::Null,
        ConfigKeyValue::Array(a) => {
            let mut out: Vec<ConfigKeyValue> = Vec::new();
            let mut i: usize = 0;
            while i < a.len()
                invariant
                    i <= a@.len(),
                    array_view(out@) == array_view(a@).take(i as int),
                decreases a@.len() - i,
            {
                assert(decreases_to!(value => a@[i as int]));
                let x = duplicate_value(&a[i]);
                let ghost before = array_view(out@);
                out.push(x);
                assert(array_view(out@) =~= before.push(x@));
                assert(array_view(a@).take(i + 1) =~= array_view(a@).take(i as int).push(a@[i as int]@));
                i = i + 1;
            }
            assert(array_view(a@).take(i as int) =~= array_view(a@));
            ConfigKeyValue::Array(out)
        },
        ConfigKeyValue::Object(o) => ConfigKeyValue::Object(duplicate_entries(o)),
    }
}

/// A copy of the entries of an object.
#[verifier::loop_isolation(false)]
pub fn duplicate_entries(o: &Vec<(String, ConfigKeyValue)>) -> (r: Vec<(String, ConfigKeyValue)>)
    ensures
        object_view(r@) == object_view(o@),
    decreases o,
{
    let mut out: Vec<(String, ConfigKeyValue)> = Vec::new();
    let mut i: usize = 0;
    while i < o.len()
        invariant
            i <= o@.len(),
            object_view(out@) == object_view(o@).take(i as int),
        decreases o@.len() - i,
    {
        assert(decreases_to!(o => o@[i as int].1));
        let x = duplicate_value(&o[i].1);
        let ghost before = object_view(out@);
        out.push((copy_str(o[i].0.as_str()), x));
        assert(object_view(out@) =~= before.push((o@[i as int].0@, x@)));
        assert(object_view(o@).take(i + 1) =~= object_view(o@).take(i as int).push((o@[i as int].0@, o@[i as int].1@)));
        i = i + 1;
    }
    assert(object_view(o@).take(i as int) =~= object_view(o@));
    out
}

impl RawPluginConfig {
    /// A copy of the configuration.
    pub fn duplicate(&self) -> (r: RawPluginConfig)
        ensures
            r@ == self@,
    {
        let associations = match &self.associations {
            Some(a) => Some(copy_strings(a)),
            None => None,
        };
        RawPluginConfig {
            associations,
            locked: self.locked,
            properties: duplicate_entries(&self.properties),
            overrides: duplicate_overrides(&self.overrides),
        }
    }
}

/// A copy of a list of overrides.
pub fn duplicate_overrides(o: &Vec<RawPluginConfigOverride>) -> (r: Vec<RawPluginConfigOverride>)
    ensures
        overrides_view(r@) == overrides_view(o@),
{
    let mut out: Vec<RawPluginConfigOverride> = Vec::new();
    let mut i: usize = 0;
    while i < o.len()
        invariant
            i <= o@.len(),
            overrides_view(out@) == overrides_view(o@).take(i as int),
        decreases o@.len() - i,
    {
        let x = RawPluginConfigOverride { files: copy_strings(&o[i].files), properties: duplicate_entries(&o[i].properties) };
        let ghost before = overrides_view(out@);
        out.push(x);
        assert(overrides_view(out@) =~= before.push(o@[i as int]@));
        assert(overrides_view(o@).take(i + 1) =~= overrides_view(o@).take(i as int).push(o@[i as int]@));
        i = i + 1;
    }
    assert(overrides_view(o@).take(i as int) =~= overrides_view(o@));
    out
}

impl ConfigMapValue {
    /// A copy of the value.
    pub fn duplicate(&self) -> (r: ConfigMapValue)
        ensures
            r@ == self@,
    {
        match self {
            ConfigMapValue::KeyValue(v) => ConfigMapValue::KeyValue(v.duplicate()),
            ConfigMapValue::PluginConfig(c) => ConfigMapValue::PluginConfig(c.duplicate()),
            ConfigMapValue::Vec(v) => ConfigMapValue::Vec(copy_strings(v)),
        }
    }
}

/// A copy of a configuration file's root object.
pub fn duplicate_config_map(m: &Vec<(String, ConfigMapValue)>) -> (r: Vec<(String, ConfigMapValue)>)
    ensures
        config_map_view(r@) == config_map_view(m@),
{
    let mut out: Vec<(String, ConfigMapValue)> = Vec::new();
    let mut i: usize = 0;
    while i < m.len()
        invariant
            i <= m@.len(),
            config_map_view(out@) == config_map_view(m@).take(i as int),
        decreases m@.len() - i,
    {
        let v = m[i].1.duplicate();
        let ghost before = config_map_view(out@);
        out.push((copy_str(m[i].0.as_str()), v));
        assert(config_map_view(out@) =~= before.push((m@[i as int].0@, m@[i as int].1@)));
        assert(config_map_view(m@).take(i + 1) =~= config_map_view(m@).take(i as int).push((m@[i as int].0@, m@[i as int].1@)));
        i = i + 1;
    }
    assert(config_map_view(m@).take(i as int) =~= config_map_view(m@));
    out
}

/// The mathematical value of a configuration file's root object, in order.
pub open spec fn config_map_view(m: Seq<(String, ConfigMapValue)>) -> Seq<(Seq<char>, MapValueView)> {
    m.map_values(|e: (String, ConfigMapValue)| (e.0@, e.1@))
}

/// Why a configuration property could not be taken out of the map.
#[derive(Debug)]
pub enum TakeError {
    /// The property should hold an array of strings.
    ExpectedArray { property: String },
    /// The property should hold a boolean.
    ExpectedBool { property: String },
    /// `extends` should be a string or an array of strings.
    InvalidExtends,
}

/// The mathematical value of a [`TakeError`].
pub enum TakeIssue {
    ExpectedArray(Seq<char>),
    ExpectedBool(Seq<char>),
    InvalidExtends,
}

impl View for TakeError {
    type V = TakeIssue;

    open spec fn view(&self) -> TakeIssue {
        match self {
            TakeError::ExpectedArray { property } => TakeIssue::ExpectedArray(property@),
            TakeError::ExpectedBool { property } => TakeIssue::ExpectedBool(property@),
            TakeError::InvalidExtends => TakeIssue::InvalidExtends,
        }
    }
}

impl TakeError {
    /// The text that explains the error to the user.
    pub fn to_string(&self) -> (r: String)
        ensures
            r@ == match self@ {
                TakeIssue::ExpectedArray(p) => "Expected array in '"@ + p + "' property."@,
                TakeIssue::ExpectedBool(p) => "Expected boolean in '"@ + p + "' property."@,
                TakeIssue::InvalidExtends => "Extends in configuration must be a string or an array of strings."@,
            },
    {
        match self {
            TakeError::ExpectedArray { property } => concat3("Expected array in '", property.as_str(), "' property."),
            TakeError::ExpectedBool { property } => concat3("Expected boolean in '", property.as_str(), "' property."),
            TakeError::InvalidExtends => copy_str("Extends in configuration must be a string or an array of strings."),
        }
    }
}

/// Takes a property that must be an array of strings out of the map.
pub fn take_array_from_config_map(config_map: &mut Vec<(String, ConfigMapValue)>, property_name: &str) -> (r: Result<
    Option<Vec<String>>,
    TakeError,
>)
    ensures
        match key_index(config_map_view(old(config_map)@), property_name@) {
            Some(i) => final(config_map)@ == old(config_map)@.remove(i) && match old(config_map)@[i].1 {
                ConfigMapValue::Vec(v) => r matches Ok(Some(x)) && x == v,
                _ => r matches Err(e) && e@ == TakeIssue::ExpectedArray(property_name@),
            },
            None => r matches Ok(None) && final(config_map)@ == old(config_map)@,
        },
{
    proof {
        lemma_same_keys_config(config_map@, property_name@);
    }
    match shift_remove(config_map, property_name) {
        Some(ConfigMapValue::Vec(elements)) => Ok(Some(elements)),
        Some(_) => Err(TakeError::ExpectedArray { property: copy_str(property_name) }),
        None => Ok(None),
    }
}


proof fn lemma_same_keys_config(m: Seq<(String, ConfigMapValue)>, key: Seq<char>)
    ensures
        key_index(key_view(m), key) == key_index(config_map_view(m), key),
{
    lemma_key_index_same_keys(key_view(m), config_map_view(m), key);
}

/// Takes a property that must be a boolean out of the map.
pub fn take_bool_from_config_map(config_map: &mut Vec<(String, ConfigMapValue)>, property_name: &str) -> (r: Result<
    Option<bool>,
    TakeError,
>)
    ensures
        match key_index(config_map_view(old(config_map)@), property_name@) {
            Some(i) => final(config_map)@ == old(config_map)@.remove(i) && match old(config_map)@[i].1@ {
                MapValueView::KeyValue(ValueView::Bool(b)) => r == Ok::<Option<bool>, TakeError>(Some(b)),
                _ => r matches Err(e) && e@ == TakeIssue::ExpectedBool(property_name@),
            },
            None => r == Ok::<Option<bool>, TakeError>(None) && final(config_map)@ == old(config_map)@,
        },
{
    proof {
        lemma_same_keys_config(config_map@, property_name@);
    }
    match shift_remove(config_map, property_name) {
        Some(ConfigMapValue::KeyValue(ConfigKeyValue::Bool(value))) => Ok(Some(value)),
        Some(_) => Err(TakeError::ExpectedBool { property: copy_str(property_name) }),
        None => Ok(None),
    }
}

/// Takes the `extends` property out of the map: one url or file path, or a
/// list of them.
pub fn take_extends(config_map: &mut Vec<(String, ConfigMapValue)>) -> (r: Result<Vec<String>, TakeError>)
    ensures
        match key_index(config_map_view(old(config_map)@), "extends"@) {
            Some(i) => final(config_map)@ == old(config_map)@.remove(i) && match old(config_map)@[i].1@ {
                MapValueView::KeyValue(ValueView::String(s)) => r matches Ok(v) && v.deep_view() == seq![s],
                MapValueView::Vec(v) => r matches Ok(x) && x.deep_view() == v,
                _ => r matches Err(e) && e@ == TakeIssue::InvalidExtends,
            },
            None => r matches Ok(v) && v@.len() == 0 && final(config_map)@ == old(config_map)@,
        },
{
    proof {
        lemma_same_keys_config(config_map@, "extends"@);
    }
    match shift_remove(config_map, "extends") {
        Some(ConfigMapValue::KeyValue(ConfigKeyValue::String(url_or_file_path))) => {
            let mut v: Vec<String> = Vec::new();
            v.push(url_or_file_path);
            assert(v.deep_view() =~= seq![v@[0]@]);
            Ok(v)
        },
        Some(ConfigMapValue::Vec(url_or_file_paths)) => Ok(url_or_file_paths),
        Some(_) => Err(TakeError::InvalidExtends),
        None => Ok(Vec::new()),
    }
}

/// Why a plugin's configuration could not be taken out of the map.
#[derive(Debug)]
pub struct PluginConfigError {
    /// The plugin's configuration key, whose value is not an object.
    pub config_key: String,
}

impl PluginConfigError {
    /// The text that explains the error to the user.
    pub fn to_string(&self) -> (r: String)
        ensures
            r@ == "Error initializing from configuration file. Expected the configuration property '"@
                + self.config_key@ + "' to be an object."@,
    {
        concat3(
            "Error initializing from configuration file. Expected the configuration property '",
            self.config_key.as_str(),
            "' to be an object.",
        )
    }
}

/// Takes a plugin's configuration, stored under its configuration key, out of
/// the map; a plugin without one gets an empty configuration.
pub fn get_plugin_config_map(config_key: &str, config_map: &mut Vec<(String, ConfigMapValue)>) -> (r: Result<
    RawPluginConfig,
    PluginConfigError,
>)
    ensures
        match key_index(config_map_view(old(config_map)@), config_key@) {
            Some(i) => final(config_map)@ == old(config_map)@.remove(i) && match old(config_map)@[i].1 {
                ConfigMapValue::PluginConfig(c) => r matches Ok(x) && x == c,
                _ => r matches Err(e) && e.config_key@ == config_key@,
            },
            None => r matches Ok(c) && c@ == (PluginConfigView {
                associations: None,
                locked: false,
                properties: Seq::empty(),
                overrides: Seq::empty(),
            }) && final(config_map)@ == old(config_map)@,
        },
{
    proof {
        lemma_same_keys_config(config_map@, config_key@);
    }
    match shift_remove(config_map, config_key) {
        Some(ConfigMapValue::PluginConfig(plugin_config)) => Ok(plugin_config),
        Some(_) => Err(PluginConfigError { config_key: copy_str(config_key) }),
        None => {
            let c = RawPluginConfig { associations: None, locked: false, properties: Vec::new(), overrides: Vec::new() };
            assert(object_view(c.properties@) =~= Seq::<(Seq<char>, ValueView)>::empty());
            assert(overrides_view(c.overrides@) =~= Seq::<OverrideView>::empty());
            Ok(c)
        },
    }
}


/// The position of `key` in an ordered map's entries, found by comparing keys.
pub(crate) fn find_key<V>(entries: &Vec<(String, V)>, key: &str) -> (r: Option<usize>)
    ensures
        match key_index(key_view(entries@), key@) {
            Some(i) => r matches Some(j) && j == i,
            None => r is None,
        },
{
    let ghost kv = key_view(entries@);
    let mut i: usize = 0;
    while i < entries.len()
        invariant
            kv == key_view(entries@),
            i <= entries@.len(),
            key_index(kv, key@) == key_index_from(kv, key@, i as int),
        decreases entries@.len() - i,
    {
        assert(kv[i as int].0 == entries@[i as int].0@);
        if str_eq(entries[i].0.as_str(), key) {
            return Some(i);
        }
        i = i + 1;
    }
    None
}

/// `target`'s properties with those of `source` it lacks appended in order;
/// the properties `target` has keep their values.
pub open spec fn merge_properties(
    target: Seq<(Seq<char>, ValueView)>,
    source: Seq<(Seq<char>, ValueView)>,
) -> Seq<(Seq<char>, ValueView)>
    decreases source.len(),
{
    if source.len() == 0 {
        target
    } else {
        let merged = merge_properties(target, source.drop_last());
        if key_index(merged, source.last().0) is Some {
            merged
        } else {
            merged.push(source.last())
        }
    }
}

/// A plugin's configuration combined with a lower precedence one: its own
/// properties win, it gains the ones it lacks, the other's overrides come
/// before its own, and it takes the other's associations when it has none.
pub open spec fn merge_plugin_config(target: PluginConfigView, source: PluginConfigView) -> PluginConfigView {
    PluginConfigView {
        associations: if target.associations is None {
            source.associations
        } else {
            target.associations
        },
        locked: target.locked,
        properties: merge_properties(target.properties, source.properties),
        overrides: source.overrides + target.overrides,
    }
}

/// Why two configurations could not be combined.
#[derive(Debug)]
pub enum MergeError {
    /// A locked plugin configuration whose properties the higher precedence
    /// configuration sets.
    Locked { key: String },
}

/// The mathematical value of a [`MergeError`].
pub enum MergeIssue {
    Locked(Seq<char>),
}

impl View for MergeError {
    type V = MergeIssue;

    open spec fn view(&self) -> MergeIssue {
        match self {
            MergeError::Locked { key } => MergeIssue::Locked(key@),
        }
    }
}

impl MergeError {
    /// The text that explains the error to the user.
    pub fn to_string(&self) -> (r: String)
        ensures
            r@ == match self@ {
                MergeIssue::Locked(key) => "The configuration for \""@ + key
                    + "\" was locked, but a parent configuration specified it. Locked configurations cannot have their properties overridden."@,
            },
    {
        match self {
            MergeError::Locked { key } => concat3(
                "The configuration for \"",
                key.as_str(),
                "\" was locked, but a parent configuration specified it. Locked configurations cannot have their properties overridden.",
            ),
        }
    }
}

/// One lower precedence property merged into the target map: a new key is
/// appended; an existing plugin configuration absorbs a plugin configuration
/// unless that one is locked while the target sets properties or overrides; anything else
/// leaves the target as it is.
pub open spec fn merge_entry(
    target: Seq<(Seq<char>, MapValueView)>,
    key: Seq<char>,
    value: MapValueView,
) -> Result<Seq<(Seq<char>, MapValueView)>, MergeIssue> {
    match key_index(target, key) {
        None => Ok(target.push((key, value))),
        Some(i) => match value {
            MapValueView::PluginConfig(source) => match target[i].1 {
                MapValueView::PluginConfig(t) => if source.locked && (t.properties.len() > 0 || t.overrides.len() > 0) {
                    Err(MergeIssue::Locked(key))
                } else {
                    Ok(target.update(i, (key, MapValueView::PluginConfig(merge_plugin_config(t, source)))))
                },
                _ => Ok(target),
            },
            _ => Ok(target),
        },
    }
}

/// The target after merging the source's properties in order, and the first
/// problem, which stops the merge.
pub open spec fn merge_maps(
    target: Seq<(Seq<char>, MapValueView)>,
    source: Seq<(Seq<char>, MapValueView)>,
) -> (Seq<(Seq<char>, MapValueView)>, Option<MergeIssue>)
    decreases source.len(),
{
    if source.len() == 0 {
        (target, None)
    } else {
        let (merged, issue) = merge_maps(target, source.drop_last());
        if issue is Some {
            (merged, issue)
        } else {
            match merge_entry(merged, source.last().0, source.last().1) {
                Ok(next) => (next, None),
                Err(e) => (merged, Some(e)),
            }
        }
    }
}

fn merge_property_lists(
    target: &mut Vec<(String, ConfigKeyValue)>,
    source: Vec<(String, ConfigKeyValue)>,
)
    ensures
        object_view(final(target)@) == merge_properties(object_view(old(target)@), object_view(source@)),
{
    let ghost orig = object_view(source@);
    let ghost start = object_view(target@);
    let mut rest = source;
    let total: usize = rest.len();
    let mut k: usize = 0;
    assert(orig.take(0) =~= Seq::<(Seq<char>, ValueView)>::empty());
    while rest.len() > 0
        invariant
            k <= orig.len(),
            orig.len() == total,
            object_view(rest@) == orig.skip(k as int),
            object_view(target@) == merge_properties(start, orig.take(k as int)),
        decreases rest@.len(),
    {
        let ghost rv = object_view(rest@);
        assert(rv.len() == orig.len() - k);
        let entry = rest.remove(0);
        assert(object_view(rest@) =~= rv.drop_first());
        assert(orig.skip(k as int)[0] == orig[k as int]);
        assert(orig.take(k + 1).drop_last() =~= orig.take(k as int));
        assert(orig.take(k + 1).last() == (entry.0@, entry.1@));
        proof {
            lemma_key_index_same_keys(key_view(target@), object_view(target@), entry.0@);
        }
        if find_key(target, entry.0.as_str()).is_none() {
            let ghost before = object_view(target@);
            target.push(entry);
            assert(object_view(target@) =~= before.push(orig[k as int]));
        }
        assert(orig.skip(k as int).drop_first() =~= orig.skip(k + 1));
        k = k + 1;
    }
    assert(orig.skip(k as int).len() == 0);
    assert(orig.take(k as int) =~= orig);
}

/// Merges one lower precedence property into the target (see [`merge_entry`]).
fn merge_one(target: &mut Vec<(String, ConfigMapValue)>, key: String, value: ConfigMapValue) -> (r: Result<
    (),
    MergeError,
>)
    ensures
        match merge_entry(config_map_view(old(target)@), key@, value@) {
            Ok(t) => r is Ok && config_map_view(final(target)@) == t,
            Err(e) => r matches Err(x) && x@ == e && final(target)@ == old(target)@,
        },
{
    let ghost tv = config_map_view(target@);
    let ghost key_v = key@;
    let ghost value_v = value@;
    proof {
        lemma_key_index_same_keys(key_view(target@), config_map_view(target@), key@);
        lemma_key_index(tv, key@);
        lemma_key_index(key_view(target@), key@);
    }
    match find_key(target, key.as_str()) {
        None => {
            let ghost kv = key@;
            let ghost vv = value@;
            target.push((key, value));
            assert(config_map_view(target@) =~= tv.push((kv, vv)));
            Ok(())
        },
        Some(i) => {
            assert(tv[i as int] == (target@[i as int].0@, target@[i as int].1@));
            match value {
                ConfigMapValue::PluginConfig(obj) => {
                    let target_props: Option<usize> = match &target[i].1 {
                        ConfigMapValue::PluginConfig(t) => {
                            assert(object_view(t.properties@).len() == t.properties@.len());
                            assert(overrides_view(t.overrides@).len() == t.overrides@.len());
                            if t.properties.len() > 0 || t.overrides.len() > 0 {
                                Some(1)
                            } else {
                                Some(0)
                            }
                        },
                        _ => None,
                    };
                    proof {
                        lemma_key_index(tv, key_v);
                    }
                    match target_props {
                        None => {
                            assert(!(tv[i as int].1 is PluginConfig));
                            assert(merge_entry(tv, key_v, value_v) == Ok::<_, MergeIssue>(tv));
                            return Ok(());
                        },
                        Some(n) => {
                            if obj.locked && n > 0 {
                                let err = MergeError::Locked { key };
                                assert(merge_entry(tv, key_v, value_v) == Err::<Seq<(Seq<char>, MapValueView)>, _>(err@));
                                return Err(err);
                            }
                        },
                    }
                    let ghost oview = obj@;
                    let ghost kv = key@;
                    let (tkey, tvalue) = target.remove(i);
                    match tvalue {
                        ConfigMapValue::PluginConfig(mut t) => {
                            let ghost tview = t@;
                            assert(tv[i as int].1 == MapValueView::PluginConfig(tview));
                            let RawPluginConfig { associations: source_associations, locked: _, properties: source_properties, overrides: source_overrides } = obj;
                            merge_property_lists(&mut t.properties, source_properties);
                            if t.associations.is_none() {
                                t.associations = source_associations;
                            }
                            let mut overrides = source_overrides;
                            let ghost so = overrides@;
                            let ghost to = t.overrides@;
                            overrides.append(&mut t.overrides);
                            assert(overrides_view(overrides@) =~= overrides_view(so) + overrides_view(to));
                            t.overrides = overrides;
                            assert(t@ == merge_plugin_config(tview, oview));
                            let ghost removed = target@;
                            assert(config_map_view(removed) =~= tv.remove(i as int));
                            target.insert(i, (tkey, ConfigMapValue::PluginConfig(t)));
                            assert(target@ == removed.insert(i as int, (tkey, ConfigMapValue::PluginConfig(t))));
                            assert(config_map_view(target@) =~= tv.update(
                                i as int,
                                (kv, MapValueView::PluginConfig(merge_plugin_config(tview, oview))),
                            ));
                            Ok(())
                        },
                        _ => {
                            proof {
                                assert(false);
                            }
                            Ok(())
                        },
                    }
                },
                _ => Ok(()),
            }
        },
    }
}

/// Merges the lower precedence `source` config map into the higher precedence
/// `target` config map (see [`merge_maps`]): values already present in
/// `target` win, while plugin configurations have their properties combined.
/// On an error the target keeps what was merged before it.
pub fn merge_config_map_into(
    target: &mut Vec<(String, ConfigMapValue)>,
    source: Vec<(String, ConfigMapValue)>,
) -> (r: Result<(), MergeError>)
    ensures
        config_map_view(final(target)@) == merge_maps(config_map_view(old(target)@), config_map_view(source@)).0,
        match r {
            Ok(()) => merge_maps(config_map_view(old(target)@), config_map_view(source@)).1 is None,
            Err(e) => merge_maps(config_map_view(old(target)@), config_map_view(source@)).1 == Some(e@),
        },
{
    let ghost orig = config_map_view(source@);
    let ghost start = config_map_view(target@);
    let mut rest = source;
    let total: usize = rest.len();
    let mut k: usize = 0;
    assert(orig.take(0) =~= Seq::<(Seq<char>, MapValueView)>::empty());
    while rest.len() > 0
        invariant
            k <= orig.len(),
            orig.len() == total,
            orig == config_map_view(source@),
            start == config_map_view(old(target)@),
            config_map_view(rest@) == orig.skip(k as int),
            config_map_view(target@) == merge_maps(start, orig.take(k as int)).0,
            merge_maps(start, orig.take(k as int)).1 is None,
        decreases rest@.len(),
    {
        let ghost rv = config_map_view(rest@);
        assert(rv.len() == orig.len() - k);
        let entry = rest.remove(0);
        assert(config_map_view(rest@) =~= rv.drop_first());
        assert(orig.skip(k as int)[0] == orig[k as int]);
        assert(orig.take(k + 1).drop_last() =~= orig.take(k as int));
        assert(orig.take(k + 1).last() == (entry.0@, entry.1@));
        let (key, value) = entry;
        let result = merge_one(target, key, value);
        if let Err(e) = result {
            proof {
                assert(merge_maps(start, orig.take(k + 1)) == (config_map_view(target@), Some(e@)));
                lemma_merge_stops(start, orig, (k + 1) as int);
            }
            return Err(e);
        }
        assert(orig.skip(k as int).drop_first() =~= orig.skip(k + 1));
        k = k + 1;
    }
    assert(orig.skip(k as int).len() == 0);
    assert(orig.take(k as int) =~= orig);
    Ok(())
}

proof fn lemma_merge_stops(
    target: Seq<(Seq<char>, MapValueView)>,
    source: Seq<(Seq<char>, MapValueView)>,
    k: int,
)
    requires
        0 <= k <= source.len(),
        merge_maps(target, source.take(k)).1 is Some,
    ensures
        merge_maps(target, source) == merge_maps(target, source.take(k)),
    decreases source.len() - k,
{
    if k < source.len() {
        assert(source.take(k + 1).drop_last() =~= source.take(k));
        lemma_merge_stops(target, source, k + 1);
    } else {
        assert(source.take(k) =~= source);
    }
}


/// Whether `after` keeps the entries of `before` in place: the same keys at
/// the same positions, and the same value wherever that value is not a plugin
/// configuration.
pub open spec fn keeps_entries(
    before: Seq<(Seq<char>, MapValueView)>,
    after: Seq<(Seq<char>, MapValueView)>,
) -> bool {
    &&& before.len() <= after.len()
    &&& forall|i: int|
        0 <= i < before.len() ==> #[trigger] after[i].0 == before[i].0 && (!(before[i].1 is PluginConfig)
            ==> after[i].1 == before[i].1)
}

proof fn lemma_merge_entry_keeps(target: Seq<(Seq<char>, MapValueView)>, key: Seq<char>, value: MapValueView)
    ensures
        merge_entry(target, key, value) matches Ok(t) ==> keeps_entries(target, t) && key_index(t, key) is Some,
{
    lemma_key_index(target, key);
    if let Ok(t) = merge_entry(target, key, value) {
        match key_index(target, key) {
            None => {
                assert(t[target.len() as int].0 == key);
                lemma_key_index(t, key);
            },
            Some(i) => {
                assert(t[i].0 == key);
                lemma_key_index(t, key);
            },
        }
    }
}

proof fn lemma_keeps_entries_trans(
    a: Seq<(Seq<char>, MapValueView)>,
    b: Seq<(Seq<char>, MapValueView)>,
    c: Seq<(Seq<char>, MapValueView)>,
)
    requires
        keeps_entries(a, b),
        keeps_entries(b, c),
    ensures
        keeps_entries(a, c),
{
    assert forall|i: int| 0 <= i < a.len() implies #[trigger] c[i].0 == a[i].0 && (!(a[i].1 is PluginConfig)
        ==> c[i].1 == a[i].1) by {
        assert(b[i].0 == a[i].0);
        assert(c[i].0 == b[i].0);
    }
}

proof fn lemma_keeps_key_index(a: Seq<(Seq<char>, MapValueView)>, b: Seq<(Seq<char>, MapValueView)>, key: Seq<char>)
    requires
        keeps_entries(a, b),
        key_index(a, key) is Some,
    ensures
        key_index(b, key) is Some,
{
    lemma_key_index(a, key);
    lemma_key_index(b, key);
    let i = key_index(a, key)->0;
    assert(b[i].0 == a[i].0);
}

/// Merging never displaces what the higher precedence map holds: its keys
/// stay at their positions, every value that is not a plugin configuration is
/// kept as it was, and when no error stops the merge every key of the lower
/// precedence map is present afterwards.
pub proof fn law_merge_target_wins(
    target: Seq<(Seq<char>, MapValueView)>,
    source: Seq<(Seq<char>, MapValueView)>,
)
    ensures
        keeps_entries(target, merge_maps(target, source).0),
        merge_maps(target, source).1 is None ==> forall|j: int|
            0 <= j < source.len() ==> key_index(merge_maps(target, source).0, #[trigger] source[j].0) is Some,
    decreases source.len(),
{
    if source.len() == 0 {
        assert(keeps_entries(target, target));
    } else {
        let prefix = source.drop_last();
        law_merge_target_wins(target, prefix);
        let (merged, issue) = merge_maps(target, prefix);
        if issue is None {
            lemma_merge_entry_keeps(merged, source.last().0, source.last().1);
            if let Ok(next) = merge_entry(merged, source.last().0, source.last().1) {
                lemma_keeps_entries_trans(target, merged, next);
                assert forall|j: int| 0 <= j < source.len() implies key_index(next, #[trigger] source[j].0) is Some by {
                    if j < source.len() - 1 {
                        assert(source[j] == prefix[j]);
                        lemma_keeps_key_index(merged, next, source[j].0);
                    }
                }
            }
        }
    }
}

/// Merging a plugin's properties keeps every property it had, unchanged and
/// in place, and leaves every property of the lower precedence configuration
/// present.
pub proof fn law_merge_properties_target_wins(
    target: Seq<(Seq<char>, ValueView)>,
    source: Seq<(Seq<char>, ValueView)>,
)
    ensures
        merge_properties(target, source).len() >= target.len(),
        merge_properties(target, source).take(target.len() as int) == target,
        forall|j: int| 0 <= j < source.len() ==> key_index(merge_properties(target, source), #[trigger] source[j].0) is Some,
    decreases source.len(),
{
    if source.len() > 0 {
        let prefix = source.drop_last();
        law_merge_properties_target_wins(target, prefix);
        let merged = merge_properties(target, prefix);
        let result = merge_properties(target, source);
        lemma_key_index(merged, source.last().0);
        if key_index(merged, source.last().0) is None {
            assert(result.take(target.len() as int) =~= merged.take(target.len() as int));
        }
        assert forall|j: int| 0 <= j < source.len() implies key_index(result, #[trigger] source[j].0) is Some by {
            let key = source[j].0;
            lemma_key_index(merged, key);
            lemma_key_index(result, key);
            if j < source.len() - 1 {
                assert(source[j] == prefix[j]);
                let i = key_index(merged, key)->0;
                assert(result[i] == merged[i]);
            } else if key_index(merged, key) is None {
                assert(result[merged.len() as int].0 == key);
            }
        }
    } else {
        assert(target.take(target.len() as int) =~= target);
    }
}

/// Whether no key of an ordered map occurs twice, as in a map.
pub open spec fn unique_keys<V>(m: Seq<(Seq<char>, V)>) -> bool {
    forall|i: int, j: int| 0 <= i < j < m.len() ==> m[i].0 != m[j].0
}

proof fn lemma_remove_unique<V>(m: Seq<(Seq<char>, V)>, i: int)
    requires
        unique_keys(m),
        0 <= i < m.len(),
    ensures
        unique_keys(m.remove(i)),
        key_index(m.remove(i), m[i].0) is None,
{
    let r = m.remove(i);
    assert forall|a: int, b: int| 0 <= a < b < r.len() implies r[a].0 != r[b].0 by {
        let a2 = if a < i { a } else { a + 1 };
        let b2 = if b < i { b } else { b + 1 };
        assert(r[a] == m[a2]);
        assert(r[b] == m[b2]);
    }
    lemma_key_index(r, m[i].0);
    if let Some(k) = key_index(r, m[i].0) {
        let k2 = if k < i { k } else { k + 1 };
        assert(r[k] == m[k2]);
    }
}

proof fn lemma_config_view_remove(m: Seq<(String, ConfigMapValue)>, i: int)
    requires
        0 <= i < m.len(),
    ensures
        config_map_view(m.remove(i)) == config_map_view(m).remove(i),
{
    assert(config_map_view(m.remove(i)) =~= config_map_view(m).remove(i));
}

/// `after` is `before` with the entry of `key` taken out, when it had one.
pub open spec fn taken<V>(before: Seq<(Seq<char>, V)>, after: Seq<(Seq<char>, V)>, key: Seq<char>) -> bool {
    match key_index(before, key) {
        Some(i) => after == before.remove(i),
        None => after == before,
    }
}

proof fn lemma_taken<V>(before: Seq<(Seq<char>, V)>, after: Seq<(Seq<char>, V)>, key: Seq<char>, other: Seq<char>)
    requires
        unique_keys(before),
        taken(before, after, key),
    ensures
        unique_keys(after),
        key_index(after, key) is None,
        key_index(before, other) is None ==> key_index(after, other) is None,
        other != key ==> (key_index(before, other) is Some ==> key_index(after, other) is Some),
{
    lemma_key_index(before, key);
    lemma_key_index(before, other);
    lemma_key_index(after, other);
    if let Some(i) = key_index(before, key) {
        lemma_remove_unique(before, i);
        if key_index(before, other) is None {
            if let Some(k) = key_index(after, other) {
                let k2 = if k < i { k } else { k + 1 };
                assert(after[k] == before[k2]);
            }
        }
        if other != key {
            if let Some(j) = key_index(before, other) {
                let j2 = if j < i { j } else { j - 1 };
                assert(after[j2] == before[j]);
            }
        }
    }
}

proof fn lemma_take_step(m: Seq<(String, ConfigMapValue)>, after: Seq<(String, ConfigMapValue)>, key: Seq<char>)
    requires
        match key_index(config_map_view(m), key) {
            Some(i) => after == m.remove(i),
            None => after == m,
        },
    ensures
        taken(config_map_view(m), config_map_view(after), key),
{
    lemma_key_index(config_map_view(m), key);
    if let Some(i) = key_index(config_map_view(m), key) {
        lemma_config_view_remove(m, i);
    }
}

/// The value of the entry of `key`, if there is one.
pub open spec fn prop_value(m: Seq<(Seq<char>, MapValueView)>, key: Seq<char>) -> Option<MapValueView> {
    match key_index(m, key) {
        Some(i) => Some(m[i].1),
        None => None,
    }
}

/// A property that must be a list of strings: none when absent.
pub open spec fn array_prop(v: Option<MapValueView>, key: Seq<char>) -> Result<Option<Seq<Seq<char>>>, TakeIssue> {
    match v {
        Some(MapValueView::Vec(items)) => Ok(Some(items)),
        Some(_) => Err(TakeIssue::ExpectedArray(key)),
        None => Ok(None),
    }
}

/// A property that must be a boolean: none when absent.
pub open spec fn bool_prop(v: Option<MapValueView>, key: Seq<char>) -> Result<Option<bool>, TakeIssue> {
    match v {
        Some(MapValueView::KeyValue(ValueView::Bool(b))) => Ok(Some(b)),
        Some(_) => Err(TakeIssue::ExpectedBool(key)),
        None => Ok(None),
    }
}

/// The `extends` property: one string or a list of them; none when absent.
pub open spec fn extends_prop(v: Option<MapValueView>) -> Result<Seq<Seq<char>>, TakeIssue> {
    match v {
        Some(MapValueView::KeyValue(ValueView::String(s))) => Ok(seq![s]),
        Some(MapValueView::Vec(items)) => Ok(items),
        Some(_) => Err(TakeIssue::InvalidExtends),
        None => Ok(Seq::empty()),
    }
}

/// The mathematical value of [`ConfigProperties`].
pub struct PropertiesView {
    pub plugins: Seq<Seq<char>>,
    pub removed_remote_includes: bool,
    pub includes: Option<Seq<Seq<char>>>,
    pub excludes: Option<Seq<Seq<char>>>,
    pub incremental: Option<bool>,
    pub inherit: Option<bool>,
    pub extends: Seq<Seq<char>>,
}

pub open spec fn properties_view(p: ConfigProperties) -> PropertiesView {
    PropertiesView {
        plugins: p.plugins.deep_view(),
        removed_remote_includes: p.removed_remote_includes,
        includes: opt_strings_view(p.includes),
        excludes: opt_strings_view(p.excludes),
        incremental: p.incremental,
        inherit: p.inherit,
        extends: p.extends.deep_view(),
    }
}

/// The resolver's properties of a root object with each key once, or the
/// first problem, in the order they are taken: `plugins` (none is an empty
/// list), `includes` (dropped from a remote file), `excludes`,
/// `incremental`, `inherit`, then `extends`.
pub open spec fn spec_config_properties(m: Seq<(Seq<char>, MapValueView)>, is_local: bool) -> Result<PropertiesView, TakeIssue> {
    match array_prop(prop_value(m, "plugins"@), "plugins"@) {
        Err(e) => Err(e),
        Ok(plugins) => match (if is_local {
            array_prop(prop_value(m, "includes"@), "includes"@)
        } else {
            Ok(None)
        }) {
            Err(e) => Err(e),
            Ok(includes) => match array_prop(prop_value(m, "excludes"@), "excludes"@) {
                Err(e) => Err(e),
                Ok(excludes) => match bool_prop(prop_value(m, "incremental"@), "incremental"@) {
                    Err(e) => Err(e),
                    Ok(incremental) => match bool_prop(prop_value(m, "inherit"@), "inherit"@) {
                        Err(e) => Err(e),
                        Ok(inherit) => match extends_prop(prop_value(m, "extends"@)) {
                            Err(e) => Err(e),
                            Ok(extends) => Ok(
                                PropertiesView {
                                    plugins: match plugins {
                                        Some(p) => p,
                                        None => Seq::empty(),
                                    },
                                    removed_remote_includes: !is_local && prop_value(m, "includes"@) is Some,
                                    includes,
                                    excludes,
                                    incremental,
                                    inherit,
                                    extends,
                                },
                            ),
                        },
                    },
                },
            },
        },
    }
}

proof fn lemma_prop_taken(before: Seq<(Seq<char>, MapValueView)>, after: Seq<(Seq<char>, MapValueView)>, key: Seq<char>, other: Seq<char>)
    requires
        unique_keys(before),
        taken(before, after, key),
        other != key,
    ensures
        prop_value(after, other) == prop_value(before, other),
{
    lemma_key_index(before, key);
    lemma_key_index(before, other);
    lemma_key_index(after, other);
    if let Some(i) = key_index(before, key) {
        lemma_remove_unique(before, i);
        match key_index(before, other) {
            Some(j) => {
                let j2 = if j < i { j } else { j - 1 };
                assert(after[j2] == before[j]);
                if let Some(k) = key_index(after, other) {
                    let k2 = if k < i { k } else { k + 1 };
                    assert(after[k] == before[k2]);
                    assert(k2 == j);
                }
            },
            None => {
                if let Some(k) = key_index(after, other) {
                    let k2 = if k < i { k } else { k + 1 };
                    assert(after[k] == before[k2]);
                }
            },
        }
    }
}

proof fn lemma_prop_of_taken(m: Seq<(String, ConfigMapValue)>, key: Seq<char>)
    ensures
        prop_value(config_map_view(m), key) == match key_index(config_map_view(m), key) {
            Some(i) => Some(m[i].1@),
            None => None::<MapValueView>,
        },
{
    lemma_key_index(config_map_view(m), key);
}

/// The properties of a configuration file that the resolver takes out of its
/// root object before the plugins get the rest.
#[derive(Debug)]
pub struct ConfigProperties {
    pub plugins: Vec<String>,
    /// Whether `includes` was dropped because the file is remote.
    pub removed_remote_includes: bool,
    pub includes: Option<Vec<String>>,
    pub excludes: Option<Vec<String>>,
    pub incremental: Option<bool>,
    pub inherit: Option<bool>,
    pub extends: Vec<String>,
}

/// Takes the resolver's properties out of a configuration file's root
/// object, in this order: `plugins`; for a remote file, `includes`, which is
/// dropped (the user alone decides which files are formatted); `includes`,
/// `excludes`, `incremental`, `inherit`; `projectType`, which is no longer
/// used; and `extends`. The first property of the wrong kind is the error.
pub fn take_config_properties(config_map: &mut Vec<(String, ConfigMapValue)>, is_local: bool) -> (r: Result<
    ConfigProperties,
    TakeError,
>)
    requires
        unique_keys(config_map_view(old(config_map)@)),
    ensures
        match spec_config_properties(config_map_view(old(config_map)@), is_local) {
            Ok(p) => r matches Ok(x) && properties_view(x) == p,
            Err(e) => r matches Err(x) && x@ == e,
        },
        r is Ok ==> unique_keys(config_map_view(final(config_map)@)) && key_index(
            config_map_view(final(config_map)@),
            "plugins"@,
        ) is None && key_index(config_map_view(final(config_map)@), "includes"@) is None && key_index(
            config_map_view(final(config_map)@),
            "excludes"@,
        ) is None && key_index(config_map_view(final(config_map)@), "extends"@) is None,
{
    proof {
        reveal_strlit("plugins");
        reveal_strlit("includes");
        reveal_strlit("excludes");
        reveal_strlit("incremental");
        reveal_strlit("inherit");
        reveal_strlit("projectType");
        reveal_strlit("extends");
        assert("includes"@[0] != "excludes"@[0]);
        assert("plugins"@[0] != "inherit"@[0]);
        assert("plugins"@[0] != "extends"@[0]);
        assert("inherit"@[0] != "extends"@[0]);
        assert("incremental"@[0] != "projectType"@[0]);
        assert("includes"@[3] != "incremental"@[3]);
        assert("includes"@[2] != "inherit"@[2]);
        assert("incremental"@[2] != "inherit"@[2]);
        assert("excludes"@[2] != "extends"@[2]);
        assert("includes"@ != "extends"@);
        assert("incremental"@ != "extends"@);
        assert("excludes"@ != "inherit"@);
        assert("excludes"@ != "incremental"@);
        assert("plugins"@ != "incremental"@);
        assert("plugins"@ != "excludes"@);
        assert("projectType"@ != "extends"@);
    }
    let ghost m0 = config_map_view(config_map@);
    let ghost s0 = config_map@;
    proof {
        lemma_prop_of_taken(s0, "plugins"@);
    }
    let plugins = match take_array_from_config_map(config_map, "plugins") {
        Ok(Some(v)) => v,
        Ok(None) => Vec::new(),
        Err(e) => return Err(e),
    };
    assert(plugins.deep_view() == match array_prop(prop_value(m0, "plugins"@), "plugins"@) {
        Ok(Some(p)) => p,
        _ => Seq::<Seq<char>>::empty(),
    });
    proof {
        lemma_take_step(s0, config_map@, "plugins"@);
        lemma_taken(m0, config_map_view(config_map@), "plugins"@, "plugins"@);
        lemma_prop_taken(m0, config_map_view(config_map@), "plugins"@, "includes"@);
    }
    let mut removed_remote_includes = false;
    let ghost s1 = config_map@;
    proof {
        lemma_taken(m0, config_map_view(s1), "plugins"@, "includes"@);
    }
    if !is_local {
        proof {
            lemma_same_keys_config(config_map@, "includes"@);
            lemma_prop_of_taken(s1, "includes"@);
        }
        removed_remote_includes = shift_remove(config_map, "includes").is_some();
        proof {
            lemma_take_step(s1, config_map@, "includes"@);
            lemma_taken(config_map_view(s1), config_map_view(config_map@), "includes"@, "plugins"@);
        }
    }
    let ghost s2 = config_map@;
    proof {
        lemma_prop_of_taken(s2, "includes"@);
    }
    let includes = match take_array_from_config_map(config_map, "includes") {
        Ok(v) => v,
        Err(e) => return Err(e),
    };
    proof {
        lemma_take_step(s2, config_map@, "includes"@);
        lemma_taken(config_map_view(s2), config_map_view(config_map@), "includes"@, "plugins"@);
        if !is_local {
            lemma_taken(config_map_view(s1), config_map_view(s2), "includes"@, "includes"@);
        }
    }
    let ghost s3 = config_map@;
    proof {
        lemma_prop_taken(m0, config_map_view(s1), "plugins"@, "excludes"@);
        if !is_local {
            lemma_taken(m0, config_map_view(s1), "plugins"@, "plugins"@);
            lemma_prop_taken(config_map_view(s1), config_map_view(s2), "includes"@, "excludes"@);
        }
        lemma_prop_taken(config_map_view(s2), config_map_view(s3), "includes"@, "excludes"@);
        lemma_prop_of_taken(s3, "excludes"@);
    }
    let excludes = match take_array_from_config_map(config_map, "excludes") {
        Ok(v) => v,
        Err(e) => return Err(e),
    };
    proof {
        lemma_take_step(s3, config_map@, "excludes"@);
        lemma_taken(config_map_view(s3), config_map_view(config_map@), "excludes"@, "plugins"@);
        lemma_taken(config_map_view(s3), config_map_view(config_map@), "excludes"@, "includes"@);
    }
    let ghost s4 = config_map@;
    proof {
        lemma_prop_taken(m0, config_map_view(s1), "plugins"@, "incremental"@);
        if !is_local {
            lemma_prop_taken(config_map_view(s1), config_map_view(s2), "includes"@, "incremental"@);
        }
        lemma_prop_taken(config_map_view(s2), config_map_view(s3), "includes"@, "incremental"@);
        lemma_prop_taken(config_map_view(s3), config_map_view(s4), "excludes"@, "incremental"@);
        lemma_prop_of_taken(s4, "incremental"@);
    }
    let incremental = match take_bool_from_config_map(config_map, "incremental") {
        Ok(v) => v,
        Err(e) => return Err(e),
    };
    proof {
        lemma_take_step(s4, config_map@, "incremental"@);
        lemma_taken(config_map_view(s4), config_map_view(config_map@), "incremental"@, "plugins"@);
        lemma_taken(config_map_view(s4), config_map_view(config_map@), "incremental"@, "includes"@);
        lemma_taken(config_map_view(s4), config_map_view(config_map@), "incremental"@, "excludes"@);
    }
    let ghost s5 = config_map@;
    proof {
        lemma_prop_taken(m0, config_map_view(s1), "plugins"@, "inherit"@);
        if !is_local {
            lemma_prop_taken(config_map_view(s1), config_map_view(s2), "includes"@, "inherit"@);
        }
        lemma_prop_taken(config_map_view(s2), config_map_view(s3), "includes"@, "inherit"@);
        lemma_prop_taken(config_map_view(s3), config_map_view(s4), "excludes"@, "inherit"@);
        lemma_prop_taken(config_map_view(s4), config_map_view(s5), "incremental"@, "inherit"@);
        lemma_prop_of_taken(s5, "inherit"@);
    }
    let inherit = match take_bool_from_config_map(config_map, "inherit") {
        Ok(v) => v,
        Err(e) => return Err(e),
    };
    proof {
        lemma_take_step(s5, config_map@, "inherit"@);
        lemma_taken(config_map_view(s5), config_map_view(config_map@), "inherit"@, "plugins"@);
        lemma_taken(config_map_view(s5), config_map_view(config_map@), "inherit"@, "includes"@);
        lemma_taken(config_map_view(s5), config_map_view(config_map@), "inherit"@, "excludes"@);
    }
    let ghost s6 = config_map@;
    proof {
        lemma_same_keys_config(config_map@, "projectType"@);
    }
    let _project_type = shift_remove(config_map, "projectType");
    proof {
        lemma_take_step(s6, config_map@, "projectType"@);
        lemma_taken(config_map_view(s6), config_map_view(config_map@), "projectType"@, "plugins"@);
        lemma_taken(config_map_view(s6), config_map_view(config_map@), "projectType"@, "includes"@);
        lemma_taken(config_map_view(s6), config_map_view(config_map@), "projectType"@, "excludes"@);
    }
    let ghost s7 = config_map@;
    proof {
        lemma_prop_taken(m0, config_map_view(s1), "plugins"@, "extends"@);
        if !is_local {
            lemma_prop_taken(config_map_view(s1), config_map_view(s2), "includes"@, "extends"@);
        }
        lemma_prop_taken(config_map_view(s2), config_map_view(s3), "includes"@, "extends"@);
        lemma_prop_taken(config_map_view(s3), config_map_view(s4), "excludes"@, "extends"@);
        lemma_prop_taken(config_map_view(s4), config_map_view(s5), "incremental"@, "extends"@);
        lemma_prop_taken(config_map_view(s5), config_map_view(s6), "inherit"@, "extends"@);
        lemma_prop_taken(config_map_view(s6), config_map_view(s7), "projectType"@, "extends"@);
        lemma_prop_of_taken(s7, "extends"@);
    }
    let extends = match take_extends(config_map) {
        Ok(v) => v,
        Err(e) => return Err(e),
    };
    proof {
        lemma_take_step(s7, config_map@, "extends"@);
        lemma_taken(config_map_view(s7), config_map_view(config_map@), "extends"@, "plugins"@);
        lemma_taken(config_map_view(s7), config_map_view(config_map@), "extends"@, "includes"@);
        lemma_taken(config_map_view(s7), config_map_view(config_map@), "extends"@, "excludes"@);
    }
    assert(removed_remote_includes == (!is_local && prop_value(m0, "includes"@) is Some));
    assert(opt_strings_view(includes) == (if is_local {
        array_prop(prop_value(m0, "includes"@), "includes"@)->Ok_0
    } else {
        None
    }));
    assert(opt_strings_view(excludes) == array_prop(prop_value(m0, "excludes"@), "excludes"@)->Ok_0);
    assert(incremental == bool_prop(prop_value(m0, "incremental"@), "incremental"@)->Ok_0);
    assert(inherit == bool_prop(prop_value(m0, "inherit"@), "inherit"@)->Ok_0);
    assert(extends.deep_view() == extends_prop(prop_value(m0, "extends"@))->Ok_0);
    Ok(ConfigProperties { plugins, removed_remote_includes, includes, excludes, incremental, inherit, extends })
}

/// The main configuration file found for a run, the directory it applies
/// to, and whether it is the global one.
#[derive(Debug)]
pub struct ResolvedConfigPath {
    pub resolved_path: String,
    pub base_path: CanonicalizedPathBuf,
    pub is_global_config: bool,
}

/// Why no configuration could be resolved.
#[derive(Debug)]
pub enum ResolveConfigError {
    /// No configuration file where one was looked for.
    NotFound { config_path: CanonicalizedPathBuf, inner: Option<String> },
    /// Discovery was turned off and nothing said which plugins or
    /// configuration to use.
    ConfigDiscoveryDisabled,
    Other(String),
}

impl ResolveConfigError {
    /// The text that explains the error to the user.
    pub fn to_string(&self) -> (r: String)
        ensures
            r@ == match self {
                ResolveConfigError::NotFound { config_path, .. } => "No config file found at "@ + config_path@
                    + ". Did you mean to create (dprint init) or specify one (--config <path>)?\n\nNote: dprint now supports global configuration. Set it up with `dprint init --global` then edit with `dprint config edit --global`"@,
                ResolveConfigError::ConfigDiscoveryDisabled => "Config discovery was disabled and no plugins (--plugins <url/path>) and/or config (--config <path>) was specified."@,
                ResolveConfigError::Other(m) => m@,
            },
    {
        match self {
            ResolveConfigError::NotFound { config_path, .. } => concat3(
                "No config file found at ",
                config_path.display(),
                ". Did you mean to create (dprint init) or specify one (--config <path>)?\n\nNote: dprint now supports global configuration. Set it up with `dprint init --global` then edit with `dprint config edit --global`",
            ),
            ResolveConfigError::ConfigDiscoveryDisabled => copy_str(
                "Config discovery was disabled and no plugins (--plugins <url/path>) and/or config (--config <path>) was specified.",
            ),
            ResolveConfigError::Other(m) => copy_str(m.as_str()),
        }
    }
}

} // verus!
