//! The root object of a configuration file turned into a config map: plugin
//! configurations, lists of strings and plain values, with the errors the
//! file's author sees.
use vstd::prelude::*;
use crate::text::{copy_str, concat2, concat3, str_eq, chars_of};
use crate::configuration::{
    ConfigKeyValue, ValueView, ConfigMapValue, MapValueView, RawPluginConfig, PluginConfigView, key_index,
    config_map_view, object_view, opt_strings_view, key_view, lemma_key_index, lemma_key_index_same_keys,
    unique_keys,
};
use crate::permissions::copy_strings;

verus! {

/// A JSON value as the configuration file's parser produces it; a number
/// keeps the text it was written with.
#[derive(Debug)]
pub enum JsonTree {
    Null,
    Boolean(bool),
    Number(String),
    String(String),
    Array(Vec<JsonTree>),
    Object(Vec<(String, JsonTree)>),
}

/// Why text did not parse as a 32-bit integer, as `ParseIntError` tells it.
#[derive(Debug, Clone, Copy, PartialEq, Eq, Structural)]
pub enum ParseIntKind {
    Empty,
    InvalidDigit,
    PosOverflow,
    NegOverflow,
}

/// The message of a `ParseIntError` of the kind.
pub open spec fn parse_int_message(k: ParseIntKind) -> Seq<char> {
    match k {
        ParseIntKind::Empty => "cannot parse integer from empty string"@,
        ParseIntKind::InvalidDigit => "invalid digit found in string"@,
        ParseIntKind::PosOverflow => "number too large to fit in target type"@,
        ParseIntKind::NegOverflow => "number too small to fit in target type"@,
    }
}

fn parse_int_message_text(k: ParseIntKind) -> (r: String)
    ensures
        r@ == parse_int_message(k),
{
    match k {
        ParseIntKind::Empty => copy_str("cannot parse integer from empty string"),
        ParseIntKind::InvalidDigit => copy_str("invalid digit found in string"),
        ParseIntKind::PosOverflow => copy_str("number too large to fit in target type"),
        ParseIntKind::NegOverflow => copy_str("number too small to fit in target type"),
    }
}

/// The value of the first `k` digits, read left to right as `str::parse`
/// reads them (subtracting for a negative number), or the first problem.
pub open spec fn parse_digits(digits: Seq<char>, negative: bool, k: int) -> Result<int, ParseIntKind>
    decreases k,
{
    if k <= 0 {
        Ok(0)
    } else {
        match parse_digits(digits, negative, k - 1) {
            Err(e) => Err(e),
            Ok(v) => {
                let c = digits[k - 1];
                if !('0' <= c <= '9') {
                    Err(ParseIntKind::InvalidDigit)
                } else {
                    let d = c as int - '0' as int;
                    let w = if negative {
                        v * 10 - d
                    } else {
                        v * 10 + d
                    };
                    if w > i32::MAX {
                        Err(ParseIntKind::PosOverflow)
                    } else if w < i32::MIN {
                        Err(ParseIntKind::NegOverflow)
                    } else {
                        Ok(w)
                    }
                }
            },
        }
    }
}

/// What `str::parse::<i32>` gives: an optional sign followed by at least one
/// decimal digit, within range.
pub open spec fn spec_parse_i32(s: Seq<char>) -> Result<i32, ParseIntKind> {
    if s.len() == 0 {
        Err(ParseIntKind::Empty)
    } else if (s[0] == '+' || s[0] == '-') && s.len() == 1 {
        Err(ParseIntKind::InvalidDigit)
    } else {
        let negative = s[0] == '-';
        let digits = if s[0] == '+' || s[0] == '-' {
            s.drop_first()
        } else {
            s
        };
        match parse_digits(digits, negative, digits.len() as int) {
            Ok(v) => Ok(v as i32),
            Err(e) => Err(e),
        }
    }
}

proof fn lemma_parse_digits_range(digits: Seq<char>, negative: bool, k: int)
    ensures
        parse_digits(digits, negative, k) matches Ok(v) ==> i32::MIN <= v <= i32::MAX && (negative ==> v <= 0) && (
        !negative ==> v >= 0),
    decreases k,
{
    if k > 0 {
        lemma_parse_digits_range(digits, negative, k - 1);
    }
}

proof fn lemma_parse_digits_stops(digits: Seq<char>, negative: bool, k: int, m: int)
    requires
        0 <= k <= m,
        parse_digits(digits, negative, k) is Err,
    ensures
        parse_digits(digits, negative, m) == parse_digits(digits, negative, k),
    decreases m - k,
{
    if k < m {
        lemma_parse_digits_stops(digits, negative, k, m - 1);
    }
}

/// Parses a 32-bit integer the way `str::parse::<i32>` does (see
/// [`spec_parse_i32`]).
#[verifier::loop_isolation(false)]
pub fn parse_i32(text: &str) -> (r: Result<i32, ParseIntKind>)
    ensures
        r == spec_parse_i32(text@),
{
    let chars = chars_of(text);
    let n = chars.len();
    if n == 0 {
        return Err(ParseIntKind::Empty);
    }
    let signed = chars[0] == '+' || chars[0] == '-';
    if signed && n == 1 {
        return Err(ParseIntKind::InvalidDigit);
    }
    let negative = chars[0] == '-';
    let start: usize = if signed {
        1
    } else {
        0
    };
    let ghost digits = if signed {
        text@.drop_first()
    } else {
        text@
    };
    assert(digits =~= chars@.subrange(start as int, n as int));
    let mut value: i32 = 0;
    let mut i: usize = start;
    while i < n
        invariant
            chars@ == text@,
            n == chars@.len(),
            start <= i <= n,
            digits == chars@.subrange(start as int, n as int),
            parse_digits(digits, negative, i - start) == Ok::<int, ParseIntKind>(value as int),
        decreases n - i,
    {
        let c = chars[i];
        assert(digits[i - start] == c);
        if c < '0' || c > '9' {
            proof {
                lemma_parse_digits_stops(digits, negative, i - start + 1, digits.len() as int);
            }
            return Err(ParseIntKind::InvalidDigit);
        }
        let d: i64 = (c as u32 - '0' as u32) as i64;
        let w: i64 = if negative {
            (value as i64) * 10 - d
        } else {
            (value as i64) * 10 + d
        };
        if w > 0x7fff_ffff {
            proof {
                lemma_parse_digits_stops(digits, negative, i - start + 1, digits.len() as int);
            }
            return Err(ParseIntKind::PosOverflow);
        }
        if w < -0x8000_0000 {
            proof {
                lemma_parse_digits_stops(digits, negative, i - start + 1, digits.len() as int);
            }
            return Err(ParseIntKind::NegOverflow);
        }
        value = w as i32;
        i = i + 1;
    }
    Ok(value)
}

/// Why the root object of a configuration file is not a config map.
#[derive(Debug)]
pub enum DeserializeError {
    /// The file holds no object at its root.
    NoRootObject,
    /// A root property's number is not a 32-bit integer.
    RootNumber { property: String, value: String, kind: ParseIntKind },
    /// A root property holds `null`.
    RootValue { property: String },
    /// A plugin configuration's `locked` is not a boolean.
    LockedNotBoolean,
    /// A plugin configuration's `associations` array holds something other
    /// than a string.
    AssociationsNotStrings,
    /// A plugin configuration's `associations` is neither a string nor an
    /// array.
    AssociationsKind,
    /// A plugin configuration's property is not a boolean, string or number.
    PropertyKind { parent: String, property: String },
    /// A plugin configuration's number is not a 32-bit integer.
    PropertyNumber { parent: String, property: String, kind: ParseIntKind },
    /// A root array holds something other than a string.
    ArrayElement { parent: String },
}

/// The mathematical value of a [`DeserializeError`].
pub enum DeserializeIssue {
    NoRootObject,
    RootNumber(Seq<char>, Seq<char>, ParseIntKind),
    RootValue(Seq<char>),
    LockedNotBoolean,
    AssociationsNotStrings,
    AssociationsKind,
    PropertyKind(Seq<char>, Seq<char>),
    PropertyNumber(Seq<char>, Seq<char>, ParseIntKind),
    ArrayElement(Seq<char>),
}

impl View for DeserializeError {
    type V = DeserializeIssue;

    open spec fn view(&self) -> DeserializeIssue {
        match self {
            DeserializeError::NoRootObject => DeserializeIssue::NoRootObject,
            DeserializeError::RootNumber { property, value, kind } => DeserializeIssue::RootNumber(
                property@,
                value@,
                *kind,
            ),
            DeserializeError::RootValue { property } => DeserializeIssue::RootValue(property@),
            DeserializeError::LockedNotBoolean => DeserializeIssue::LockedNotBoolean,
            DeserializeError::AssociationsNotStrings => DeserializeIssue::AssociationsNotStrings,
            DeserializeError::AssociationsKind => DeserializeIssue::AssociationsKind,
            DeserializeError::PropertyKind { parent, property } => DeserializeIssue::PropertyKind(parent@, property@),
            DeserializeError::PropertyNumber { parent, property, kind } => DeserializeIssue::PropertyNumber(
                parent@,
                property@,
                *kind,
            ),
            DeserializeError::ArrayElement { parent } => DeserializeIssue::ArrayElement(parent@),
        }
    }
}

/// The text that explains a deserialization error to the user.
pub open spec fn deserialize_message(issue: DeserializeIssue) -> Seq<char> {
    match issue {
        DeserializeIssue::NoRootObject => "Expected a root object in the json"@,
        DeserializeIssue::RootNumber(p, v, k) => "Expected property '"@ + p + "' with value '"@ + v
            + "' to be convertable to a signed integer. "@ + parse_int_message(k),
        DeserializeIssue::RootValue(p) => "Expected an object, boolean, string, or number in root object property '"@
            + p + "'"@,
        DeserializeIssue::LockedNotBoolean => "The 'locked' property in a plugin configuration must be a boolean."@,
        DeserializeIssue::AssociationsNotStrings => "The 'associations' array in a plugin configuration must contain only strings."@,
        DeserializeIssue::AssociationsKind => "The 'associations' property in a plugin configuration must be a string or an array of strings."@,
        DeserializeIssue::PropertyKind(parent, p) => "Expected a boolean, string, or number in object property '"@
            + parent + " -> "@ + p + "'"@,
        DeserializeIssue::PropertyNumber(parent, p, k) => parse_int_message(k) + " in object property '"@ + parent
            + " -> "@ + p + "'"@,
        DeserializeIssue::ArrayElement(parent) => "Expected a string in array '"@ + parent + "'"@,
    }
}

impl DeserializeError {
    /// The text that explains the error to the user.
    pub fn to_string(&self) -> (r: String)
        ensures
            r@ == deserialize_message(self@),
    {
        match self {
            DeserializeError::NoRootObject => copy_str("Expected a root object in the json"),
            DeserializeError::RootNumber { property, value, kind } => {
                let a = concat3("Expected property '", property.as_str(), "' with value '");
                let b = concat3(a.as_str(), value.as_str(), "' to be convertable to a signed integer. ");
                let m = parse_int_message_text(*kind);
                concat2(b.as_str(), m.as_str())
            },
            DeserializeError::RootValue { property } => concat3(
                "Expected an object, boolean, string, or number in root object property '",
                property.as_str(),
                "'",
            ),
            DeserializeError::LockedNotBoolean => copy_str(
                "The 'locked' property in a plugin configuration must be a boolean.",
            ),
            DeserializeError::AssociationsNotStrings => copy_str(
                "The 'associations' array in a plugin configuration must contain only strings.",
            ),
            DeserializeError::AssociationsKind => copy_str(
                "The 'associations' property in a plugin configuration must be a string or an array of strings.",
            ),
            DeserializeError::PropertyKind { parent, property } => {
                let a = concat3(
                    "Expected a boolean, string, or number in object property '",
                    parent.as_str(),
                    " -> ",
                );
                concat3(a.as_str(), property.as_str(), "'")
            },
            DeserializeError::PropertyNumber { parent, property, kind } => {
                let m = parse_int_message_text(*kind);
                let a = concat3(m.as_str(), " in object property '", parent.as_str());
                let b = concat3(a.as_str(), " -> ", property.as_str());
                concat2(b.as_str(), "'")
            },
            DeserializeError::ArrayElement { parent } => concat3("Expected a string in array '", parent.as_str(), "'"),
        }
    }
}

/// The mathematical value of a [`JsonTree`].
pub enum JsonView {
    Null,
    Boolean(bool),
    Number(Seq<char>),
    String(Seq<char>),
    Array(Seq<JsonView>),
    Object(Seq<(Seq<char>, JsonView)>),
}

/// The mathematical value of a JSON value.
pub open spec fn json_view(v: &JsonTree) -> JsonView
    decreases v,
{
    match v {
        JsonTree::Null => JsonView::Null,
        JsonTree::Boolean(b) => JsonView::Boolean(*b),
        JsonTree::Number(t) => JsonView::Number(t@),
        JsonTree::String(t) => JsonView::String(t@),
        JsonTree::Array(a) => JsonView::Array(json_array_view(a@)),
        JsonTree::Object(o) => JsonView::Object(json_object_view(o@)),
    }
}

/// The mathematical values of the elements of a JSON array.
pub open spec fn json_array_view(a: Seq<JsonTree>) -> Seq<JsonView>
    decreases a,
{
    Seq::new(
        a.len(),
        |i: int|
            if 0 <= i < a.len() {
                json_view(&a[i])
            } else {
                JsonView::Null
            },
    )
}

/// The mathematical values of the entries of a JSON object.
pub open spec fn json_object_view(o: Seq<(String, JsonTree)>) -> Seq<(Seq<char>, JsonView)>
    decreases o,
{
    Seq::new(
        o.len(),
        |i: int|
            if 0 <= i < o.len() {
                (o[i].0@, json_view(&o[i].1))
            } else {
                (Seq::empty(), JsonView::Null)
            },
    )
}

impl View for JsonTree {
    type V = JsonView;

    open spec fn view(&self) -> JsonView {
        json_view(self)
    }
}

/// An ordered map with `key` set to `value`: in place when the key is there
/// (as a map's `insert` replaces), else at the end.
pub open spec fn map_insert<V>(m: Seq<(Seq<char>, V)>, key: Seq<char>, value: V) -> Seq<(Seq<char>, V)> {
    match key_index(m, key) {
        Some(i) => m.update(i, (key, value)),
        None => m.push((key, value)),
    }
}

/// Why a value of a plugin configuration is not a plain value: its kind, or
/// its number.
#[derive(Debug, Clone, Copy, PartialEq, Eq, Structural)]
pub enum ValueIssue {
    Kind,
    Number(ParseIntKind),
}

/// A plugin configuration's property value: a boolean, string or 32-bit
/// integer.
pub open spec fn spec_key_value(v: JsonView) -> Result<ValueView, ValueIssue> {
    match v {
        JsonView::Boolean(b) => Ok(ValueView::Bool(b)),
        JsonView::String(t) => Ok(ValueView::String(t)),
        JsonView::Number(t) => match spec_parse_i32(t) {
            Ok(n) => Ok(ValueView::Number(n)),
            Err(k) => Err(ValueIssue::Number(k)),
        },
        _ => Err(ValueIssue::Kind),
    }
}

/// Whether every element is a string.
pub open spec fn all_strings(items: Seq<JsonView>) -> bool {
    forall|i: int| 0 <= i < items.len() ==> (#[trigger] items[i]) is String
}

/// The texts of elements that are all strings.
pub open spec fn strings_of(items: Seq<JsonView>) -> Seq<Seq<char>> {
    items.map_values(|v: JsonView| v->String_0)
}

/// A plugin configuration while its properties are read.
pub struct PluginAcc {
    pub locked: bool,
    pub associations: Option<Seq<Seq<char>>>,
    pub properties: Seq<(Seq<char>, ValueView)>,
}

/// A plugin configuration after one more of its properties: `locked` must be
/// a boolean; `associations` a string or an array of strings; anything else
/// a plain value, set by its name.
pub open spec fn plugin_step(parent: Seq<char>, acc: PluginAcc, key: Seq<char>, value: JsonView) -> Result<PluginAcc, DeserializeIssue> {
    if key == "locked"@ {
        match value {
            JsonView::Boolean(b) => Ok(PluginAcc { locked: b, ..acc }),
            _ => Err(DeserializeIssue::LockedNotBoolean),
        }
    } else if key == "associations"@ {
        match value {
            JsonView::Array(items) => if all_strings(items) {
                Ok(PluginAcc { associations: Some(strings_of(items)), ..acc })
            } else {
                Err(DeserializeIssue::AssociationsNotStrings)
            },
            JsonView::String(t) => Ok(PluginAcc { associations: Some(seq![t]), ..acc }),
            _ => Err(DeserializeIssue::AssociationsKind),
        }
    } else {
        match spec_key_value(value) {
            Ok(x) => Ok(PluginAcc { properties: map_insert(acc.properties, key, x), ..acc }),
            Err(ValueIssue::Kind) => Err(DeserializeIssue::PropertyKind(parent, key)),
            Err(ValueIssue::Number(k)) => Err(DeserializeIssue::PropertyNumber(parent, key, k)),
        }
    }
}

/// A plugin configuration read from the first `n` entries of its object, or
/// the first problem.
pub open spec fn plugin_config_prefix(parent: Seq<char>, entries: Seq<(Seq<char>, JsonView)>, n: int) -> Result<
    PluginAcc,
    DeserializeIssue,
>
    decreases n,
{
    if n <= 0 {
        Ok(PluginAcc { locked: false, associations: None, properties: Seq::empty() })
    } else {
        match plugin_config_prefix(parent, entries, n - 1) {
            Ok(acc) => plugin_step(parent, acc, entries[n - 1].0, entries[n - 1].1),
            Err(e) => Err(e),
        }
    }
}

/// A plugin configuration read from its object.
pub open spec fn spec_plugin_config(parent: Seq<char>, entries: Seq<(Seq<char>, JsonView)>) -> Result<
    PluginConfigView,
    DeserializeIssue,
> {
    match plugin_config_prefix(parent, entries, entries.len() as int) {
        Ok(acc) => Ok(
            PluginConfigView {
                associations: acc.associations,
                locked: acc.locked,
                properties: acc.properties,
                overrides: Seq::empty(),
            },
        ),
        Err(e) => Err(e),
    }
}

/// A root property's value.
pub open spec fn spec_root_value(key: Seq<char>, value: JsonView) -> Result<MapValueView, DeserializeIssue> {
    match value {
        JsonView::Object(o) => match spec_plugin_config(key, o) {
            Ok(c) => Ok(MapValueView::PluginConfig(c)),
            Err(e) => Err(e),
        },
        JsonView::Array(items) => if all_strings(items) {
            Ok(MapValueView::Vec(strings_of(items)))
        } else {
            Err(DeserializeIssue::ArrayElement(key))
        },
        JsonView::Boolean(b) => Ok(MapValueView::KeyValue(ValueView::Bool(b))),
        JsonView::String(t) => Ok(MapValueView::KeyValue(ValueView::String(t))),
        JsonView::Number(t) => match spec_parse_i32(t) {
            Ok(n) => Ok(MapValueView::KeyValue(ValueView::Number(n))),
            Err(k) => Err(DeserializeIssue::RootNumber(key, t, k)),
        },
        JsonView::Null => Err(DeserializeIssue::RootValue(key)),
    }
}

/// The config map read from the first `n` entries of the root object.
pub open spec fn root_prefix(entries: Seq<(Seq<char>, JsonView)>, n: int) -> Result<
    Seq<(Seq<char>, MapValueView)>,
    DeserializeIssue,
>
    decreases n,
{
    if n <= 0 {
        Ok(Seq::empty())
    } else {
        match root_prefix(entries, n - 1) {
            Ok(m) => match spec_root_value(entries[n - 1].0, entries[n - 1].1) {
                Ok(v) => Ok(map_insert(m, entries[n - 1].0, v)),
                Err(e) => Err(e),
            },
            Err(e) => Err(e),
        }
    }
}

/// The config map of a configuration file whose text parsed to `value`: its
/// root must be an object, whose properties are read in order.
pub open spec fn spec_deserialize(value: Option<JsonView>) -> Result<Seq<(Seq<char>, MapValueView)>, DeserializeIssue> {
    match value {
        Some(JsonView::Object(entries)) => root_prefix(entries, entries.len() as int),
        _ => Err(DeserializeIssue::NoRootObject),
    }
}

/// Sets `key` to `value` in an ordered map (see [`map_insert`]).
fn map_set<V>(m: &mut Vec<(String, V)>, key: String, value: V)
    ensures
        key_view(final(m)@) == map_insert(key_view(old(m)@), key@, ()),
        final(m)@.len() == map_insert(key_view(old(m)@), key@, ()).len(),
        match key_index(key_view(old(m)@), key@) {
            Some(i) => final(m)@ == old(m)@.update(i, (final(m)@[i].0, value)) && final(m)@[i].0@ == key@,
            None => final(m)@ == old(m)@.push((key, value)),
        },
{
    proof {
        lemma_key_index(key_view(m@), key@);
    }
    match crate::configuration::find_key(m, key.as_str()) {
        Some(i) => {
            let ghost kv = key@;
            let ghost before = m@;
            let (k, _old) = m.remove(i);
            m.insert(i, (k, value));
            assert(m@ =~= before.update(i as int, (m@[i as int].0, value)));
            assert(key_view(m@) =~= key_view(before).update(i as int, (kv, ())));
        },
        None => {
            let ghost kv = key@;
            let ghost before = m@;
            m.push((key, value));
            assert(key_view(m@) =~= key_view(before).push((kv, ())));
        },
    }
}

/// A plugin configuration's property value (see [`spec_key_value`]).
fn key_value_from_json(v: &JsonTree) -> (r: Result<ConfigKeyValue, ValueIssue>)
    ensures
        match spec_key_value(v@) {
            Ok(x) => r matches Ok(y) && y@ == x,
            Err(e) => r == Err::<ConfigKeyValue, ValueIssue>(e),
        },
{
    match v {
        JsonTree::Boolean(b) => Ok(ConfigKeyValue::Bool(*b)),
        JsonTree::String(t) => Ok(ConfigKeyValue::String(copy_str(t.as_str()))),
        JsonTree::Number(t) => match parse_i32(t.as_str()) {
            Ok(n) => Ok(ConfigKeyValue::Number(n)),
            Err(k) => Err(ValueIssue::Number(k)),
        },
        _ => Err(ValueIssue::Kind),
    }
}

/// The texts of array elements that are all strings; `None` when one is not.
fn strings_from_json(items: &Vec<JsonTree>) -> (r: Option<Vec<String>>)
    ensures
        match r {
            Some(v) => all_strings(json_array_view(items@)) && v.deep_view() == strings_of(json_array_view(items@)),
            None => !all_strings(json_array_view(items@)),
        },
{
    let ghost iv = json_array_view(items@);
    let mut out: Vec<String> = Vec::new();
    let mut i: usize = 0;
    while i < items.len()
        invariant
            i <= items@.len(),
            iv == json_array_view(items@),
            iv.len() == items@.len(),
            forall|j: int| 0 <= j < i ==> (#[trigger] iv[j]) is String,
            out.deep_view() == strings_of(iv.take(i as int)),
        decreases items@.len() - i,
    {
        assert(iv[i as int] == json_view(&items@[i as int]));
        match &items[i] {
            JsonTree::String(t) => {
                let ghost before = out.deep_view();
                out.push(copy_str(t.as_str()));
                assert(out.deep_view() =~= before.push(t@));
                assert(strings_of(iv.take(i + 1)) =~= strings_of(iv.take(i as int)).push(t@));
            },
            _ => {
                assert(!(iv[i as int] is String));
                return None;
            },
        }
        i = i + 1;
    }
    assert(iv.take(i as int) =~= iv);
    Some(out)
}

/// A plugin configuration read from its object (see [`spec_plugin_config`]).
#[verifier::loop_isolation(false)]
fn plugin_config_from_json(parent: &str, entries: &Vec<(String, JsonTree)>) -> (r: Result<RawPluginConfig, DeserializeError>)
    ensures
        match spec_plugin_config(parent@, json_object_view(entries@)) {
            Ok(c) => r matches Ok(x) && x@ == c,
            Err(e) => r matches Err(x) && x@ == e,
        },
{
    let ghost ev = json_object_view(entries@);
    let mut locked = false;
    let mut associations: Option<Vec<String>> = None;
    let mut properties: Vec<(String, ConfigKeyValue)> = Vec::new();
    let mut i: usize = 0;
    assert(object_view(properties@) =~= Seq::<(Seq<char>, ValueView)>::empty());
    while i < entries.len()
        invariant
            i <= entries@.len(),
            ev == json_object_view(entries@),
            ev.len() == entries@.len(),
            plugin_config_prefix(parent@, ev, i as int) == Ok::<PluginAcc, DeserializeIssue>(
                PluginAcc { locked, associations: opt_strings_view(associations), properties: object_view(properties@) },
            ),
        decreases entries@.len() - i,
    {
        let key = &entries[i].0;
        let value = &entries[i].1;
        assert(ev[i as int] == (key@, json_view(value)));
        let ghost acc = PluginAcc { locked, associations: opt_strings_view(associations), properties: object_view(properties@) };
        if str_eq(key.as_str(), "locked") {
            match value {
                JsonTree::Boolean(b) => {
                    locked = *b;
                },
                _ => {
                    proof {
                        lemma_plugin_prefix_stops(parent@, ev, i + 1);
                    }
                    return Err(DeserializeError::LockedNotBoolean);
                },
            }
        } else if str_eq(key.as_str(), "associations") {
            match value {
                JsonTree::Array(items) => match strings_from_json(items) {
                    Some(v) => {
                        associations = Some(v);
                    },
                    None => {
                        proof {
                            lemma_plugin_prefix_stops(parent@, ev, i + 1);
                        }
                        return Err(DeserializeError::AssociationsNotStrings);
                    },
                },
                JsonTree::String(t) => {
                    let mut v: Vec<String> = Vec::new();
                    v.push(copy_str(t.as_str()));
                    assert(v.deep_view() =~= seq![t@]);
                    associations = Some(v);
                },
                _ => {
                    proof {
                        lemma_plugin_prefix_stops(parent@, ev, i + 1);
                    }
                    return Err(DeserializeError::AssociationsKind);
                },
            }
        } else {
            match key_value_from_json(value) {
                Ok(x) => {
                    let ghost before = properties@;
                    let ghost xv = x@;
                    proof {
                        lemma_key_index_same_keys(key_view(properties@), object_view(properties@), key@);
                    }
                    map_set(&mut properties, copy_str(key.as_str()), x);
                    proof {
                        lemma_key_index(key_view(before), key@);
                        match key_index(key_view(before), key@) {
                            Some(k) => {
                                assert(object_view(properties@) =~= object_view(before).update(k, (key@, xv)));
                            },
                            None => {
                                assert(object_view(properties@) =~= object_view(before).push((key@, xv)));
                            },
                        }
                    }
                },
                Err(ValueIssue::Kind) => {
                    proof {
                        lemma_plugin_prefix_stops(parent@, ev, i + 1);
                    }
                    return Err(DeserializeError::PropertyKind { parent: copy_str(parent), property: copy_str(key.as_str()) });
                },
                Err(ValueIssue::Number(k)) => {
                    proof {
                        lemma_plugin_prefix_stops(parent@, ev, i + 1);
                    }
                    return Err(
                        DeserializeError::PropertyNumber {
                            parent: copy_str(parent),
                            property: copy_str(key.as_str()),
                            kind: k,
                        },
                    );
                },
            }
        }
        i = i + 1;
    }
    let r = RawPluginConfig { associations, locked, properties, overrides: Vec::new() };
    assert(crate::configuration::overrides_view(r.overrides@) =~= Seq::<crate::configuration::OverrideView>::empty());
    Ok(r)
}

proof fn lemma_plugin_prefix_stops(parent: Seq<char>, entries: Seq<(Seq<char>, JsonView)>, k: int)
    requires
        0 <= k <= entries.len(),
        plugin_config_prefix(parent, entries, k) is Err,
    ensures
        plugin_config_prefix(parent, entries, entries.len() as int) == plugin_config_prefix(parent, entries, k),
    decreases entries.len() - k,
{
    if k < entries.len() {
        lemma_plugin_prefix_stops(parent, entries, k + 1);
    }
}

proof fn lemma_root_prefix_stops(entries: Seq<(Seq<char>, JsonView)>, k: int)
    requires
        0 <= k <= entries.len(),
        root_prefix(entries, k) is Err,
    ensures
        root_prefix(entries, entries.len() as int) == root_prefix(entries, k),
    decreases entries.len() - k,
{
    if k < entries.len() {
        lemma_root_prefix_stops(entries, k + 1);
    }
}

/// A root property's value (see [`spec_root_value`]).
fn root_value_from_json(key: &str, value: &JsonTree) -> (r: Result<ConfigMapValue, DeserializeError>)
    ensures
        match spec_root_value(key@, value@) {
            Ok(v) => r matches Ok(x) && x@ == v,
            Err(e) => r matches Err(x) && x@ == e,
        },
{
    match value {
        JsonTree::Object(o) => match plugin_config_from_json(key, o) {
            Ok(c) => Ok(ConfigMapValue::PluginConfig(c)),
            Err(e) => Err(e),
        },
        JsonTree::Array(items) => match strings_from_json(items) {
            Some(v) => Ok(ConfigMapValue::Vec(v)),
            None => Err(DeserializeError::ArrayElement { parent: copy_str(key) }),
        },
        JsonTree::Boolean(b) => Ok(ConfigMapValue::KeyValue(ConfigKeyValue::Bool(*b))),
        JsonTree::String(t) => Ok(ConfigMapValue::KeyValue(ConfigKeyValue::String(copy_str(t.as_str())))),
        JsonTree::Number(t) => match parse_i32(t.as_str()) {
            Ok(n) => Ok(ConfigMapValue::KeyValue(ConfigKeyValue::Number(n))),
            Err(k) => Err(DeserializeError::RootNumber { property: copy_str(key), value: copy_str(t.as_str()), kind: k }),
        },
        JsonTree::Null => Err(DeserializeError::RootValue { property: copy_str(key) }),
    }
}

/// The config map of a configuration file whose text parsed to `value` (see
/// [`spec_deserialize`]).
pub fn deserialize_config(value: &Option<JsonTree>) -> (r: Result<Vec<(String, ConfigMapValue)>, DeserializeError>)
    ensures
        match spec_deserialize(
            match value {
                Some(v) => Some(v@),
                None => None,
            },
        ) {
            Ok(m) => r matches Ok(x) && config_map_view(x@) == m,
            Err(e) => r matches Err(x) && x@ == e,
        },
{
    let entries = match value {
        Some(JsonTree::Object(entries)) => entries,
        _ => return Err(DeserializeError::NoRootObject),
    };
    let ghost ev = json_object_view(entries@);
    let mut map: Vec<(String, ConfigMapValue)> = Vec::new();
    let mut i: usize = 0;
    assert(config_map_view(map@) =~= Seq::<(Seq<char>, MapValueView)>::empty());
    while i < entries.len()
        invariant
            i <= entries@.len(),
            ev == json_object_view(entries@),
            ev.len() == entries@.len(),
            value == Some(JsonTree::Object(*entries)),
            root_prefix(ev, i as int) == Ok::<Seq<(Seq<char>, MapValueView)>, DeserializeIssue>(config_map_view(map@)),
        decreases entries@.len() - i,
    {
        let key = &entries[i].0;
        assert(ev[i as int] == (key@, json_view(&entries@[i as int].1)));
        match root_value_from_json(key.as_str(), &entries[i].1) {
            Ok(v) => {
                let ghost before = map@;
                let ghost vv = v@;
                proof {
                    lemma_key_index_same_keys(key_view(map@), config_map_view(map@), key@);
                }
                map_set(&mut map, copy_str(key.as_str()), v);
                proof {
                    lemma_key_index(key_view(before), key@);
                    match key_index(key_view(before), key@) {
                        Some(k) => {
                            assert(config_map_view(map@) =~= config_map_view(before).update(k, (key@, vv)));
                        },
                        None => {
                            assert(config_map_view(map@) =~= config_map_view(before).push((key@, vv)));
                        },
                    }
                }
            },
            Err(e) => {
                proof {
                    lemma_root_prefix_stops(ev, i + 1);
                }
                return Err(e);
            },
        }
        i = i + 1;
    }
    Ok(map)
}

proof fn lemma_map_insert_unique<V>(m: Seq<(Seq<char>, V)>, key: Seq<char>, value: V)
    requires
        unique_keys(m),
    ensures
        unique_keys(map_insert(m, key, value)),
{
    lemma_key_index(m, key);
    let r = map_insert(m, key, value);
    assert forall|i: int, j: int| 0 <= i < j < r.len() implies r[i].0 != r[j].0 by {
        match key_index(m, key) {
            Some(k) => {
                if i != k && j != k {
                    assert(r[i] == m[i] && r[j] == m[j]);
                } else if i == k {
                    assert(r[j] == m[j]);
                } else {
                    assert(r[i] == m[i]);
                }
            },
            None => {
                if j < m.len() {
                    assert(r[i] == m[i] && r[j] == m[j]);
                } else {
                    assert(r[i] == m[i]);
                }
            },
        }
    }
}

/// A configuration file's config map never holds a property twice: a
/// property written twice keeps its last value.
pub proof fn law_deserialized_keys_unique(entries: Seq<(Seq<char>, JsonView)>, n: int)
    ensures
        root_prefix(entries, n) matches Ok(m) ==> unique_keys(m),
    decreases n,
{
    if n > 0 {
        law_deserialized_keys_unique(entries, n - 1);
        if let Ok(m) = root_prefix(entries, n - 1) {
            if let Ok(v) = spec_root_value(entries[n - 1].0, entries[n - 1].1) {
                lemma_map_insert_unique(m, entries[n - 1].0, v);
            }
        }
    }
}


/// What `jsonc_parser::parse_to_value` reads from a configuration file's
/// text with its default options (comments, trailing commas, single quotes
/// and unquoted property names allowed), as the library models JSON: the
/// value (objects keep their properties in the order of the text), none for
/// a text without a value, or the message of the parse error. It depends on
/// the text alone.
pub uninterp spec fn parsed_jsonc(text: Seq<char>) -> Result<Option<JsonView>, Seq<char>>;

#[verifier::external_type_specification]
#[verifier::external_body]
pub struct ExJsoncValue<'a>(jsonc_parser::JsonValue<'a>);

/// The library's value for a value that `jsonc_parser` parsed: each variant
/// becomes the same variant, a number keeps its text. Only called by
/// [`parse_jsonc`], whose contract states what the two together give.
#[verifier::external_body]
fn library_value(value: jsonc_parser::JsonValue) -> JsonTree {
    match value {
        jsonc_parser::JsonValue::Null => JsonTree::Null,
        jsonc_parser::JsonValue::Boolean(b) => JsonTree::Boolean(b),
        jsonc_parser::JsonValue::Number(n) => JsonTree::Number(n.to_string()),
        jsonc_parser::JsonValue::String(s) => JsonTree::String(s.into_owned()),
        jsonc_parser::JsonValue::Array(a) => JsonTree::Array(a.into_iter().map(library_value).collect()),
        jsonc_parser::JsonValue::Object(o) => JsonTree::Object(
            o.into_iter().map(|(k, v)| (k.into_owned(), library_value(v))).collect(),
        ),
    }
}

/// `jsonc_parser::parse_to_value` with the default options: the text's JSON
/// value as the library models it, or the parse error's message. The
/// result is named [`parsed_jsonc`]; nothing more is stated of it.
#[verifier::external_body]
pub(crate) fn parse_jsonc(text: &str) -> (r: Result<Option<JsonTree>, String>)
    ensures
        match parsed_jsonc(text@) {
            Ok(Some(v)) => r matches Ok(Some(x)) && x@ == v,
            Ok(None) => r matches Ok(None),
            Err(m) => r matches Err(e) && e@ == m,
        },
{
    match jsonc_parser::parse_to_value(text, &Default::default()) {
        Ok(Some(value)) => Ok(Some(library_value(value))),
        Ok(None) => Ok(None),
        Err(err) => Err(err.to_string()),
    }
}

/// Why a configuration file's text is not a configuration: it does not
/// parse, or its value is not one (see [`DeserializeError`]).
#[derive(Debug)]
pub enum DeserializeTextError {
    Parse(String),
    Config(DeserializeError),
}

impl DeserializeTextError {
    /// The text that explains the error to the user.
    pub fn to_string(&self) -> (r: String)
        ensures
            r@ == match self {
                DeserializeTextError::Parse(m) => m@,
                DeserializeTextError::Config(e) => deserialize_message(e@),
            },
    {
        match self {
            DeserializeTextError::Parse(m) => copy_str(m.as_str()),
            DeserializeTextError::Config(e) => e.to_string(),
        }
    }
}

/// The configuration map of a configuration file's text: its JSON as the
/// parser reads it (see [`parsed_jsonc`]), then deserialized (see
/// [`deserialize_config`]).
pub fn deserialize_config_text(text: &str) -> (r: Result<Vec<(String, ConfigMapValue)>, DeserializeTextError>)
    ensures
        match parsed_jsonc(text@) {
            Err(m) => r matches Err(e) && e matches DeserializeTextError::Parse(x) && x@ == m,
            Ok(v) => match spec_deserialize(v) {
                Ok(m) => r matches Ok(x) && config_map_view(x@) == m,
                Err(e) => r matches Err(x) && x matches DeserializeTextError::Config(d) && d@ == e,
            },
        },
{
    match parse_jsonc(text) {
        Err(m) => Err(DeserializeTextError::Parse(m)),
        Ok(value) => match deserialize_config(&value) {
            Ok(map) => Ok(map),
            Err(e) => Err(DeserializeTextError::Config(e)),
        },
    }
}

} // verus!
