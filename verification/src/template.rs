//! Expansion of the `${configDir}` and `${originConfigDir}` templates in the
//! string values of a configuration file.
use vstd::prelude::*;
use crate::text::{concat3, copy_str, chars_of, string_of};
use crate::configuration::{
    ConfigKeyValue, ValueView, ConfigMapValue, MapValueView, RawPluginConfig, PluginConfigView,
    array_view, object_view, config_map_view, opt_strings_view,
};
use crate::permissions::copy_strings;

verus! {

/// Where a configuration file came from, as far as templates care: the
/// directory of a local file, the url of a remote one, or the specifier of an
/// npm package.
#[derive(Debug)]
pub enum TemplateSource {
    Local { dir: String },
    Remote { url: String },
    Npm { specifier: String },
}

/// The mathematical value of a [`TemplateSource`].
pub enum SourceView {
    Local(Seq<char>),
    Remote(Seq<char>),
    Npm(Seq<char>),
}

impl View for TemplateSource {
    type V = SourceView;

    open spec fn view(&self) -> SourceView {
        match self {
            TemplateSource::Local { dir } => SourceView::Local(dir@),
            TemplateSource::Remote { url } => SourceView::Remote(url@),
            TemplateSource::Npm { specifier } => SourceView::Npm(specifier@),
        }
    }
}

/// Why a template could not be expanded.
#[derive(Debug)]
pub enum TemplateError {
    /// `${configDir}` in a configuration file that is not local.
    ConfigDirNotLocal,
    /// `${originConfigDir}` when the origin configuration file is remote.
    OriginRemote { url: String },
    /// `${originConfigDir}` when the origin configuration file is an npm package.
    OriginNpm { specifier: String },
    /// A template name other than the supported ones.
    Unknown { name: String },
}

/// The mathematical value of a [`TemplateError`].
pub enum TemplateIssue {
    ConfigDirNotLocal,
    OriginRemote(Seq<char>),
    OriginNpm(Seq<char>),
    Unknown(Seq<char>),
}

impl View for TemplateError {
    type V = TemplateIssue;

    open spec fn view(&self) -> TemplateIssue {
        match self {
            TemplateError::ConfigDirNotLocal => TemplateIssue::ConfigDirNotLocal,
            TemplateError::OriginRemote { url } => TemplateIssue::OriginRemote(url@),
            TemplateError::OriginNpm { specifier } => TemplateIssue::OriginNpm(specifier@),
            TemplateError::Unknown { name } => TemplateIssue::Unknown(name@),
        }
    }
}

/// The text a template stands for: `configDir` is the directory of the file
/// being read, `originConfigDir` that of the file that started the chain of
/// `extends`; an empty name stands for nothing.
pub open spec fn template_value(name: Seq<char>, current: SourceView, origin: SourceView) -> Result<
    Seq<char>,
    TemplateIssue,
> {
    if name == "configDir"@ {
        match current {
            SourceView::Local(dir) => Ok(dir),
            _ => Err(TemplateIssue::ConfigDirNotLocal),
        }
    } else if name == "originConfigDir"@ {
        match origin {
            SourceView::Local(dir) => Ok(dir),
            SourceView::Remote(url) => Err(TemplateIssue::OriginRemote(url)),
            SourceView::Npm(specifier) => Err(TemplateIssue::OriginNpm(specifier)),
        }
    } else if name.len() == 0 {
        Ok(Seq::empty())
    } else {
        Err(TemplateIssue::Unknown(name))
    }
}

/// The first index at or after `from` holding `c`, if any.
pub open spec fn find_from(s: Seq<char>, from: int, c: char) -> Option<int>
    decreases s.len() - from,
{
    if from < 0 || from >= s.len() {
        None
    } else if s[from] == c {
        Some(from)
    } else {
        find_from(s, from + 1, c)
    }
}

pub proof fn lemma_find_from(s: Seq<char>, from: int, c: char)
    requires
        0 <= from,
    ensures
        match find_from(s, from, c) {
            Some(j) => from <= j < s.len() && s[j] == c && forall|k: int| from <= k < j ==> s[k] != c,
            None => forall|k: int| from <= k < s.len() ==> s[k] != c,
        },
    decreases s.len() - from,
{
    if from < s.len() && s[from] != c {
        lemma_find_from(s, from + 1, c);
    }
}

/// Finds the first `c` at or after `from`, or gives the length when there is none.
fn find_char_from(s: &Vec<char>, from: usize, c: char) -> (r: usize)
    requires
        from <= s@.len(),
    ensures
        match find_from(s@, from as int, c) {
            Some(j) => r == j,
            None => r == s@.len(),
        },
{
    let mut j: usize = from;
    while j < s.len() && s[j] != c
        invariant
            from <= j <= s@.len(),
            find_from(s@, from as int, c) == find_from(s@, j as int, c),
        decreases s@.len() - j,
    {
        j = j + 1;
    }
    j
}

/// Appends `src[from..to]` to `out`.
fn push_range(out: &mut Vec<char>, src: &Vec<char>, from: usize, to: usize)
    requires
        from <= to <= src@.len(),
    ensures
        final(out)@ == old(out)@ + src@.subrange(from as int, to as int),
{
    let ghost start = out@;
    let mut k: usize = from;
    while k < to
        invariant
            from <= k <= to,
            to <= src@.len(),
            out@ == start + src@.subrange(from as int, k as int),
        decreases to - k,
    {
        out.push(src[k]);
        k = k + 1;
        assert(out@ =~= start + src@.subrange(from as int, k as int));
    }
}

/// `text` put in front of a successful expansion.
pub open spec fn prepend(text: Seq<char>, r: Result<Seq<char>, TemplateIssue>) -> Result<
    Seq<char>,
    TemplateIssue,
> {
    match r {
        Ok(rest) => Ok(text + rest),
        Err(e) => Err(e),
    }
}

/// A string with its templates expanded, reading from the left:
/// - `\$` stands for `$` (the backslash escapes the dollar sign);
/// - `${name}` stands for the value of the template `name`;
/// - a `${` that is never closed, and everything after it, stays as it is;
/// - any other character stands for itself.
/// The first template that cannot be expanded is the error.
pub open spec fn expand(s: Seq<char>, current: SourceView, origin: SourceView) -> Result<
    Seq<char>,
    TemplateIssue,
>
    decreases s.len(),
{
    if s.len() == 0 {
        Ok(Seq::empty())
    } else if s.len() >= 2 && s[0] == '\\' && s[1] == '$' {
        prepend(seq!['$'], expand(s.skip(2), current, origin))
    } else if s.len() >= 2 && s[0] == '$' && s[1] == '{' {
        match find_from(s, 2, '}') {
            Some(j) => {
                proof {
                    lemma_find_from(s, 2, '}');
                }
                match template_value(s.subrange(2, j), current, origin) {
                    Ok(value) => prepend(value, expand(s.skip(j + 1), current, origin)),
                    Err(e) => Err(e),
                }
            },
            None => Ok(s),
        }
    } else {
        prepend(seq![s[0]], expand(s.skip(1), current, origin))
    }
}

proof fn lemma_prepend_assoc(a: Seq<char>, b: Seq<char>, r: Result<Seq<char>, TemplateIssue>)
    ensures
        prepend(a, prepend(b, r)) == prepend(a + b, r),
{
    match r {
        Ok(x) => {
            assert(a + (b + x) =~= a + b + x);
        },
        Err(_) => {},
    }
}

/// The value of the template `name` (see [`template_value`]).
fn expand_template_name(name: &Vec<char>, current: &TemplateSource, origin: &TemplateSource) -> (r: Result<
    String,
    TemplateError,
>)
    ensures
        match r {
            Ok(v) => template_value(name@, current@, origin@) == Ok::<Seq<char>, TemplateIssue>(v@),
            Err(e) => template_value(name@, current@, origin@) == Err::<Seq<char>, TemplateIssue>(e@),
        },
{
    let name_str = string_of(name.as_slice());
    let is_config_dir = crate::text::str_eq(name_str.as_str(), "configDir");
    let is_origin = crate::text::str_eq(name_str.as_str(), "originConfigDir");
    if is_config_dir {
        match current {
            TemplateSource::Local { dir } => Ok(copy_str(dir.as_str())),
            _ => Err(TemplateError::ConfigDirNotLocal),
        }
    } else if is_origin {
        match origin {
            TemplateSource::Local { dir } => Ok(copy_str(dir.as_str())),
            TemplateSource::Remote { url } => Err(TemplateError::OriginRemote { url: copy_str(url.as_str()) }),
            TemplateSource::Npm { specifier } => Err(
                TemplateError::OriginNpm { specifier: copy_str(specifier.as_str()) },
            ),
        }
    } else if name.len() == 0 {
        Ok(String::new())
    } else {
        Err(TemplateError::Unknown { name: name_str })
    }
}

/// Expands the templates of a string value (see [`expand`]); a string with
/// nothing to expand comes back as it was.
pub fn expand_templates(value: &str, current: &TemplateSource, origin: &TemplateSource) -> (r: Result<
    String,
    TemplateError,
>)
    ensures
        match r {
            Ok(v) => expand(value@, current@, origin@) == Ok::<Seq<char>, TemplateIssue>(v@),
            Err(e) => expand(value@, current@, origin@) == Err::<Seq<char>, TemplateIssue>(e@),
        },
{
    let s = chars_of(value);
    let n = s.len();
    let mut out: Vec<char> = Vec::new();
    let mut i: usize = 0;
    assert(s@.skip(0) =~= s@);
    while i < n
        invariant
            s@ == value@,
            n == s@.len(),
            i <= n,
            expand(value@, current@, origin@) == prepend(out@, expand(s@.skip(i as int), current@, origin@)),
        decreases n - i,
    {
        let ghost rest = s@.skip(i as int);
        let ghost before = out@;
        if s[i] == '\\' && i + 1 < n && s[i + 1] == '$' {
            out.push('$');
            proof {
                assert(rest.skip(2) =~= s@.skip(i + 2));
                lemma_prepend_assoc(before, seq!['$'], expand(rest.skip(2), current@, origin@));
                assert(before + seq!['$'] =~= out@);
            }
            i = i + 2;
        } else if s[i] == '$' && i + 1 < n && s[i + 1] == '{' {
            let j = find_char_from(&s, i + 2, '}');
            proof {
                lemma_find_from(s@, i + 2, '}');
                lemma_find_from(rest, 2, '}');
                assert forall|k: int| 2 <= k < rest.len() implies rest[k] == s@[i + k] by {}
                if j < n {
                    assert(find_from(rest, 2, '}') == Some((j - i) as int)) by {
                        let w = find_from(rest, 2, '}');
                        assert(rest[(j - i) as int] == '}');
                        if let Some(w) = w {
                            assert(s@[i + w] == '}');
                        }
                    }
                } else {
                    assert(find_from(rest, 2, '}') is None) by {
                        if let Some(w) = find_from(rest, 2, '}') {
                            assert(s@[i + w] == '}');
                        }
                    }
                }
            }
            if j == n {
                push_range(&mut out, &s, i, n);
                assert(s@.subrange(i as int, n as int) =~= rest);
                assert(s@.skip(n as int) =~= Seq::<char>::empty());
                assert(out@ =~= out@ + Seq::<char>::empty());
                i = n;
            } else {
                let mut name: Vec<char> = Vec::new();
                push_range(&mut name, &s, i + 2, j);
                let ghost jj = (j - i) as int;
                assert(rest.subrange(2, jj) =~= name@);
                assert(rest.skip(jj + 1) =~= s@.skip(j + 1));
                match expand_template_name(&name, current, origin) {
                    Ok(text) => {
                        let tv = chars_of(text.as_str());
                        push_range(&mut out, &tv, 0, tv.len());
                        assert(tv@.subrange(0, tv@.len() as int) =~= text@);
                        proof {
                            lemma_prepend_assoc(before, text@, expand(rest.skip(jj + 1), current@, origin@));
                        }
                        i = j + 1;
                    },
                    Err(e) => {
                        return Err(e);
                    },
                }
            }
        } else {
            out.push(s[i]);
            proof {
                assert(rest.skip(1) =~= s@.skip(i + 1));
                lemma_prepend_assoc(before, seq![s@[i as int]], expand(rest.skip(1), current@, origin@));
                assert(before + seq![s@[i as int]] =~= out@);
            }
            i = i + 1;
        }
    }
    assert(s@.skip(n as int) =~= Seq::<char>::empty());
    assert(out@ + Seq::<char>::empty() =~= out@);
    Ok(string_of(out.as_slice()))
}

/// The text that explains a template error to the user.
pub open spec fn spec_template_message(issue: TemplateIssue) -> Seq<char> {
    match issue {
        TemplateIssue::ConfigDirNotLocal => "Cannot use ${configDir} template in remote configuration files. Maybe use ${originConfigDir} instead?"@,
        TemplateIssue::OriginRemote(url) => "Cannot use ${originConfigDir} template when the origin configuration file ("@
            + url + ") is remote."@,
        TemplateIssue::OriginNpm(specifier) => "Cannot use ${originConfigDir} template when the origin configuration file ("@
            + specifier + ") is an npm package."@,
        TemplateIssue::Unknown(name) => "Unknown template literal ${"@ + name
            + "}. Only ${configDir} and ${originConfigDir} are supported. If you meant to pass this to a plugin, escape the dollar sign with two back slashes."@,
    }
}

impl TemplateError {
    /// The text that explains the error to the user.
    pub fn to_string(&self) -> (r: String)
        ensures
            r@ == spec_template_message(self@),
    {
        match self {
            TemplateError::ConfigDirNotLocal => copy_str(
                "Cannot use ${configDir} template in remote configuration files. Maybe use ${originConfigDir} instead?",
            ),
            TemplateError::OriginRemote { url } => concat3(
                "Cannot use ${originConfigDir} template when the origin configuration file (",
                url.as_str(),
                ") is remote.",
            ),
            TemplateError::OriginNpm { specifier } => concat3(
                "Cannot use ${originConfigDir} template when the origin configuration file (",
                specifier.as_str(),
                ") is an npm package.",
            ),
            TemplateError::Unknown { name } => concat3(
                "Unknown template literal ${",
                name.as_str(),
                "}. Only ${configDir} and ${originConfigDir} are supported. If you meant to pass this to a plugin, escape the dollar sign with two back slashes.",
            ),
        }
    }
}


/// A configuration value with the templates of all its strings expanded, or
/// the first template, in order, that cannot be.
pub open spec fn expand_value(v: ValueView, current: SourceView, origin: SourceView) -> Result<
    ValueView,
    TemplateIssue,
>
    decreases v,
{
    match v {
        ValueView::String(s) => match expand(s, current, origin) {
            Ok(t) => Ok(ValueView::String(t)),
            Err(e) => Err(e),
        },
        ValueView::Array(a) => match expand_array(a, current, origin) {
            Ok(t) => Ok(ValueView::Array(t)),
            Err(e) => Err(e),
        },
        ValueView::Object(o) => match expand_object(o, current, origin) {
            Ok(t) => Ok(ValueView::Object(t)),
            Err(e) => Err(e),
        },
        _ => Ok(v),
    }
}

/// The elements of an array with their templates expanded, in order.
pub open spec fn expand_array(a: Seq<ValueView>, current: SourceView, origin: SourceView) -> Result<
    Seq<ValueView>,
    TemplateIssue,
>
    decreases a,
{
    if a.len() == 0 {
        Ok(Seq::empty())
    } else {
        match expand_array(a.drop_last(), current, origin) {
            Ok(p) => match expand_value(a[a.len() - 1], current, origin) {
                Ok(x) => Ok(p.push(x)),
                Err(e) => Err(e),
            },
            Err(e) => Err(e),
        }
    }
}

/// The entries of an object with the templates of their values expanded, in
/// order; the keys stay as they are.
pub open spec fn expand_object(
    o: Seq<(Seq<char>, ValueView)>,
    current: SourceView,
    origin: SourceView,
) -> Result<Seq<(Seq<char>, ValueView)>, TemplateIssue>
    decreases o,
{
    if o.len() == 0 {
        Ok(Seq::empty())
    } else {
        match expand_object(o.drop_last(), current, origin) {
            Ok(p) => match expand_value(o[o.len() - 1].1, current, origin) {
                Ok(x) => Ok(p.push((o[o.len() - 1].0, x))),
                Err(e) => Err(e),
            },
            Err(e) => Err(e),
        }
    }
}

/// A list of strings with their templates expanded, in order.
pub open spec fn expand_strings(v: Seq<Seq<char>>, current: SourceView, origin: SourceView) -> Result<
    Seq<Seq<char>>,
    TemplateIssue,
>
    decreases v.len(),
{
    if v.len() == 0 {
        Ok(Seq::empty())
    } else {
        match expand_strings(v.drop_last(), current, origin) {
            Ok(p) => match expand(v.last(), current, origin) {
                Ok(x) => Ok(p.push(x)),
                Err(e) => Err(e),
            },
            Err(e) => Err(e),
        }
    }
}

/// A value of the root object with its templates expanded: a plain value
/// wholly, a plugin configuration in its properties, a list in its strings.
pub open spec fn expand_map_value(v: MapValueView, current: SourceView, origin: SourceView) -> Result<
    MapValueView,
    TemplateIssue,
> {
    match v {
        MapValueView::KeyValue(kv) => match expand_value(kv, current, origin) {
            Ok(x) => Ok(MapValueView::KeyValue(x)),
            Err(e) => Err(e),
        },
        MapValueView::PluginConfig(c) => match expand_object(c.properties, current, origin) {
            Ok(p) => Ok(MapValueView::PluginConfig(PluginConfigView { properties: p, ..c })),
            Err(e) => Err(e),
        },
        MapValueView::Vec(v) => match expand_strings(v, current, origin) {
            Ok(x) => Ok(MapValueView::Vec(x)),
            Err(e) => Err(e),
        },
    }
}

/// The root object with the templates of all its values expanded, in order.
pub open spec fn expand_map(m: Seq<(Seq<char>, MapValueView)>, current: SourceView, origin: SourceView) -> Result<
    Seq<(Seq<char>, MapValueView)>,
    TemplateIssue,
>
    decreases m.len(),
{
    if m.len() == 0 {
        Ok(Seq::empty())
    } else {
        match expand_map(m.drop_last(), current, origin) {
            Ok(p) => match expand_map_value(m.last().1, current, origin) {
                Ok(x) => Ok(p.push((m.last().0, x))),
                Err(e) => Err(e),
            },
            Err(e) => Err(e),
        }
    }
}

/// A configuration value with its templates expanded (see [`expand_value`]).
#[verifier::loop_isolation(false)]
pub fn expand_key_value(value: &ConfigKeyValue, current: &TemplateSource, origin: &TemplateSource) -> (r: Result<
    ConfigKeyValue,
    TemplateError,
>)
    ensures
        match r {
            Ok(x) => expand_value(value@, current@, origin@) == Ok::<ValueView, TemplateIssue>(x@),
            Err(e) => expand_value(value@, current@, origin@) == Err::<ValueView, TemplateIssue>(e@),
        },
    decreases value,
{
    match value {
        ConfigKeyValue::String(s) => match expand_templates(s.as_str(), current, origin) {
            Ok(t) => Ok(ConfigKeyValue::String(t)),
            Err(e) => Err(e),
        },
        ConfigKeyValue::Number(n) => Ok(ConfigKeyValue::Number(*n)),
        ConfigKeyValue::Bool(b) => Ok(ConfigKeyValue::Bool(*b)),
        ConfigKeyValue::Null => Ok(ConfigKeyValue::Null),
        ConfigKeyValue::Array(a) => {
            let ghost av = array_view(a@);
            let mut out: Vec<ConfigKeyValue> = Vec::new();
            let mut i: usize = 0;
            assert(av.take(0) =~= Seq::<ValueView>::empty());
            assert(array_view(out@) =~= Seq::<ValueView>::empty());
            while i < a.len()
                invariant
                    i <= a@.len(),
                    av == array_view(a@),
                    av.len() == a@.len(),
                    expand_array(av.take(i as int), current@, origin@) == Ok::<Seq<ValueView>, TemplateIssue>(
                        array_view(out@),
                    ),
                decreases a@.len() - i,
            {
                assert(av.take(i + 1).drop_last() =~= av.take(i as int));
                assert(av[i as int] == a@[i as int]@);
                assert(decreases_to!(value => a@[i as int]));
                match expand_key_value(&a[i], current, origin) {
                    Ok(x) => {
                        let ghost before = array_view(out@);
                        out.push(x);
                        assert(array_view(out@) =~= before.push(x@));
                    },
                    Err(e) => {
                        proof {
                            lemma_array_error(av, i as int, current@, origin@);
                        }
                        return Err(e);
                    },
                }
                i = i + 1;
            }
            assert(av.take(i as int) =~= av);
            Ok(ConfigKeyValue::Array(out))
        },
        ConfigKeyValue::Object(o) => {
            match expand_entries(o, current, origin) {
                Ok(x) => Ok(ConfigKeyValue::Object(x)),
                Err(e) => Err(e),
            }
        },
    }
}

proof fn lemma_array_error(a: Seq<ValueView>, k: int, current: SourceView, origin: SourceView)
    requires
        0 <= k < a.len(),
        expand_array(a.take(k + 1), current, origin) is Err,
    ensures
        expand_array(a, current, origin) == expand_array(a.take(k + 1), current, origin),
    decreases a.len() - k,
{
    if k + 1 < a.len() {
        assert(a.take(k + 2).drop_last() =~= a.take(k + 1));
        lemma_array_error(a, k + 1, current, origin);
    } else {
        assert(a.take(k + 1) =~= a);
    }
}

proof fn lemma_object_error(o: Seq<(Seq<char>, ValueView)>, k: int, current: SourceView, origin: SourceView)
    requires
        0 <= k < o.len(),
        expand_object(o.take(k + 1), current, origin) is Err,
    ensures
        expand_object(o, current, origin) == expand_object(o.take(k + 1), current, origin),
    decreases o.len() - k,
{
    if k + 1 < o.len() {
        assert(o.take(k + 2).drop_last() =~= o.take(k + 1));
        lemma_object_error(o, k + 1, current, origin);
    } else {
        assert(o.take(k + 1) =~= o);
    }
}

/// The entries of an object with the templates of their values expanded
/// (see [`expand_object`]).
fn expand_entries(o: &Vec<(String, ConfigKeyValue)>, current: &TemplateSource, origin: &TemplateSource) -> (r: Result<
    Vec<(String, ConfigKeyValue)>,
    TemplateError,
>)
    ensures
        match r {
            Ok(x) => expand_object(object_view(o@), current@, origin@) == Ok::<
                Seq<(Seq<char>, ValueView)>,
                TemplateIssue,
            >(object_view(x@)),
            Err(e) => expand_object(object_view(o@), current@, origin@) == Err::<
                Seq<(Seq<char>, ValueView)>,
                TemplateIssue,
            >(e@),
        },
    decreases o,
{
    let ghost ov = object_view(o@);
    let mut out: Vec<(String, ConfigKeyValue)> = Vec::new();
    let mut i: usize = 0;
    assert(ov.take(0) =~= Seq::<(Seq<char>, ValueView)>::empty());
    assert(object_view(out@) =~= Seq::<(Seq<char>, ValueView)>::empty());
    while i < o.len()
        invariant
            i <= o@.len(),
            ov == object_view(o@),
            ov.len() == o@.len(),
            expand_object(ov.take(i as int), current@, origin@) == Ok::<
                Seq<(Seq<char>, ValueView)>,
                TemplateIssue,
            >(object_view(out@)),
        decreases o@.len() - i,
    {
        assert(ov.take(i + 1).drop_last() =~= ov.take(i as int));
        assert(ov[i as int] == (o@[i as int].0@, o@[i as int].1@));
        assert(decreases_to!(o => o@[i as int].1));
        match expand_key_value(&o[i].1, current, origin) {
            Ok(x) => {
                let ghost before = object_view(out@);
                out.push((copy_str(o[i].0.as_str()), x));
                assert(object_view(out@) =~= before.push((o@[i as int].0@, x@)));
            },
            Err(e) => {
                proof {
                    lemma_object_error(ov, i as int, current@, origin@);
                }
                return Err(e);
            },
        }
        i = i + 1;
    }
    assert(ov.take(i as int) =~= ov);
    Ok(out)
}

/// A list of strings with their templates expanded (see [`expand_strings`]).
fn expand_string_list(v: &Vec<String>, current: &TemplateSource, origin: &TemplateSource) -> (r: Result<
    Vec<String>,
    TemplateError,
>)
    ensures
        match r {
            Ok(x) => expand_strings(v.deep_view(), current@, origin@) == Ok::<Seq<Seq<char>>, TemplateIssue>(
                x.deep_view(),
            ),
            Err(e) => expand_strings(v.deep_view(), current@, origin@) == Err::<Seq<Seq<char>>, TemplateIssue>(
                e@,
            ),
        },
{
    let ghost vv = v.deep_view();
    let mut out: Vec<String> = Vec::new();
    let mut i: usize = 0;
    assert(vv.take(0) =~= Seq::<Seq<char>>::empty());
    assert(out.deep_view() =~= Seq::<Seq<char>>::empty());
    while i < v.len()
        invariant
            i <= v@.len(),
            vv == v.deep_view(),
            vv.len() == v@.len(),
            expand_strings(vv.take(i as int), current@, origin@) == Ok::<Seq<Seq<char>>, TemplateIssue>(
                out.deep_view(),
            ),
        decreases v@.len() - i,
    {
        assert(vv.take(i + 1).drop_last() =~= vv.take(i as int));
        assert(vv[i as int] == v@[i as int]@);
        match expand_templates(v[i].as_str(), current, origin) {
            Ok(x) => {
                let ghost before = out.deep_view();
                out.push(x);
                assert(out.deep_view() =~= before.push(x@));
            },
            Err(e) => {
                proof {
                    lemma_strings_error(vv, i as int, current@, origin@);
                }
                return Err(e);
            },
        }
        i = i + 1;
    }
    assert(vv.take(i as int) =~= vv);
    Ok(out)
}

proof fn lemma_strings_error(v: Seq<Seq<char>>, k: int, current: SourceView, origin: SourceView)
    requires
        0 <= k < v.len(),
        expand_strings(v.take(k + 1), current, origin) is Err,
    ensures
        expand_strings(v, current, origin) == expand_strings(v.take(k + 1), current, origin),
    decreases v.len() - k,
{
    if k + 1 < v.len() {
        assert(v.take(k + 2).drop_last() =~= v.take(k + 1));
        lemma_strings_error(v, k + 1, current, origin);
    } else {
        assert(v.take(k + 1) =~= v);
    }
}

proof fn lemma_map_error(m: Seq<(Seq<char>, MapValueView)>, k: int, current: SourceView, origin: SourceView)
    requires
        0 <= k < m.len(),
        expand_map(m.take(k + 1), current, origin) is Err,
    ensures
        expand_map(m, current, origin) == expand_map(m.take(k + 1), current, origin),
    decreases m.len() - k,
{
    if k + 1 < m.len() {
        assert(m.take(k + 2).drop_last() =~= m.take(k + 1));
        lemma_map_error(m, k + 1, current, origin);
    } else {
        assert(m.take(k + 1) =~= m);
    }
}

/// A value of the root object with its templates expanded (see
/// [`expand_map_value`]).
fn expand_config_map_value(value: &ConfigMapValue, current: &TemplateSource, origin: &TemplateSource) -> (r: Result<
    ConfigMapValue,
    TemplateError,
>)
    ensures
        match r {
            Ok(x) => expand_map_value(value@, current@, origin@) == Ok::<MapValueView, TemplateIssue>(x@),
            Err(e) => expand_map_value(value@, current@, origin@) == Err::<MapValueView, TemplateIssue>(e@),
        },
{
    match value {
        ConfigMapValue::KeyValue(kv) => match expand_key_value(kv, current, origin) {
            Ok(x) => Ok(ConfigMapValue::KeyValue(x)),
            Err(e) => Err(e),
        },
        ConfigMapValue::PluginConfig(c) => match expand_entries(&c.properties, current, origin) {
            Ok(p) => {
                let associations = match &c.associations {
                    Some(a) => Some(copy_strings(a)),
                    None => None,
                };
                let r = RawPluginConfig {
                    associations,
                    locked: c.locked,
                    properties: p,
                    overrides: crate::configuration::duplicate_overrides(&c.overrides),
                };
                assert(r@ == PluginConfigView { properties: r@.properties, ..c@ });
                Ok(ConfigMapValue::PluginConfig(r))
            },
            Err(e) => Err(e),
        },
        ConfigMapValue::Vec(v) => match expand_string_list(v, current, origin) {
            Ok(x) => Ok(ConfigMapValue::Vec(x)),
            Err(e) => Err(e),
        },
    }
}

/// Expands the `${configDir}` and `${originConfigDir}` templates in every
/// string of a configuration file's root object (see [`expand_map`]). The
/// first template that cannot be expanded is the error, and the map is then
/// left as it was.
pub fn template_expand(
    current: &TemplateSource,
    origin: &TemplateSource,
    config_map: &mut Vec<(String, ConfigMapValue)>,
) -> (r: Result<(), TemplateError>)
    ensures
        match expand_map(config_map_view(old(config_map)@), current@, origin@) {
            Ok(m) => r is Ok && config_map_view(final(config_map)@) == m,
            Err(e) => r matches Err(x) && x@ == e && final(config_map)@ == old(config_map)@,
        },
{
    let ghost mv = config_map_view(config_map@);
    let mut out: Vec<(String, ConfigMapValue)> = Vec::new();
    let mut i: usize = 0;
    assert(mv.take(0) =~= Seq::<(Seq<char>, MapValueView)>::empty());
    assert(config_map_view(out@) =~= Seq::<(Seq<char>, MapValueView)>::empty());
    while i < config_map.len()
        invariant
            i <= config_map@.len(),
            config_map@ == old(config_map)@,
            mv == config_map_view(config_map@),
            expand_map(mv.take(i as int), current@, origin@) == Ok::<
                Seq<(Seq<char>, MapValueView)>,
                TemplateIssue,
            >(config_map_view(out@)),
        decreases config_map@.len() - i,
    {
        assert(mv.take(i + 1).drop_last() =~= mv.take(i as int));
        assert(mv[i as int] == (config_map@[i as int].0@, config_map@[i as int].1@));
        match expand_config_map_value(&config_map[i].1, current, origin) {
            Ok(x) => {
                let ghost before = config_map_view(out@);
                out.push((copy_str(config_map[i].0.as_str()), x));
                assert(config_map_view(out@) =~= before.push((config_map@[i as int].0@, x@)));
            },
            Err(e) => {
                proof {
                    lemma_map_error(mv, i as int, current@, origin@);
                }
                return Err(e);
            },
        }
        i = i + 1;
    }
    assert(mv.take(i as int) =~= mv);
    *config_map = out;
    Ok(())
}

/// A string without a dollar sign has no template to expand: it comes back
/// as it is, whatever the sources.
pub proof fn law_expand_without_dollar(s: Seq<char>, current: SourceView, origin: SourceView)
    requires
        !s.contains('$'),
    ensures
        expand(s, current, origin) == Ok::<Seq<char>, TemplateIssue>(s),
    decreases s.len(),
{
    if s.len() > 0 {
        assert(s[0] != '$');
        if s.len() >= 2 {
            assert(s[1] != '$');
        }
        let rest = s.skip(1);
        assert(!rest.contains('$')) by {
            if rest.contains('$') {
                let k = choose|k: int| 0 <= k < rest.len() && rest[k] == '$';
                assert(s[k + 1] == '$');
            }
        }
        law_expand_without_dollar(rest, current, origin);
        assert(seq![s[0]] + rest =~= s);
    } else {
        assert(s =~= Seq::<char>::empty());
    }
}

proof fn lemma_expand_array_each(a: Seq<ValueView>, current: SourceView, origin: SourceView)
    ensures
        expand_array(a, current, origin) is Ok <==> forall|i: int|
            0 <= i < a.len() ==> #[trigger] expand_value(a[i], current, origin) is Ok,
        expand_array(a, current, origin) matches Ok(t) ==> t.len() == a.len() && forall|i: int|
            0 <= i < a.len() ==> expand_value(a[i], current, origin) == Ok::<ValueView, TemplateIssue>(#[trigger] t[i]),
    decreases a.len(),
{
    if a.len() > 0 {
        let init = a.drop_last();
        lemma_expand_array_each(init, current, origin);
        assert forall|i: int| 0 <= i < init.len() implies init[i] == a[i] by {}
        if !(expand_array(a, current, origin) is Ok) {
            if expand_array(init, current, origin) is Ok {
                assert(!(expand_value(a[a.len() - 1], current, origin) is Ok));
            } else {
                let k = choose|k: int| 0 <= k < init.len() && !(#[trigger] expand_value(init[k], current, origin) is Ok);
                assert(!(expand_value(a[k], current, origin) is Ok));
            }
        }
    }
}

proof fn lemma_expand_object_each(o: Seq<(Seq<char>, ValueView)>, current: SourceView, origin: SourceView)
    ensures
        expand_object(o, current, origin) is Ok <==> forall|i: int|
            0 <= i < o.len() ==> #[trigger] expand_value(o[i].1, current, origin) is Ok,
        expand_object(o, current, origin) matches Ok(t) ==> t.len() == o.len() && forall|i: int|
            0 <= i < o.len() ==> (#[trigger] t[i]).0 == o[i].0 && expand_value(o[i].1, current, origin) == Ok::<
                ValueView,
                TemplateIssue,
            >(t[i].1),
    decreases o.len(),
{
    if o.len() > 0 {
        let init = o.drop_last();
        lemma_expand_object_each(init, current, origin);
        assert forall|i: int| 0 <= i < init.len() implies init[i] == o[i] by {}
        if !(expand_object(o, current, origin) is Ok) {
            if expand_object(init, current, origin) is Ok {
                assert(!(expand_value(o[o.len() - 1].1, current, origin) is Ok));
            } else {
                let k = choose|k: int| 0 <= k < init.len() && !(#[trigger] expand_value(init[k].1, current, origin) is Ok);
                assert(!(expand_value(o[k].1, current, origin) is Ok));
            }
        }
    }
}

proof fn lemma_expand_strings_each(v: Seq<Seq<char>>, current: SourceView, origin: SourceView)
    ensures
        expand_strings(v, current, origin) is Ok <==> forall|i: int|
            0 <= i < v.len() ==> #[trigger] expand(v[i], current, origin) is Ok,
        expand_strings(v, current, origin) matches Ok(t) ==> t.len() == v.len() && forall|i: int|
            0 <= i < v.len() ==> expand(v[i], current, origin) == Ok::<Seq<char>, TemplateIssue>(#[trigger] t[i]),
    decreases v.len(),
{
    if v.len() > 0 {
        let init = v.drop_last();
        lemma_expand_strings_each(init, current, origin);
        assert forall|i: int| 0 <= i < init.len() implies init[i] == v[i] by {}
        if !(expand_strings(v, current, origin) is Ok) {
            if expand_strings(init, current, origin) is Ok {
                assert(!(expand(v[v.len() - 1], current, origin) is Ok));
            } else {
                let k = choose|k: int| 0 <= k < init.len() && !(#[trigger] expand(init[k], current, origin) is Ok);
                assert(!(expand(v[k], current, origin) is Ok));
            }
        }
    }
}

proof fn lemma_expand_map_each(m: Seq<(Seq<char>, MapValueView)>, current: SourceView, origin: SourceView)
    ensures
        expand_map(m, current, origin) is Ok <==> forall|i: int|
            0 <= i < m.len() ==> #[trigger] expand_map_value(m[i].1, current, origin) is Ok,
        expand_map(m, current, origin) matches Ok(t) ==> t.len() == m.len() && forall|i: int|
            0 <= i < m.len() ==> (#[trigger] t[i]).0 == m[i].0 && expand_map_value(m[i].1, current, origin) == Ok::<
                MapValueView,
                TemplateIssue,
            >(t[i].1),
    decreases m.len(),
{
    if m.len() > 0 {
        let init = m.drop_last();
        lemma_expand_map_each(init, current, origin);
        assert forall|i: int| 0 <= i < init.len() implies init[i] == m[i] by {}
        if !(expand_map(m, current, origin) is Ok) {
            if expand_map(init, current, origin) is Ok {
                assert(!(expand_map_value(m.last().1, current, origin) is Ok));
            } else {
                let k = choose|k: int|
                    0 <= k < init.len() && !(#[trigger] expand_map_value(init[k].1, current, origin) is Ok);
                assert(!(expand_map_value(m[k].1, current, origin) is Ok));
            }
        }
    }
}

/// Templates are expanded at every depth: expanding an array or an object
/// expands each of its elements or values in place (the keys of an object
/// stay as they are), and it succeeds exactly when each of those
/// expansions does.
pub proof fn law_expand_reaches_every_value(
    a: Seq<ValueView>,
    o: Seq<(Seq<char>, ValueView)>,
    current: SourceView,
    origin: SourceView,
)
    ensures
        expand_value(ValueView::Array(a), current, origin) is Ok <==> forall|i: int|
            0 <= i < a.len() ==> #[trigger] expand_value(a[i], current, origin) is Ok,
        expand_value(ValueView::Array(a), current, origin) matches Ok(w) ==> w matches ValueView::Array(t) && t.len()
            == a.len() && forall|i: int|
            0 <= i < a.len() ==> expand_value(a[i], current, origin) == Ok::<ValueView, TemplateIssue>(#[trigger] t[i]),
        expand_value(ValueView::Object(o), current, origin) is Ok <==> forall|i: int|
            0 <= i < o.len() ==> #[trigger] expand_value(o[i].1, current, origin) is Ok,
        expand_value(ValueView::Object(o), current, origin) matches Ok(w) ==> w matches ValueView::Object(t) && t.len()
            == o.len() && forall|i: int|
            0 <= i < o.len() ==> (#[trigger] t[i]).0 == o[i].0 && expand_value(o[i].1, current, origin) == Ok::<
                ValueView,
                TemplateIssue,
            >(t[i].1),
{
    lemma_expand_array_each(a, current, origin);
    lemma_expand_object_each(o, current, origin);
}

/// Every value of a configuration file's root object has its templates
/// expanded, in place and with its key: a plain value wholly, a plugin's
/// configuration in each of its properties (its other parts as they are),
/// and a list in each of its strings; the whole succeeds exactly when each
/// of those expansions does.
pub proof fn law_expand_reaches_every_root_value(
    m: Seq<(Seq<char>, MapValueView)>,
    c: PluginConfigView,
    list: Seq<Seq<char>>,
    current: SourceView,
    origin: SourceView,
)
    ensures
        expand_map(m, current, origin) is Ok <==> forall|i: int|
            0 <= i < m.len() ==> #[trigger] expand_map_value(m[i].1, current, origin) is Ok,
        expand_map(m, current, origin) matches Ok(t) ==> t.len() == m.len() && forall|i: int|
            0 <= i < m.len() ==> (#[trigger] t[i]).0 == m[i].0 && expand_map_value(m[i].1, current, origin) == Ok::<
                MapValueView,
                TemplateIssue,
            >(t[i].1),
        expand_map_value(MapValueView::PluginConfig(c), current, origin) matches Ok(w) ==> w matches MapValueView::PluginConfig(
            d,
        ) && d.associations == c.associations && d.locked == c.locked && d.overrides == c.overrides
            && d.properties.len() == c.properties.len() && forall|i: int|
            0 <= i < c.properties.len() ==> (#[trigger] d.properties[i]).0 == c.properties[i].0 && expand_value(
                c.properties[i].1,
                current,
                origin,
            ) == Ok::<ValueView, TemplateIssue>(d.properties[i].1),
        expand_map_value(MapValueView::PluginConfig(c), current, origin) is Ok <==> forall|i: int|
            0 <= i < c.properties.len() ==> #[trigger] expand_value(c.properties[i].1, current, origin) is Ok,
        expand_map_value(MapValueView::Vec(list), current, origin) matches Ok(w) ==> w matches MapValueView::Vec(t)
            && t.len() == list.len() && forall|i: int|
            0 <= i < list.len() ==> expand(list[i], current, origin) == Ok::<Seq<char>, TemplateIssue>(#[trigger] t[i]),
        expand_map_value(MapValueView::Vec(list), current, origin) is Ok <==> forall|i: int|
            0 <= i < list.len() ==> #[trigger] expand(list[i], current, origin) is Ok,
{
    lemma_expand_map_each(m, current, origin);
    lemma_expand_object_each(c.properties, current, origin);
    lemma_expand_strings_each(list, current, origin);
}

/// `${configDir}` at the start of a string stands for the directory of a
/// local configuration file and is refused in any other; `${originConfigDir}`
/// stands for the directory of a local origin file and is refused, naming
/// the origin, otherwise; `\$` stands for a plain dollar sign. The rest of
/// the string is expanded after it.
pub proof fn law_templates_at_start(rest: Seq<char>, current: SourceView, origin: SourceView)
    ensures
        expand(seq!['$', '{', 'c', 'o', 'n', 'f', 'i', 'g', 'D', 'i', 'r', '}'] + rest, current, origin) == match current {
            SourceView::Local(dir) => prepend(dir, expand(rest, current, origin)),
            _ => Err(TemplateIssue::ConfigDirNotLocal),
        },
        expand(
            seq!['$', '{', 'o', 'r', 'i', 'g', 'i', 'n', 'C', 'o', 'n', 'f', 'i', 'g', 'D', 'i', 'r', '}'] + rest,
            current,
            origin,
        ) == match origin {
            SourceView::Local(dir) => prepend(dir, expand(rest, current, origin)),
            SourceView::Remote(url) => Err(TemplateIssue::OriginRemote(url)),
            SourceView::Npm(specifier) => Err(TemplateIssue::OriginNpm(specifier)),
        },
        expand(seq!['\\', '$'] + rest, current, origin) == prepend(seq!['$'], expand(rest, current, origin)),
{
    reveal_strlit("configDir");
    reveal_strlit("originConfigDir");
    let a = seq!['$', '{', 'c', 'o', 'n', 'f', 'i', 'g', 'D', 'i', 'r', '}'] + rest;
    assert(a[0] == '$' && a[1] == '{');
    assert forall|k: int| 2 <= k < 11 implies a[k] != '}' by {}
    assert(a[11] == '}');
    lemma_find_from(a, 2, '}');
    assert(a.subrange(2, 11) =~= "configDir"@);
    assert(a.skip(12) =~= rest);
    let b = seq!['$', '{', 'o', 'r', 'i', 'g', 'i', 'n', 'C', 'o', 'n', 'f', 'i', 'g', 'D', 'i', 'r', '}'] + rest;
    assert(b[0] == '$' && b[1] == '{');
    assert forall|k: int| 2 <= k < 17 implies b[k] != '}' by {}
    assert(b[17] == '}');
    lemma_find_from(b, 2, '}');
    assert(b.subrange(2, 17) =~= "originConfigDir"@);
    assert(b.skip(18) =~= rest);
    assert("originConfigDir"@ != "configDir"@) by {
        assert("originConfigDir"@.len() != "configDir"@.len());
    }
    let c = seq!['\\', '$'] + rest;
    assert(c.skip(2) =~= rest);
}

} // verus!
