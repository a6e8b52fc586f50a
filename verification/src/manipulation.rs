//! Updating a plugin's url in a configuration file's text.
use vstd::prelude::*;
use crate::text::{copy_str, concat2, chars_of, string_of, has_prefix};
use crate::cache_meta::PluginKind;

verus! {

/// An npm package a plugin reference names: the package, its version when
/// one is given, and the plugin file within it.
#[derive(Debug)]
pub struct NpmSpecifier {
    pub name: String,
    pub version: Option<String>,
    pub path: String,
}

/// The mathematical value of an [`NpmSpecifier`].
pub struct NpmView {
    pub name: Seq<char>,
    pub version: Option<Seq<char>>,
    pub path: Seq<char>,
}

impl View for NpmSpecifier {
    type V = NpmView;

    open spec fn view(&self) -> NpmView {
        NpmView {
            name: self.name@,
            version: match self.version {
                Some(v) => Some(v@),
                None => None,
            },
            path: self.path@,
        }
    }
}

/// A plugin reference as the update works with it: the text it is written
/// as, its full text (with its checksum) and its text without the checksum,
/// its checksum, its kind when known, and the npm package it names, if any.
#[derive(Debug)]
pub struct PluginReferenceText {
    pub text: String,
    pub full_text: String,
    pub without_checksum_text: String,
    pub checksum: Option<String>,
    pub kind: Option<PluginKind>,
    pub npm: Option<NpmSpecifier>,
}

/// A newer version of a plugin in use.
#[derive(Debug)]
pub struct PluginUpdateInfo {
    pub name: String,
    pub old_version: String,
    pub old_reference: PluginReferenceText,
    pub new_version: String,
    pub new_reference: PluginReferenceText,
}

impl PluginUpdateInfo {
    /// Whether the new version is a wasm plugin.
    pub fn is_wasm(&self) -> (r: bool)
        ensures
            r == (self.new_reference.kind == Some(PluginKind::Wasm)),
    {
        match self.new_reference.kind {
            Some(PluginKind::Wasm) => true,
            _ => false,
        }
    }

    /// The url the configuration gets: with the checksum unless the plugin is
    /// wasm and had none before.
    pub fn get_full_new_config_url(&self) -> (r: String)
        ensures
            r@ == if !(self.new_reference.kind == Some(PluginKind::Wasm)) || self.old_reference.checksum is Some {
                self.new_reference.full_text@
            } else {
                self.new_reference.without_checksum_text@
            },
    {
        let should_add_checksum = !self.is_wasm() || self.old_reference.checksum.is_some();
        if should_add_checksum {
            copy_str(self.new_reference.full_text.as_str())
        } else {
            copy_str(self.new_reference.without_checksum_text.as_str())
        }
    }
}

/// `s` with every occurrence of `from` replaced by `to`, left to right and
/// without overlaps, as `str::replace` does; an empty `from` occurs before
/// every character and at the end.
pub open spec fn replace_all(s: Seq<char>, from: Seq<char>, to: Seq<char>) -> Seq<char>
    decreases s.len(),
{
    if from.len() == 0 {
        if s.len() == 0 {
            to
        } else {
            to + seq![s[0]] + replace_all(s.drop_first(), from, to)
        }
    } else if s.len() < from.len() {
        s
    } else if has_prefix(s, from) {
        to + replace_all(s.skip(from.len() as int), from, to)
    } else {
        seq![s[0]] + replace_all(s.drop_first(), from, to)
    }
}

/// Replaces every occurrence of `from` in `s` by `to` (see [`replace_all`]).
pub fn replace_text(s: &str, from: &str, to: &str) -> (r: String)
    ensures
        r@ == replace_all(s@, from@, to@),
{
    let sc = chars_of(s);
    let fc = chars_of(from);
    let tc = chars_of(to);
    let n = sc.len();
    let m = fc.len();
    let mut out: Vec<char> = Vec::new();
    let mut i: usize = 0;
    assert(sc@.skip(0) =~= sc@);
    while i < n
        invariant
            sc@ == s@,
            fc@ == from@,
            tc@ == to@,
            n == sc@.len(),
            m == fc@.len(),
            i <= n,
            replace_all(s@, from@, to@) == out@ + replace_all(sc@.skip(i as int), from@, to@),
        decreases n - i,
    {
        let ghost rest = sc@.skip(i as int);
        let mut matches = m > 0 && n - i >= m;
        let mut k: usize = 0;
        while matches && k < m
            invariant
                i < n,
                m > 0 ==> matches ==> n - i >= m,
                k <= m,
                m == fc@.len(),
                n == sc@.len(),
                matches ==> forall|j: int| 0 <= j < k ==> sc@[i + j] == fc@[j],
                !matches ==> (m == 0 || n - i < m || (k < m && i + k < n && sc@[i + k] != fc@[k as int])),
            decreases (m - k) * 2 + (if matches {
                1int
            } else {
                0int
            }),
        {
            if sc[i + k] != fc[k] {
                matches = false;
            } else {
                k = k + 1;
            }
        }
        if matches && m > 0 {
            assert(rest.subrange(0, m as int) =~= fc@);
            assert(has_prefix(rest, from@));
            let ghost before = out@;
            let mut t: usize = 0;
            while t < tc.len()
                invariant
                    t <= tc@.len(),
                    out@ == before + tc@.take(t as int),
                decreases tc@.len() - t,
            {
                out.push(tc[t]);
                assert(tc@.take(t + 1) =~= tc@.take(t as int).push(tc@[t as int]));
                t = t + 1;
            }
            assert(tc@.take(t as int) =~= tc@);
            assert(rest.skip(m as int) =~= sc@.skip(i + m));
            i = i + m;
        } else {
            proof {
                if m > 0 && rest.len() >= m && has_prefix(rest, from@) {
                    assert(forall|j: int| 0 <= j < m ==> rest.subrange(0, m as int)[j] == fc@[j]);
                    assert(false) by {
                        if !matches {
                            assert(rest.subrange(0, m as int)[k as int] == sc@[i + k]);
                        }
                    }
                }
            }
            let ghost before = out@;
            if m == 0 {
                let mut t: usize = 0;
                while t < tc.len()
                    invariant
                        t <= tc@.len(),
                        out@ == before + tc@.take(t as int),
                    decreases tc@.len() - t,
                {
                    out.push(tc[t]);
                    assert(tc@.take(t + 1) =~= tc@.take(t as int).push(tc@[t as int]));
                    t = t + 1;
                }
                assert(tc@.take(t as int) =~= tc@);
            }
            let ghost mid = out@;
            out.push(sc[i]);
            assert(rest.drop_first() =~= sc@.skip(i + 1));
            proof {
                if m == 0 {
                    assert(out@ =~= before + (to@ + seq![rest[0]]));
                } else {
                    assert(out@ =~= before + seq![rest[0]]);
                }
            }
            i = i + 1;
        }
    }
    let ghost last = out@;
    if m == 0 {
        let mut t: usize = 0;
        while t < tc.len()
            invariant
                t <= tc@.len(),
                out@ == last + tc@.take(t as int),
            decreases tc@.len() - t,
        {
            out.push(tc[t]);
            assert(tc@.take(t + 1) =~= tc@.take(t as int).push(tc@[t as int]));
            t = t + 1;
        }
        assert(tc@.take(t as int) =~= tc@);
    }
    assert(sc@.skip(n as int) =~= Seq::<char>::empty());
    string_of(out.as_slice())
}

/// Updates a plugin's url in a configuration file's text to the new url
/// (see [`PluginUpdateInfo::get_full_new_config_url`]): every occurrence of
/// the old reference's text becomes the new url; an npm reference, whose
/// written form is often a strict prefix of the entry in the file, is
/// rewritten only where a `plugins` element names it (see
/// [`crate::config_edit::replace_npm_plugin_in_config`]).
pub fn update_plugin_in_config(file_text: &str, info: &PluginUpdateInfo) -> (r: String)
    ensures
        ({
            let new_url = if !(info.new_reference.kind == Some(PluginKind::Wasm)) || info.old_reference.checksum is Some {
                info.new_reference.full_text@
            } else {
                info.new_reference.without_checksum_text@
            };
            if info.old_reference.npm is Some {
                let old = info.old_reference.npm->0@;
                let ck = match info.old_reference.checksum {
                    Some(c) => Some(c@),
                    None => None,
                };
                match crate::deserialize::parsed_jsonc(file_text@) {
                    Ok(value) => match crate::json_edit::array_property(value, "plugins"@) {
                        Some(items) if exists|k: int|
                            0 <= k < items.len() && crate::config_edit::is_old_npm_entry(#[trigger] items[k], old, ck) => {
                            let replaced = crate::config_edit::npm_entries_replaced(items, old, ck, new_url);
                            ||| crate::config_edit::parsed_plugins(r@) == Some(replaced)
                            ||| r@ == crate::json_edit::json_text(
                                crate::json_edit::with_property(value, "plugins"@, crate::deserialize::JsonView::Array(replaced)),
                            )
                        },
                        _ => r@ == file_text@,
                    },
                    Err(_) => r@ == file_text@,
                }
            } else {
                r@ == replace_all(file_text@, info.old_reference.text@, new_url)
            }
        }),
{
    let new_url = info.get_full_new_config_url();
    match &info.old_reference.npm {
        Some(spec) => {
            let checksum = match &info.old_reference.checksum {
                Some(c) => Some(c.as_str()),
                None => None,
            };
            crate::config_edit::replace_npm_plugin_in_config(file_text, spec, checksum, new_url.as_str())
        },
        None => replace_text(file_text, info.old_reference.text.as_str(), new_url.as_str()),
    }
}

/// The outcome of applying a plugin's configuration changes: the new text and
/// what could not be applied.
#[derive(Debug, Default)]
pub struct ApplyConfigChangesResult {
    pub new_text: String,
    pub diagnostics: Vec<String>,
}

/// The configuration text did not parse, so it could not be edited.
#[derive(Debug)]
pub struct ConfigEditError {
    /// The parser's message.
    pub message: String,
}

impl ConfigEditError {
    /// The text that explains the error to the user.
    pub fn to_string(&self) -> (r: String)
        ensures
            r@ == "Failed parsing config file.: "@ + self.message@,
    {
        concat2("Failed parsing config file.: ", self.message.as_str())
    }
}


/// The position of the first of the characters `a` and `b` in `s` at or
/// after `from`, or the length of `s` when there is none.
pub open spec fn find_either(s: Seq<char>, a: char, b: char, from: int) -> int
    decreases s.len() - from,
{
    if from < 0 {
        s.len() as int
    } else if from >= s.len() {
        s.len() as int
    } else if s[from] == a || s[from] == b {
        from
    } else {
        find_either(s, a, b, from + 1)
    }
}

proof fn lemma_find_either(s: Seq<char>, a: char, b: char, from: int)
    requires
        0 <= from <= s.len(),
    ensures
        from <= find_either(s, a, b, from) <= s.len(),
    decreases s.len() - from,
{
    if from < s.len() && !(s[from] == a || s[from] == b) {
        lemma_find_either(s, a, b, from + 1);
    }
}

fn find_either_exec(s: &Vec<char>, a: char, b: char, from: usize) -> (r: usize)
    requires
        from <= s@.len(),
    ensures
        r == find_either(s@, a, b, from as int),
        from <= r <= s@.len(),
{
    let mut i = from;
    while i < s.len()
        invariant
            from <= i <= s@.len(),
            find_either(s@, a, b, from as int) == find_either(s@, a, b, i as int),
        decreases s@.len() - i,
    {
        if s[i] == a || s[i] == b {
            return i;
        }
        i = i + 1;
    }
    i
}

/// The npm package and checksum that a plugin entry such as
/// `npm:@scope/name@1.2.3/plugin.json@checksum` names: after `npm:` the
/// package name (a scoped name keeps its first `/`), then `@` and the
/// version when given, then `/` and the file within the package
/// (`plugin.wasm` when none is given), then `@` and the checksum when given.
/// None for text that does not start with `npm:` or names no package.
pub open spec fn spec_parse_npm(t: Seq<char>) -> Option<(NpmView, Option<Seq<char>>)> {
    if !has_prefix(t, "npm:"@) {
        None
    } else {
        let rest = t.skip(4);
        let name_from = if rest.len() > 0 && rest[0] == '@' {
            find_either(rest, '/', '/', 0) + 1
        } else {
            0
        };
        let name_end = find_either(rest, '@', '/', name_from);
        if name_end == 0 {
            None
        } else {
            let has_version = name_end < rest.len() && rest[name_end] == '@';
            let after_v = if has_version {
                find_either(rest, '/', '@', name_end + 1)
            } else {
                name_end
            };
            let has_path = after_v < rest.len() && rest[after_v] == '/';
            let after_p = if has_path {
                find_either(rest, '@', '@', after_v + 1)
            } else {
                after_v
            };
            Some(
                (
                    NpmView {
                        name: rest.take(name_end),
                        version: if has_version {
                            Some(rest.subrange(name_end + 1, after_v))
                        } else {
                            None
                        },
                        path: if has_path {
                            rest.subrange(after_v + 1, after_p)
                        } else {
                            "plugin.wasm"@
                        },
                    },
                    if after_p < rest.len() {
                        Some(rest.skip(after_p + 1))
                    } else {
                        None
                    },
                ),
            )
        }
    }
}

/// Reads the npm package and checksum a plugin entry names (see
/// [`spec_parse_npm`]).
pub fn parse_npm_specifier(text: &str) -> (r: Option<(NpmSpecifier, Option<String>)>)
    ensures
        match spec_parse_npm(text@) {
            Some((s, c)) => r matches Some(x) && x.0@ == s && match c {
                Some(c) => x.1 matches Some(y) && y@ == c,
                None => x.1 is None,
            },
            None => r is None,
        },
{
    proof {
        reveal_strlit("npm:");
        reveal_strlit("plugin.wasm");
    }
    if !crate::text::starts_with(text, "npm:") {
        return None;
    }
    let all = chars_of(text);
    let mut rest: Vec<char> = Vec::new();
    let mut k: usize = 4;
    assert(text@.len() >= 4);
    while k < all.len()
        invariant
            4 <= k <= all@.len(),
            all@ == text@,
            rest@ == text@.subrange(4, k as int),
        decreases all@.len() - k,
    {
        rest.push(all[k]);
        assert(rest@ =~= text@.subrange(4, k + 1));
        k = k + 1;
    }
    assert(rest@ =~= text@.skip(4));
    let ghost r = rest@;
    let name_from: usize = if rest.len() > 0 && rest[0] == '@' {
        let slash = find_either_exec(&rest, '/', '/', 0);
        if slash == rest.len() {
            slash
        } else {
            slash + 1
        }
    } else {
        0
    };
    proof {
        lemma_find_either(r, '/', '/', 0);
        if r.len() > 0 && r[0] == '@' && find_either(r, '/', '/', 0) == r.len() {
            // a scoped name without a slash: the search from past the end finds nothing
            assert(find_either(r, '@', '/', (r.len() + 1) as int) == r.len());
            assert(find_either(r, '@', '/', r.len() as int) == r.len());
        }
    }
    let name_end = find_either_exec(&rest, '@', '/', name_from);
    assert(name_end == find_either(r, '@', '/', if r.len() > 0 && r[0] == '@' { find_either(r, '/', '/', 0) + 1 } else { 0 }));
    if name_end == 0 {
        return None;
    }
    let has_version = name_end < rest.len() && rest[name_end] == '@';
    let after_v = if has_version {
        find_either_exec(&rest, '/', '@', name_end + 1)
    } else {
        name_end
    };
    let has_path = after_v < rest.len() && rest[after_v] == '/';
    let after_p = if has_path {
        find_either_exec(&rest, '@', '@', after_v + 1)
    } else {
        after_v
    };
    let name = crate::text::string_of_range(&rest, 0, name_end);
    let version = if has_version {
        Some(crate::text::string_of_range(&rest, name_end + 1, after_v))
    } else {
        None
    };
    let path = if has_path {
        crate::text::string_of_range(&rest, after_v + 1, after_p)
    } else {
        copy_str("plugin.wasm")
    };
    let checksum = if after_p < rest.len() {
        Some(crate::text::string_of_range(&rest, after_p + 1, rest.len()))
    } else {
        None
    };
    Some((NpmSpecifier { name, version, path }, checksum))
}

/// Whether a plugin entry names the same npm package, version and file as
/// the old reference, with the same checksum.
pub open spec fn spec_npm_entry_matches(entry: Seq<char>, old: NpmView, old_checksum: Option<Seq<char>>) -> bool {
    match spec_parse_npm(entry) {
        Some((s, c)) => s == old && c == old_checksum,
        None => false,
    }
}

/// Whether a plugin entry names the same npm package, version and file as
/// the old reference, with the same checksum (see
/// [`spec_npm_entry_matches`]).
pub fn npm_entry_matches(entry: &str, old: &NpmSpecifier, old_checksum: Option<&str>) -> (r: bool)
    ensures
        r == spec_npm_entry_matches(
            entry@,
            old@,
            match old_checksum {
                Some(c) => Some(c@),
                None => None,
            },
        ),
{
    match parse_npm_specifier(entry) {
        Some((s, c)) => {
            let same_version = match (&s.version, &old.version) {
                (Some(a), Some(b)) => crate::text::str_eq(a.as_str(), b.as_str()),
                (None, None) => true,
                _ => false,
            };
            let same_checksum = match (&c, old_checksum) {
                (Some(a), Some(b)) => crate::text::str_eq(a.as_str(), b),
                (None, None) => true,
                _ => false,
            };
            crate::text::str_eq(s.name.as_str(), old.name.as_str()) && same_version && crate::text::str_eq(
                s.path.as_str(),
                old.path.as_str(),
            ) && same_checksum
        },
        None => false,
    }
}

} // verus!
