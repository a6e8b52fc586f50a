//! Combining what configuration files contribute: which plugins a remote file
//! may name, which plugin sources are kept once, and what a nested file takes
//! over from its ancestor or from the files it extends.
use vstd::prelude::*;
use crate::cache_meta::PluginKind;
use crate::text::{copy_str, str_eq, concat2, concat3, starts_with, has_prefix};
use crate::canonicalized_path_buf::{canonical_join, canonical_strip_prefix, suffix_from};
use crate::canonicalized_path_buf::CanonicalizedPathBuf;
use crate::configuration::{ConfigMapValue, MergeError, MergeIssue, MapValueView, config_map_view, merge_maps, duplicate_config_map, merge_config_map_into, opt_strings_view};
use crate::permissions::copy_strings;

verus! {

/// Where a plugin comes from, as a configuration file names it.
#[derive(Debug)]
pub struct PluginSourceReference {
    /// The plugin's path, URL or npm specifier, resolved against the file
    /// that names it; two references name the same plugin when this is equal.
    pub path_source: String,
    pub checksum: Option<String>,
    /// The kind of plugin the source names, where its name tells it.
    pub plugin_kind: Option<PluginKind>,
}

/// The mathematical value of a [`PluginSourceReference`].
pub struct PluginSourceView {
    pub path_source: Seq<char>,
    pub checksum: Option<Seq<char>>,
    pub plugin_kind: Option<PluginKind>,
}

impl View for PluginSourceReference {
    type V = PluginSourceView;

    open spec fn view(&self) -> PluginSourceView {
        PluginSourceView {
            path_source: self.path_source@,
            checksum: match self.checksum {
                Some(c) => Some(c@),
                None => None,
            },
            plugin_kind: self.plugin_kind,
        }
    }
}

impl PluginSourceReference {
    /// A copy of the reference.
    pub fn duplicate(&self) -> (r: PluginSourceReference)
        ensures
            r@ == self@,
    {
        let checksum = match &self.checksum {
            Some(c) => Some(copy_str(c.as_str())),
            None => None,
        };
        PluginSourceReference { path_source: copy_str(self.path_source.as_str()), checksum, plugin_kind: self.plugin_kind }
    }
}

/// The mathematical values of a list of references.
pub open spec fn sources_view(s: Seq<PluginSourceReference>) -> Seq<PluginSourceView> {
    s.map_values(|p: PluginSourceReference| p@)
}

/// Whether the reference names a wasm plugin.
pub open spec fn is_wasm(p: PluginSourceView) -> bool {
    p.plugin_kind == Some(PluginKind::Wasm)
}

/// The references to wasm plugins, in order.
pub open spec fn wasm_only(s: Seq<PluginSourceView>) -> Seq<PluginSourceView>
    decreases s.len(),
{
    if s.len() == 0 {
        s
    } else if is_wasm(s.last()) {
        wasm_only(s.drop_last()).push(s.last())
    } else {
        wasm_only(s.drop_last())
    }
}

/// Whether some reference does not name a wasm plugin.
pub open spec fn has_non_wasm(s: Seq<PluginSourceView>) -> bool {
    exists|i: int| 0 <= i < s.len() && !is_wasm(#[trigger] s[i])
}

/// The text that says why plugins of a remote file were left out.
pub fn get_warn_non_wasm_plugins_message() -> (r: String)
    ensures
        r@ == "Note:  Non-wasm plugins are ignored for security reasons on remote configuration."@,
{
    copy_str("Note:  Non-wasm plugins are ignored for security reasons on remote configuration.")
}

/// The text that says why the `includes` of a remote file were left out.
pub fn get_warn_includes_message() -> (r: String)
    ensures
        r@ == "Note:  The 'includes' property is ignored for security reasons on remote configuration."@,
{
    copy_str("Note:  The 'includes' property is ignored for security reasons on remote configuration.")
}

/// Keeps the references to wasm plugins, in order: a remote configuration
/// file may not run anything else on the user's machine. The flag says
/// whether any reference was left out, so that the user is told.
pub fn filter_non_wasm_plugins(plugins: Vec<PluginSourceReference>) -> (r: (Vec<PluginSourceReference>, bool))
    ensures
        sources_view(r.0@) == wasm_only(sources_view(plugins@)),
        r.1 == has_non_wasm(sources_view(plugins@)),
{
    let ghost s = sources_view(plugins@);
    let mut out: Vec<PluginSourceReference> = Vec::new();
    let mut dropped = false;
    let mut i: usize = 0;
    assert(s.take(0) =~= Seq::<PluginSourceView>::empty());
    while i < plugins.len()
        invariant
            i <= plugins@.len(),
            s == sources_view(plugins@),
            sources_view(out@) == wasm_only(s.take(i as int)),
            dropped == has_non_wasm(s.take(i as int)),
        decreases plugins@.len() - i,
    {
        let ghost before = sources_view(out@);
        assert(s.take(i + 1).drop_last() =~= s.take(i as int));
        assert(s.take(i + 1).last() == plugins@[i as int]@);
        let is_wasm_plugin = match plugins[i].plugin_kind {
            Some(PluginKind::Wasm) => true,
            _ => false,
        };
        if is_wasm_plugin {
            out.push(plugins[i].duplicate());
            assert(sources_view(out@) =~= before.push(plugins@[i as int]@));
        } else {
            dropped = true;
        }
        assert(dropped == has_non_wasm(s.take(i + 1))) by {
            if has_non_wasm(s.take(i + 1)) {
                let j = choose|j: int| 0 <= j < s.take(i + 1).len() && !is_wasm(#[trigger] s.take(i + 1)[j]);
                if j < i {
                    assert(s.take(i as int)[j] == s.take(i + 1)[j]);
                }
            }
            if has_non_wasm(s.take(i as int)) {
                let j = choose|j: int| 0 <= j < s.take(i as int).len() && !is_wasm(#[trigger] s.take(i as int)[j]);
                assert(s.take(i + 1)[j] == s.take(i as int)[j]);
            }
            if !is_wasm_plugin {
                assert(!is_wasm(s.take(i + 1)[i as int]));
            }
        }
        i = i + 1;
    }
    assert(s.take(i as int) =~= s);
    (out, dropped)
}

/// Whether some reference names the source.
pub open spec fn names_source(s: Seq<PluginSourceView>, source: Seq<char>) -> bool {
    exists|i: int| 0 <= i < s.len() && (#[trigger] s[i]).path_source == source
}

/// The first reference to each source, in order.
pub open spec fn first_of_each(s: Seq<PluginSourceView>) -> Seq<PluginSourceView>
    decreases s.len(),
{
    if s.len() == 0 {
        s
    } else if names_source(s.drop_last(), s.last().path_source) {
        first_of_each(s.drop_last())
    } else {
        first_of_each(s.drop_last()).push(s.last())
    }
}

/// The first references name the same sources as the whole list.
pub proof fn lemma_first_of_each_names(s: Seq<PluginSourceView>, source: Seq<char>)
    ensures
        names_source(first_of_each(s), source) == names_source(s, source),
    decreases s.len(),
{
    if s.len() > 0 {
        let p = s.drop_last();
        lemma_first_of_each_names(p, source);
        let f = first_of_each(p);
        if names_source(s, source) {
            let i = choose|i: int| 0 <= i < s.len() && (#[trigger] s[i]).path_source == source;
            if i < p.len() {
                assert(p[i] == s[i]);
                let k = choose|k: int| 0 <= k < f.len() && (#[trigger] f[k]).path_source == source;
                assert(first_of_each(s)[k] == f[k]);
            } else if names_source(p, s.last().path_source) {
                let k = choose|k: int| 0 <= k < f.len() && (#[trigger] f[k]).path_source == s.last().path_source;
                assert(first_of_each(s)[k] == f[k]);
            } else {
                assert(first_of_each(s)[f.len() as int] == s.last());
            }
        }
        if names_source(first_of_each(s), source) {
            let k = choose|k: int| 0 <= k < first_of_each(s).len() && (#[trigger] first_of_each(s)[k]).path_source == source;
            if k < f.len() {
                assert(first_of_each(s)[k] == f[k]);
                let i = choose|i: int| 0 <= i < p.len() && (#[trigger] p[i]).path_source == source;
                assert(s[i] == p[i]);
            } else {
                assert(s[s.len() - 1] == s.last());
            }
        }
    }
}

/// Keeps the first reference to each plugin source, in order.
pub fn filter_duplicate_plugin_sources(plugin_sources: Vec<PluginSourceReference>) -> (r: Vec<PluginSourceReference>)
    ensures
        sources_view(r@) == first_of_each(sources_view(plugin_sources@)),
{
    let ghost s = sources_view(plugin_sources@);
    let mut out: Vec<PluginSourceReference> = Vec::new();
    let mut i: usize = 0;
    assert(s.take(0) =~= Seq::<PluginSourceView>::empty());
    while i < plugin_sources.len()
        invariant
            i <= plugin_sources@.len(),
            s == sources_view(plugin_sources@),
            sources_view(out@) == first_of_each(s.take(i as int)),
        decreases plugin_sources@.len() - i,
    {
        let ghost prefix = s.take(i as int);
        assert(s.take(i + 1).drop_last() =~= prefix);
        assert(s.take(i + 1).last() == plugin_sources@[i as int]@);
        let mut seen = false;
        let mut k: usize = 0;
        while k < out.len()
            invariant
                k <= out@.len(),
                i < plugin_sources@.len(),
                seen == exists|j: int| 0 <= j < k && (#[trigger] out@[j]).path_source@ == plugin_sources@[i as int].path_source@,
            decreases out@.len() - k,
        {
            if str_eq(out[k].path_source.as_str(), plugin_sources[i].path_source.as_str()) {
                seen = true;
            }
            k = k + 1;
        }
        proof {
            lemma_first_of_each_names(prefix, plugin_sources@[i as int].path_source@);
            let f = sources_view(out@);
            if seen {
                let j = choose|j: int| 0 <= j < k && (#[trigger] out@[j]).path_source@ == plugin_sources@[i as int].path_source@;
                assert(f[j] == out@[j]@);
            }
            if names_source(f, plugin_sources@[i as int].path_source@) {
                let j = choose|j: int| 0 <= j < f.len() && (#[trigger] f[j]).path_source == plugin_sources@[i as int].path_source@;
                assert(f[j] == out@[j]@);
            }
        }
        if !seen {
            let ghost before = sources_view(out@);
            out.push(plugin_sources[i].duplicate());
            assert(sources_view(out@) =~= before.push(plugin_sources@[i as int]@));
        }
        i = i + 1;
    }
    assert(s.take(i as int) =~= s);
    out
}

/// Every reference that [`filter_non_wasm_plugins`] keeps names a wasm
/// plugin, and every wasm plugin of the list is kept.
pub proof fn law_remote_plugins_are_wasm(s: Seq<PluginSourceView>)
    ensures
        forall|i: int| 0 <= i < wasm_only(s).len() ==> is_wasm(#[trigger] wasm_only(s)[i]),
        forall|i: int| 0 <= i < s.len() && is_wasm(#[trigger] s[i]) ==> names_source(wasm_only(s), s[i].path_source),
    decreases s.len(),
{
    if s.len() > 0 {
        let p = s.drop_last();
        law_remote_plugins_are_wasm(p);
        let w = wasm_only(p);
        assert forall|i: int| 0 <= i < wasm_only(s).len() implies is_wasm(#[trigger] wasm_only(s)[i]) by {
            if i < w.len() {
                assert(wasm_only(s)[i] == w[i]);
            }
        }
        assert forall|i: int| 0 <= i < s.len() && is_wasm(#[trigger] s[i]) implies names_source(wasm_only(s), s[i].path_source) by {
            if i < p.len() {
                assert(p[i] == s[i]);
                let k = choose|k: int| 0 <= k < w.len() && (#[trigger] w[k]).path_source == p[i].path_source;
                assert(wasm_only(s)[k] == w[k]);
            } else {
                assert(wasm_only(s)[w.len() as int] == s.last());
            }
        }
    }
}

/// No two of the references that [`filter_duplicate_plugin_sources`] keeps
/// name the same source, and they name every source of the list.
pub proof fn law_plugin_sources_once(s: Seq<PluginSourceView>)
    ensures
        forall|i: int, j: int|
            0 <= i < j < first_of_each(s).len() ==> (#[trigger] first_of_each(s)[i]).path_source != (#[trigger] first_of_each(s)[j]).path_source,
        forall|source: Seq<char>| #[trigger] names_source(first_of_each(s), source) == names_source(s, source),
    decreases s.len(),
{
    assert forall|source: Seq<char>| #[trigger] names_source(first_of_each(s), source) == names_source(s, source) by {
        lemma_first_of_each_names(s, source);
    }
    if s.len() > 0 {
        let p = s.drop_last();
        law_plugin_sources_once(p);
        let f = first_of_each(p);
        let r = first_of_each(s);
        assert forall|i: int, j: int| 0 <= i < j < r.len() implies (#[trigger] r[i]).path_source != (#[trigger] r[j]).path_source by {
            if j < f.len() {
                assert(r[i] == f[i] && r[j] == f[j]);
            } else {
                lemma_first_of_each_names(p, s.last().path_source);
                assert(r[i] == f[i]);
                assert(r[j] == s.last());
                if f[i].path_source == s.last().path_source {
                    assert(names_source(f, s.last().path_source));
                }
            }
        }
    }
}

/// The plugins a configuration file contributes: for a remote file only its
/// wasm plugins, then the first reference to each source. The flag says
/// whether a plugin of a remote file was left out.
pub fn config_file_plugins(plugins: Vec<PluginSourceReference>, is_local: bool) -> (r: (Vec<PluginSourceReference>, bool))
    ensures
        sources_view(r.0@) == first_of_each(
            if is_local {
                sources_view(plugins@)
            } else {
                wasm_only(sources_view(plugins@))
            },
        ),
        r.1 == (!is_local && has_non_wasm(sources_view(plugins@))),
{
    if is_local {
        (filter_duplicate_plugin_sources(plugins), false)
    } else {
        let (kept, dropped) = filter_non_wasm_plugins(plugins);
        (filter_duplicate_plugin_sources(kept), dropped)
    }
}

/// A pattern of an ancestor configuration, written relative to the
/// ancestor's directory, rewritten relative to a nested directory: a `!`
/// stays in front; a leading `./` is dropped; a pattern that starts with `**`
/// matches at any depth and stays as written; any other pattern keeps the
/// part that lies under the nested directory, and is left out when it does
/// not reach into it.
pub open spec fn spec_rebase_pattern(pattern: Seq<char>, ancestor_base: Seq<char>, new_base: Seq<char>) -> Option<
    Seq<char>,
> {
    let negated = pattern.len() > 0 && pattern[0] == '!';
    let body0 = if negated {
        pattern.drop_first()
    } else {
        pattern
    };
    let body = if has_prefix(body0, "./"@) {
        body0.skip(2)
    } else {
        body0
    };
    if has_prefix(body, "**"@) {
        Some(pattern)
    } else {
        match canonical_strip_prefix(canonical_join(ancestor_base, body), new_base) {
            Some(rest) => if rest.len() == 0 {
                None
            } else if negated {
                Some(seq!['!'] + rest)
            } else {
                Some(rest)
            },
            None => None,
        }
    }
}

/// Rewrites an ancestor's pattern relative to a nested directory (see
/// [`spec_rebase_pattern`]).
pub fn rebase_pattern(pattern: &str, ancestor_base: &CanonicalizedPathBuf, new_base: &CanonicalizedPathBuf) -> (r: Option<
    String,
>)
    ensures
        match spec_rebase_pattern(pattern@, ancestor_base@, new_base@) {
            Some(p) => r matches Some(x) && x@ == p,
            None => r is None,
        },
{
    proof {
        reveal_strlit("!");
        reveal_strlit("./");
        reveal_strlit("**");
        reveal_strlit("/");
        assert("/"@ =~= seq!['/']);
    }
    let negated = starts_with(pattern, "!");
    proof {
        if pattern@.len() > 0 {
            assert(has_prefix(pattern@, "!"@) == (pattern@[0] == '!')) by {
                if pattern@[0] == '!' {
                    assert(pattern@.subrange(0, 1) =~= "!"@);
                } else if has_prefix(pattern@, "!"@) {
                    assert(pattern@.subrange(0, 1)[0] == pattern@[0]);
                }
            }
        }
    }
    let body0 = if negated {
        suffix_from(pattern, 1)
    } else {
        copy_str(pattern)
    };
    assert(negated ==> body0@ =~= pattern@.drop_first());
    let body = if starts_with(body0.as_str(), "./") {
        suffix_from(body0.as_str(), 2)
    } else {
        body0
    };
    if starts_with(body.as_str(), "**") {
        return Some(copy_str(pattern));
    }
    let full = if str_eq(ancestor_base.display(), "/") {
        concat2("/", body.as_str())
    } else {
        concat3(ancestor_base.display(), "/", body.as_str())
    };
    proof {
        if ancestor_base@ == seq!['/'] {
            assert(full@ =~= canonical_join(ancestor_base@, body@));
        } else {
            assert(full@ =~= canonical_join(ancestor_base@, body@));
        }
    }
    let base = new_base.display();
    let rest = if str_eq(base, "/") {
        Some(suffix_from(full.as_str(), 1))
    } else if str_eq(full.as_str(), base) {
        Some(String::new())
    } else {
        let with_slash = concat2(base, "/");
        if starts_with(full.as_str(), with_slash.as_str()) {
            Some(suffix_from(full.as_str(), with_slash.unicode_len()))
        } else {
            None
        }
    };
    proof {
        if base@ == seq!['/'] {
            assert(full@.len() >= 1);
            assert(full@.subrange(1, full@.len() as int) =~= full@.drop_first());
        }
    }
    match rest {
        Some(r) => {
            if r.unicode_len() == 0 {
                None
            } else if negated {
                let out = concat2("!", r.as_str());
                assert(out@ =~= seq!['!'] + r@);
                Some(out)
            } else {
                Some(r)
            }
        },
        None => None,
    }
}

/// An ancestor's patterns rewritten relative to a nested directory, those
/// that do not reach into it left out, in order.
pub open spec fn spec_rebase_patterns(patterns: Seq<Seq<char>>, ancestor_base: Seq<char>, new_base: Seq<char>) -> Seq<
    Seq<char>,
>
    decreases patterns.len(),
{
    if patterns.len() == 0 {
        Seq::empty()
    } else {
        let rest = spec_rebase_patterns(patterns.drop_last(), ancestor_base, new_base);
        match spec_rebase_pattern(patterns.last(), ancestor_base, new_base) {
            Some(p) => rest.push(p),
            None => rest,
        }
    }
}

/// Rewrites an ancestor's patterns relative to a nested directory (see
/// [`spec_rebase_patterns`]).
pub fn rebase_patterns(patterns: &Vec<String>, ancestor_base: &CanonicalizedPathBuf, new_base: &CanonicalizedPathBuf) -> (r:
    Vec<String>)
    ensures
        r.deep_view() == spec_rebase_patterns(patterns.deep_view(), ancestor_base@, new_base@),
{
    let ghost pv = patterns.deep_view();
    let mut out: Vec<String> = Vec::new();
    let mut i: usize = 0;
    assert(pv.take(0) =~= Seq::<Seq<char>>::empty());
    assert(out.deep_view() =~= Seq::<Seq<char>>::empty());
    while i < patterns.len()
        invariant
            i <= patterns@.len(),
            pv == patterns.deep_view(),
            out.deep_view() == spec_rebase_patterns(pv.take(i as int), ancestor_base@, new_base@),
        decreases patterns@.len() - i,
    {
        assert(pv.take(i + 1).drop_last() =~= pv.take(i as int));
        assert(pv.take(i + 1).last() == patterns@[i as int]@);
        match rebase_pattern(patterns[i].as_str(), ancestor_base, new_base) {
            Some(p) => {
                let ghost before = out.deep_view();
                out.push(p);
                assert(out.deep_view() =~= before.push(out@[out@.len() - 1]@));
            },
            None => {},
        }
        i = i + 1;
    }
    assert(pv.take(i as int) =~= pv);
    out
}

/// A nested file's excludes after its ancestor's: the ancestor's patterns,
/// already rebased onto the nested file's directory, come first so that the
/// nested file can opt back out of them; no ancestor excludes leave the own
/// ones as they are, and an empty result is none.
pub open spec fn spec_inherit_excludes(own: Option<Seq<Seq<char>>>, rebased_ancestor: Option<Seq<Seq<char>>>) -> Option<
    Seq<Seq<char>>,
> {
    match rebased_ancestor {
        None => own,
        Some(a) => {
            let all = a + match own {
                Some(o) => o,
                None => Seq::empty(),
            };
            if all.len() == 0 {
                None
            } else {
                Some(all)
            }
        },
    }
}

/// Combines a nested configuration file's excludes with its ancestor's,
/// already rebased onto the nested directory (see [`spec_inherit_excludes`]).
pub fn combine_excludes(own: Option<Vec<String>>, rebased_ancestor: Option<Vec<String>>) -> (r: Option<Vec<String>>)
    ensures
        opt_strings_view(r) == spec_inherit_excludes(opt_strings_view(own), opt_strings_view(rebased_ancestor)),
{
    match rebased_ancestor {
        None => own,
        Some(a) => {
            let mut result = a;
            match own {
                Some(o) => {
                    let ghost before = result.deep_view();
                    let mut i: usize = 0;
                    while i < o.len()
                        invariant
                            i <= o@.len(),
                            result.deep_view() == before + o.deep_view().take(i as int),
                        decreases o@.len() - i,
                    {
                        let ghost prev = result.deep_view();
                        result.push(copy_str(o[i].as_str()));
                        assert(result.deep_view() =~= prev.push(o@[i as int]@));
                        assert(o.deep_view().take(i + 1) =~= o.deep_view().take(i as int).push(o@[i as int]@));
                        assert(result.deep_view() =~= before + o.deep_view().take(i + 1));
                        i = i + 1;
                    }
                    assert(o.deep_view().take(i as int) =~= o.deep_view());
                },
                None => {
                    assert(result.deep_view() =~= result.deep_view() + Seq::<Seq<char>>::empty());
                },
            }
            if result.len() == 0 {
                None
            } else {
                Some(result)
            }
        },
    }
}

/// The ancestor's excludes rebased onto the nested directory, when it has
/// any.
pub open spec fn rebased_ancestor_excludes(ancestor: Option<Seq<Seq<char>>>, ancestor_base: Seq<char>, new_base: Seq<char>) -> Option<
    Seq<Seq<char>>,
> {
    match ancestor {
        Some(a) => Some(spec_rebase_patterns(a, ancestor_base, new_base)),
        None => None,
    }
}

/// Combines a nested configuration file's excludes with its ancestor's,
/// rewriting each ancestor pattern from the ancestor's directory onto the
/// nested one (see [`spec_rebase_pattern`]) and leaving out those that do
/// not reach into it. The ancestor's patterns come first, so that the
/// nested file's own excludes can opt back out of them.
pub fn inherit_excludes(
    own: Option<Vec<String>>,
    ancestor: Option<&Vec<String>>,
    ancestor_base: &CanonicalizedPathBuf,
    new_base: &CanonicalizedPathBuf,
) -> (r: Option<Vec<String>>)
    ensures
        opt_strings_view(r) == spec_inherit_excludes(
            opt_strings_view(own),
            rebased_ancestor_excludes(
                match ancestor {
                    Some(a) => Some(a.deep_view()),
                    None => None,
                },
                ancestor_base@,
                new_base@,
            ),
        ),
{
    let rebased = match ancestor {
        Some(a) => Some(rebase_patterns(a, ancestor_base, new_base)),
        None => None,
    };
    combine_excludes(own, rebased)
}

/// A resolved configuration: the file it came from, the directory it applies
/// to, the properties the resolver reads and what the plugins get.
#[derive(Debug)]
pub struct ResolvedConfig {
    /// The configuration file's path or URL.
    pub source: String,
    /// The folder that is considered the root.
    pub base_path: CanonicalizedPathBuf,
    /// Whether this is the user's global configuration file.
    pub is_global: bool,
    pub includes: Option<Vec<String>>,
    pub excludes: Option<Vec<String>>,
    pub plugins: Vec<PluginSourceReference>,
    pub incremental: Option<bool>,
    /// Whether a nested configuration file takes over the plugins and
    /// configuration of its ancestor.
    pub inherit: Option<bool>,
    pub config_map: Vec<(String, ConfigMapValue)>,
}

/// Merges the ancestor (`parent`) configuration into a nested configuration
/// file that set `"inherit": true`. The nested file wins: its plugins come
/// before the ancestor's, each source once; the ancestor's excludes, rebased
/// onto the nested directory, come before its own; the ancestor's
/// `incremental` applies when the nested file has none; and the plugin
/// configurations are merged with the nested file winning on conflicts.
/// `includes` are not inherited.
pub fn inherit_config(config: ResolvedConfig, parent: &ResolvedConfig) -> (r:
    Result<ResolvedConfig, MergeError>)
    ensures
        match r {
            Ok(c) => {
                &&& merge_maps(config_map_view(config.config_map@), config_map_view(parent.config_map@)).1 is None
                &&& config_map_view(c.config_map@) == merge_maps(
                    config_map_view(config.config_map@),
                    config_map_view(parent.config_map@),
                ).0
                &&& sources_view(c.plugins@) == first_of_each(sources_view(config.plugins@) + sources_view(parent.plugins@))
                &&& opt_strings_view(c.excludes) == spec_inherit_excludes(
                    opt_strings_view(config.excludes),
                    rebased_ancestor_excludes(opt_strings_view(parent.excludes), parent.base_path@, config.base_path@),
                )
                &&& c.incremental == (if config.incremental is Some {
                    config.incremental
                } else {
                    parent.incremental
                })
                &&& c.source@ == config.source@
                &&& c.base_path@ == config.base_path@
                &&& c.is_global == config.is_global
                &&& opt_strings_view(c.includes) == opt_strings_view(config.includes)
                &&& c.inherit == config.inherit
            },
            Err(e) => merge_maps(config_map_view(config.config_map@), config_map_view(parent.config_map@)).1 == Some(e@),
        },
{
    let ResolvedConfig { source, base_path, is_global, includes, excludes, plugins, incremental, inherit, config_map } =
        config;
    let mut all = plugins;
    let ghost own = sources_view(all@);
    let mut i: usize = 0;
    while i < parent.plugins.len()
        invariant
            i <= parent.plugins@.len(),
            sources_view(all@) == own + sources_view(parent.plugins@).take(i as int),
        decreases parent.plugins@.len() - i,
    {
        let ghost before = sources_view(all@);
        all.push(parent.plugins[i].duplicate());
        assert(sources_view(all@) =~= before.push(parent.plugins@[i as int]@));
        assert(sources_view(parent.plugins@).take(i + 1) =~= sources_view(parent.plugins@).take(i as int).push(
            parent.plugins@[i as int]@,
        ));
        i = i + 1;
    }
    assert(sources_view(parent.plugins@).take(i as int) =~= sources_view(parent.plugins@));
    let plugins = filter_duplicate_plugin_sources(all);
    let excludes = match &parent.excludes {
        Some(e) => inherit_excludes(excludes, Some(e), &parent.base_path, &base_path),
        None => inherit_excludes(excludes, None, &parent.base_path, &base_path),
    };
    let incremental = match incremental {
        Some(b) => Some(b),
        None => parent.incremental,
    };
    let mut config_map = config_map;
    let parent_map = duplicate_config_map(&parent.config_map);
    match merge_config_map_into(&mut config_map, parent_map) {
        Ok(()) => Ok(ResolvedConfig { source, base_path, is_global, includes, excludes, plugins, incremental, inherit, config_map }),
        Err(e) => Err(e),
    }
}

/// Adds what a file named by `extends` contributes to the configuration it
/// extends: its excludes after the present ones, its plugins after the
/// present ones (for a remote file only its wasm plugins), and its properties
/// merged in with the present configuration winning. The flag says whether a
/// plugin of a remote file was left out.
pub fn combine_extended_config(
    resolved: ResolvedConfig,
    excludes: Option<Vec<String>>,
    plugins: Vec<PluginSourceReference>,
    is_local: bool,
    config_map: Vec<(String, ConfigMapValue)>,
) -> (r: (Result<ResolvedConfig, MergeError>, bool))
    ensures
        r.1 == (!is_local && has_non_wasm(sources_view(plugins@))),
        match r.0 {
            Ok(c) => {
                &&& merge_maps(config_map_view(resolved.config_map@), config_map_view(config_map@)).1 is None
                &&& config_map_view(c.config_map@) == merge_maps(
                    config_map_view(resolved.config_map@),
                    config_map_view(config_map@),
                ).0
                &&& sources_view(c.plugins@) == sources_view(resolved.plugins@) + (if is_local {
                    sources_view(plugins@)
                } else {
                    wasm_only(sources_view(plugins@))
                })
                &&& opt_strings_view(c.excludes) == match (opt_strings_view(resolved.excludes), opt_strings_view(excludes)) {
                    (Some(a), Some(b)) => Some(a + b),
                    (None, b) => b,
                    (a, None) => a,
                }
                &&& c.source@ == resolved.source@
                &&& c.base_path@ == resolved.base_path@
                &&& c.is_global == resolved.is_global
                &&& opt_strings_view(c.includes) == opt_strings_view(resolved.includes)
                &&& c.incremental == resolved.incremental
                &&& c.inherit == resolved.inherit
            },
            Err(e) => merge_maps(config_map_view(resolved.config_map@), config_map_view(config_map@)).1 == Some(e@),
        },
{
    let ResolvedConfig {
        source,
        base_path,
        is_global,
        includes,
        excludes: present_excludes,
        plugins: present_plugins,
        incremental,
        inherit,
        config_map: present_map,
    } = resolved;
    let excludes = match (present_excludes, excludes) {
        (Some(a), Some(b)) => {
            let mut all = a;
            let ghost before = all.deep_view();
            let mut i: usize = 0;
            while i < b.len()
                invariant
                    i <= b@.len(),
                    all.deep_view() == before + b.deep_view().take(i as int),
                decreases b@.len() - i,
            {
                let ghost prev = all.deep_view();
                all.push(copy_str(b[i].as_str()));
                assert(all.deep_view() =~= prev.push(b@[i as int]@));
                assert(b.deep_view().take(i + 1) =~= b.deep_view().take(i as int).push(b@[i as int]@));
                assert(all.deep_view() =~= before + b.deep_view().take(i + 1));
                i = i + 1;
            }
            assert(b.deep_view().take(i as int) =~= b.deep_view());
            Some(all)
        },
        (None, b) => b,
        (a, None) => a,
    };
    let (added, dropped) = if is_local {
        (plugins, false)
    } else {
        filter_non_wasm_plugins(plugins)
    };
    let mut all = present_plugins;
    let ghost before = sources_view(all@);
    let mut i: usize = 0;
    while i < added.len()
        invariant
            i <= added@.len(),
            sources_view(all@) == before + sources_view(added@).take(i as int),
        decreases added@.len() - i,
    {
        let ghost prev = sources_view(all@);
        all.push(added[i].duplicate());
        assert(sources_view(all@) =~= prev.push(added@[i as int]@));
        assert(sources_view(added@).take(i + 1) =~= sources_view(added@).take(i as int).push(added@[i as int]@));
        i = i + 1;
    }
    assert(sources_view(added@).take(i as int) =~= sources_view(added@));
    let mut merged = present_map;
    match merge_config_map_into(&mut merged, config_map) {
        Ok(()) => (
            Ok(ResolvedConfig { source, base_path, is_global, includes, excludes, plugins: all, incremental, inherit, config_map: merged }),
            dropped,
        ),
        Err(e) => (Err(e), dropped),
    }
}

} // verus!
