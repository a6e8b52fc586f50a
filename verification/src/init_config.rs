//! The starting configuration file that `dprint init` writes: which plugins
//! are offered and pre-selected, and the text of the file.
use vstd::prelude::*;
use crate::text::{copy_str, concat2, concat3, str_eq, starts_with, join, join_strings, lowercase, to_lowercase};
use crate::permissions::copy_strings;
use crate::path::{spec_file_name, spec_extension, file_name, extension};

verus! {

/// What the plugin info file says of a plugin that `dprint init` can offer.
#[derive(Debug)]
pub struct InitPluginInfo {
    pub name: String,
    pub url: String,
    pub config_key: Option<String>,
    pub file_extensions: Vec<String>,
    pub file_names: Vec<String>,
    pub config_excludes: Vec<String>,
    pub checksum: Option<String>,
    /// Whether the plugin runs as a process rather than as wasm.
    pub process_plugin: bool,
}

/// The mathematical value of an [`InitPluginInfo`].
pub struct PluginInfoView {
    pub name: Seq<char>,
    pub url: Seq<char>,
    pub config_key: Option<Seq<char>>,
    pub file_extensions: Seq<Seq<char>>,
    pub file_names: Seq<Seq<char>>,
    pub config_excludes: Seq<Seq<char>>,
    pub checksum: Option<Seq<char>>,
    pub process_plugin: bool,
}

pub open spec fn opt_view(o: Option<String>) -> Option<Seq<char>> {
    match o {
        Some(s) => Some(s@),
        None => None,
    }
}

impl View for InitPluginInfo {
    type V = PluginInfoView;

    open spec fn view(&self) -> PluginInfoView {
        PluginInfoView {
            name: self.name@,
            url: self.url@,
            config_key: opt_view(self.config_key),
            file_extensions: self.file_extensions.deep_view(),
            file_names: self.file_names.deep_view(),
            config_excludes: self.config_excludes.deep_view(),
            checksum: opt_view(self.checksum),
            process_plugin: self.process_plugin,
        }
    }
}

/// The mathematical values of a list of plugins.
pub open spec fn infos_view(v: Seq<InitPluginInfo>) -> Seq<PluginInfoView> {
    v.map_values(|p: InitPluginInfo| p@)
}

fn copy_opt(o: &Option<String>) -> (r: Option<String>)
    ensures
        opt_view(*o) == opt_view(r),
{
    match o {
        Some(s) => Some(copy_str(s.as_str())),
        None => None,
    }
}

impl InitPluginInfo {
    /// A copy of the plugin's information.
    pub fn duplicate(&self) -> (r: InitPluginInfo)
        ensures
            r@ == self@,
    {
        InitPluginInfo {
            name: copy_str(self.name.as_str()),
            url: copy_str(self.url.as_str()),
            config_key: copy_opt(&self.config_key),
            file_extensions: copy_strings(&self.file_extensions),
            file_names: copy_strings(&self.file_names),
            config_excludes: copy_strings(&self.config_excludes),
            checksum: copy_opt(&self.checksum),
            process_plugin: self.process_plugin,
        }
    }
}

/// Appends `t` to `out`.
fn append(out: &mut String, t: &str)
    ensures
        final(out)@ == old(out)@ + t@,
{
    let joined = concat2(out.as_str(), t);
    *out = joined;
}

/// The block that opens a plugin's configuration object, put on two lines so
/// that options can be added at once; none for a plugin without a config key.
pub open spec fn config_key_block(p: PluginInfoView) -> Seq<char> {
    match p.config_key {
        Some(k) if k.len() > 0 => "  \""@ + k + "\": {\n"@ + "  },\n"@,
        _ => Seq::empty(),
    }
}

/// The configuration blocks of the plugins, in order.
pub open spec fn config_key_blocks(ps: Seq<PluginInfoView>) -> Seq<char>
    decreases ps.len(),
{
    if ps.len() == 0 {
        Seq::empty()
    } else {
        config_key_blocks(ps.drop_last()) + config_key_block(ps.last())
    }
}

/// A string as an indented, quoted element of a JSON array.
pub open spec fn quoted_line(s: Seq<char>) -> Seq<char> {
    "    \""@ + s + "\""@
}

/// The exclude lines of the plugins, in order, duplicates included.
pub open spec fn exclude_lines(ps: Seq<PluginInfoView>) -> Seq<Seq<char>>
    decreases ps.len(),
{
    if ps.len() == 0 {
        Seq::empty()
    } else {
        exclude_lines(ps.drop_last()) + ps.last().config_excludes.map_values(|x: Seq<char>| quoted_line(x))
    }
}

/// The items of `s` without repetitions, each where it first occurs.
pub open spec fn unique_items(s: Seq<Seq<char>>) -> Seq<Seq<char>>
    decreases s.len(),
{
    if s.len() == 0 {
        Seq::empty()
    } else {
        let u = unique_items(s.drop_last());
        if u.contains(s.last()) {
            u
        } else {
            u.push(s.last())
        }
    }
}

/// The url under which a plugin is listed: a process plugin's carries its
/// checksum after an `@`.
pub open spec fn plugin_url(p: PluginInfoView) -> Seq<char> {
    match p.checksum {
        Some(c) if p.process_plugin => p.url + "@"@ + c,
        _ => p.url,
    }
}

/// The `excludes` property of the file.
pub open spec fn excludes_part(excludes: Seq<Seq<char>>) -> Seq<char> {
    "  \"excludes\": ["@ + (if excludes.len() > 0 {
        "\n"@ + join(excludes, ",\n"@) + "\n  "@
    } else {
        Seq::empty()
    }) + "],\n"@
}

/// The `plugins` property of the file and the closing brace.
pub open spec fn plugins_part(ps: Seq<PluginInfoView>) -> Seq<char> {
    "  \"plugins\": [\n"@ + (if ps.len() == 0 {
        "    // specify plugin urls here\n"@
    } else {
        join(ps.map_values(|p: PluginInfoView| quoted_line(plugin_url(p))), ",\n"@) + "\n"@
    }) + "  ]\n}\n"@
}

/// The text of the starting configuration file for the selected plugins, or,
/// when the plugin information could not be had, a generic one.
pub open spec fn init_config_text(selected: Option<Seq<PluginInfoView>>) -> Seq<char> {
    match selected {
        Some(ps) => "{\n"@ + config_key_blocks(ps) + excludes_part(unique_items(exclude_lines(ps))) + plugins_part(
            ps,
        ),
        None => "{\n"@ + "  \"excludes\": [\n    \"**/*-lock.json\"\n  ],\n"@ + "  \"plugins\": [\n"@
            + "    // specify plugin urls here\n"@ + "  ]\n}\n"@,
    }
}

/// The items of `items` without repetitions, each kept where it first occurs.
pub fn get_unique_items(items: Vec<String>) -> (r: Vec<String>)
    ensures
        r.deep_view() == unique_items(items.deep_view()),
{
    let ghost v = items.deep_view();
    let mut out: Vec<String> = Vec::new();
    let mut i: usize = 0;
    assert(v.take(0) =~= Seq::<Seq<char>>::empty());
    assert(out.deep_view() =~= Seq::<Seq<char>>::empty());
    while i < items.len()
        invariant
            i <= items@.len(),
            v == items.deep_view(),
            out.deep_view() == unique_items(v.take(i as int)),
        decreases items@.len() - i,
    {
        assert(v.take(i + 1).drop_last() =~= v.take(i as int));
        assert(v.take(i + 1).last() == items@[i as int]@);
        let mut found = false;
        let mut j: usize = 0;
        while j < out.len()
            invariant
                j <= out@.len(),
                i < items@.len(),
                found <==> exists|k: int| 0 <= k < j && out.deep_view()[k] == items@[i as int]@,
            decreases out@.len() - j,
        {
            if str_eq(out[j].as_str(), items[i].as_str()) {
                found = true;
            }
            assert(out.deep_view()[j as int] == out@[j as int]@);
            j = j + 1;
        }
        if !found {
            let ghost before = out.deep_view();
            out.push(copy_str(items[i].as_str()));
            assert(out.deep_view() =~= before.push(items@[i as int]@));
        } else {
            assert(out.deep_view().contains(items@[i as int]@));
        }
        i = i + 1;
    }
    assert(v.take(i as int) =~= v);
    out
}

/// The items of a list without repetitions hold each item of the list exactly
/// once, and nothing else.
pub proof fn law_unique_items(s: Seq<Seq<char>>)
    ensures
        forall|x: Seq<char>| unique_items(s).contains(x) <==> s.contains(x),
        forall|i: int, j: int|
            0 <= i < j < unique_items(s).len() ==> unique_items(s)[i] != unique_items(s)[j],
    decreases s.len(),
{
    if s.len() > 0 {
        let p = s.drop_last();
        law_unique_items(p);
        let u = unique_items(p);
        assert forall|x: Seq<char>| unique_items(s).contains(x) <==> s.contains(x) by {
            if s.contains(x) && x != s.last() {
                let k = choose|k: int| 0 <= k < s.len() && s[k] == x;
                assert(p[k] == x);
            }
            if p.contains(x) {
                let k = choose|k: int| 0 <= k < p.len() && p[k] == x;
                assert(s[k] == x);
            }
            if !u.contains(s.last()) {
                if u.push(s.last()).contains(x) {
                    let k = choose|k: int| 0 <= k < u.push(s.last()).len() && u.push(s.last())[k] == x;
                    if k < u.len() {
                        assert(u[k] == x);
                    }
                }
                if u.contains(x) {
                    let k = choose|k: int| 0 <= k < u.len() && u[k] == x;
                    assert(u.push(s.last())[k] == x);
                }
                assert(u.push(s.last())[u.len() as int] == s.last());
            }
            assert(s[s.len() - 1] == s.last());
        }
    }
}

/// Builds the text of the starting configuration file (see
/// [`init_config_text`]).
pub fn build_init_config_file_text(selected: &Option<Vec<InitPluginInfo>>) -> (r: String)
    ensures
        r@ == init_config_text(
            match selected {
                Some(v) => Some(infos_view(v@)),
                None => None,
            },
        ),
{
    let mut text = copy_str("{\n");
    match selected {
        Some(ps) => {
            let ghost pv = infos_view(ps@);
            let mut i: usize = 0;
            assert(pv.take(0) =~= Seq::<PluginInfoView>::empty());
            while i < ps.len()
                invariant
                    i <= ps@.len(),
                    pv == infos_view(ps@),
                    text@ == "{\n"@ + config_key_blocks(pv.take(i as int)),
                decreases ps@.len() - i,
            {
                assert(pv.take(i + 1).drop_last() =~= pv.take(i as int));
                assert(pv.take(i + 1).last() == ps@[i as int]@);
                let ghost before = text@;
                match &ps[i].config_key {
                    Some(k) => {
                        if k.as_str().unicode_len() > 0 {
                            append(&mut text, "  \"");
                            append(&mut text, k.as_str());
                            append(&mut text, "\": {\n");
                            append(&mut text, "  },\n");
                            assert(text@ =~= before + ("  \""@ + k@ + "\": {\n"@ + "  },\n"@));
                        } else {
                            assert(config_key_block(ps@[i as int]@) =~= Seq::<char>::empty());
                            assert(text@ =~= before + Seq::<char>::empty());
                        }
                    },
                    None => {
                        assert(text@ =~= before + Seq::<char>::empty());
                    },
                }
                i = i + 1;
            }
            assert(pv.take(i as int) =~= pv);
            let excludes = get_unique_items(collect_exclude_lines(ps));
            let ghost before_ex = text@;
            append(&mut text, "  \"excludes\": [");
            if excludes.len() > 0 {
                append(&mut text, "\n");
                let joined = join_strings(&excludes, ",\n");
                append(&mut text, joined.as_str());
                append(&mut text, "\n  ");
            }
            append(&mut text, "],\n");
            assert(text@ =~= before_ex + excludes_part(unique_items(exclude_lines(pv))));
            let ghost before_pl = text@;
            append(&mut text, "  \"plugins\": [\n");
            if ps.len() == 0 {
                append(&mut text, "    // specify plugin urls here\n");
            } else {
                let lines = collect_plugin_lines(ps);
                let joined = join_strings(&lines, ",\n");
                append(&mut text, joined.as_str());
                append(&mut text, "\n");
            }
            append(&mut text, "  ]\n}\n");
            assert(text@ =~= before_pl + plugins_part(pv));
            assert(text@ =~= "{\n"@ + config_key_blocks(pv) + excludes_part(unique_items(exclude_lines(pv)))
                + plugins_part(pv));
        },
        None => {
            append(&mut text, "  \"excludes\": [\n    \"**/*-lock.json\"\n  ],\n");
            append(&mut text, "  \"plugins\": [\n");
            append(&mut text, "    // specify plugin urls here\n");
            append(&mut text, "  ]\n}\n");
        },
    }
    text
}

/// The exclude lines of the plugins (see [`exclude_lines`]).
fn collect_exclude_lines(ps: &Vec<InitPluginInfo>) -> (r: Vec<String>)
    ensures
        r.deep_view() == exclude_lines(infos_view(ps@)),
{
    let ghost pv = infos_view(ps@);
    let mut out: Vec<String> = Vec::new();
    let mut i: usize = 0;
    assert(pv.take(0) =~= Seq::<PluginInfoView>::empty());
    assert(out.deep_view() =~= Seq::<Seq<char>>::empty());
    while i < ps.len()
        invariant
            i <= ps@.len(),
            pv == infos_view(ps@),
            out.deep_view() == exclude_lines(pv.take(i as int)),
        decreases ps@.len() - i,
    {
        assert(pv.take(i + 1).drop_last() =~= pv.take(i as int));
        assert(pv.take(i + 1).last() == ps@[i as int]@);
        let ghost before = out.deep_view();
        let ex = &ps[i].config_excludes;
        let ghost exv = ex.deep_view();
        let mut j: usize = 0;
        while j < ex.len()
            invariant
                j <= ex@.len(),
                exv == ex.deep_view(),
                out.deep_view() == before + exv.take(j as int).map_values(|x: Seq<char>| quoted_line(x)),
            decreases ex@.len() - j,
        {
            let ghost prev = out.deep_view();
            out.push(concat3("    \"", ex[j].as_str(), "\""));
            assert(exv.take(j + 1).map_values(|x: Seq<char>| quoted_line(x)) =~= exv.take(j as int).map_values(
                |x: Seq<char>| quoted_line(x),
            ).push(quoted_line(exv[j as int])));
            assert(out.deep_view() =~= prev.push(quoted_line(exv[j as int])));
            j = j + 1;
        }
        assert(exv.take(j as int) =~= exv);
        i = i + 1;
    }
    assert(pv.take(i as int) =~= pv);
    out
}

/// The url under which a plugin is listed (see [`plugin_url`]).
fn listed_url(p: &InitPluginInfo) -> (r: String)
    ensures
        r@ == plugin_url(p@),
{
    match &p.checksum {
        Some(c) => if p.process_plugin {
            concat3(p.url.as_str(), "@", c.as_str())
        } else {
            copy_str(p.url.as_str())
        },
        None => copy_str(p.url.as_str()),
    }
}

/// The quoted plugin lines of the `plugins` property.
fn collect_plugin_lines(ps: &Vec<InitPluginInfo>) -> (r: Vec<String>)
    ensures
        r.deep_view() == infos_view(ps@).map_values(|p: PluginInfoView| quoted_line(plugin_url(p))),
{
    let ghost target = infos_view(ps@).map_values(|p: PluginInfoView| quoted_line(plugin_url(p)));
    let mut out: Vec<String> = Vec::new();
    let mut i: usize = 0;
    while i < ps.len()
        invariant
            i <= ps@.len(),
            target == infos_view(ps@).map_values(|p: PluginInfoView| quoted_line(plugin_url(p))),
            out.deep_view() == target.take(i as int),
        decreases ps@.len() - i,
    {
        let url = listed_url(&ps[i]);
        let ghost prev = out.deep_view();
        out.push(concat3("    \"", url.as_str(), "\""));
        assert(infos_view(ps@)[i as int] == ps@[i as int]@);
        assert(target[i as int] == quoted_line(plugin_url(ps@[i as int]@)));
        assert(out.deep_view() =~= prev.push(out@[i as int]@));
        assert(target.take(i + 1) =~= target.take(i as int).push(target[i as int]));
        assert(out.deep_view() =~= target.take(i + 1));
        i = i + 1;
    }
    assert(target.take(i as int) =~= target);
    out
}

/// Whether a plugin from the plugin information file is a process plugin:
/// process plugins are distributed as a `.json` manifest, so its url ends,
/// in any case, with `.json`.
pub fn is_process_plugin_url(url: &str) -> (r: bool)
    ensures
        r == (lowercase(url@).len() >= 5 && lowercase(url@).subrange(lowercase(url@).len() - 5, lowercase(url@).len() as int)
            == ".json"@),
{
    proof {
        reveal_strlit(".json");
    }
    let lower = to_lowercase(url);
    let chars = crate::text::chars_of(lower.as_str());
    let n = chars.len();
    if n < 5 {
        return false;
    }
    let r = chars[n - 5] == '.' && chars[n - 4] == 'j' && chars[n - 3] == 's' && chars[n - 2] == 'o' && chars[n - 1] == 'n';
    proof {
        let sub = chars@.subrange(n - 5, n as int);
        if r {
            assert(sub =~= ".json"@);
        } else if sub == ".json"@ {
            assert(sub[0] == '.' && sub[1] == 'j' && sub[2] == 's' && sub[3] == 'o' && sub[4] == 'n');
            assert(chars@[n - 5] == sub[0] && chars@[n - 4] == sub[1] && chars@[n - 3] == sub[2]);
            assert(chars@[n - 2] == sub[3] && chars@[n - 1] == sub[4]);
        }
    }
    r
}

/// Whether `s` is one of `items`.
pub fn contains_string(items: &Vec<String>, s: &str) -> (r: bool)
    ensures
        r == items.deep_view().contains(s@),
{
    let mut i: usize = 0;
    while i < items.len()
        invariant
            i <= items@.len(),
            forall|j: int| 0 <= j < i ==> items.deep_view()[j] != s@,
        decreases items@.len() - i,
    {
        assert(items.deep_view()[i as int] == items@[i as int]@);
        if str_eq(items[i].as_str(), s) {
            assert(items.deep_view()[i as int] == s@);
            return true;
        }
        i = i + 1;
    }
    false
}

/// What a scan of the current directory found: the lowercased extensions
/// (without the dot) and the names of its files.
#[derive(Debug)]
pub struct ProjectFiles {
    pub extensions: Vec<String>,
    pub file_names: Vec<String>,
}

/// Whether a plugin is pre-selected for a project: one of its extensions
/// occurs among the project's (compared in lowercase), or one of its file
/// names among the project's file names (compared exactly, as the case of a
/// name such as `Cargo.toml` matters).
pub open spec fn spec_default_selected(p: PluginInfoView, extensions: Seq<Seq<char>>, file_names: Seq<Seq<char>>) -> bool {
    ||| exists|i: int| 0 <= i < p.file_extensions.len() && extensions.contains(lowercase(#[trigger] p.file_extensions[i]))
    ||| exists|i: int| 0 <= i < p.file_names.len() && file_names.contains(#[trigger] p.file_names[i])
}

/// Whether the plugin is pre-selected for the project's files (see
/// [`spec_default_selected`]).
pub fn is_default_selected(plugin: &InitPluginInfo, project_files: &ProjectFiles) -> (r: bool)
    ensures
        r == spec_default_selected(plugin@, project_files.extensions.deep_view(), project_files.file_names.deep_view()),
{
    let mut i: usize = 0;
    while i < plugin.file_extensions.len()
        invariant
            i <= plugin.file_extensions@.len(),
            forall|j: int| 0 <= j < i ==> !project_files.extensions.deep_view().contains(
                lowercase(#[trigger] plugin.file_extensions.deep_view()[j]),
            ),
        decreases plugin.file_extensions@.len() - i,
    {
        let lower = to_lowercase(plugin.file_extensions[i].as_str());
        assert(plugin.file_extensions.deep_view()[i as int] == plugin.file_extensions@[i as int]@);
        if contains_string(&project_files.extensions, lower.as_str()) {
            assert(project_files.extensions.deep_view().contains(lowercase(plugin@.file_extensions[i as int])));
            return true;
        }
        i = i + 1;
    }
    let mut i: usize = 0;
    while i < plugin.file_names.len()
        invariant
            i <= plugin.file_names@.len(),
            forall|j: int| 0 <= j < plugin.file_extensions@.len() ==> !project_files.extensions.deep_view().contains(
                lowercase(#[trigger] plugin.file_extensions.deep_view()[j]),
            ),
            forall|j: int| 0 <= j < i ==> !project_files.file_names.deep_view().contains(
                #[trigger] plugin.file_names.deep_view()[j],
            ),
        decreases plugin.file_names@.len() - i,
    {
        assert(plugin.file_names.deep_view()[i as int] == plugin.file_names@[i as int]@);
        if contains_string(&project_files.file_names, plugin.file_names[i].as_str()) {
            assert(project_files.file_names.deep_view().contains(plugin@.file_names[i as int]));
            return true;
        }
        i = i + 1;
    }
    false
}

/// The text shown for a plugin in the selection list: its name, followed by
/// its extensions when it has any, so that unfamiliar plugins are easier to
/// tell apart.
pub open spec fn display_text(p: PluginInfoView) -> Seq<char> {
    if p.file_extensions.len() == 0 {
        p.name
    } else {
        p.name + " ("@ + join(p.file_extensions.map_values(|e: Seq<char>| "."@ + e), ", "@) + ")"@
    }
}

/// The text shown for a plugin in the selection list (see [`display_text`]).
pub fn plugin_display_text(plugin: &InitPluginInfo) -> (r: String)
    ensures
        r@ == display_text(plugin@),
{
    if plugin.file_extensions.len() == 0 {
        copy_str(plugin.name.as_str())
    } else {
        let exts = &plugin.file_extensions;
        let ghost target = exts.deep_view().map_values(|e: Seq<char>| "."@ + e);
        let mut dotted: Vec<String> = Vec::new();
        let mut i: usize = 0;
        while i < exts.len()
            invariant
                i <= exts@.len(),
                target == exts.deep_view().map_values(|e: Seq<char>| "."@ + e),
                dotted.deep_view() == target.take(i as int),
            decreases exts@.len() - i,
        {
            let ghost prev = dotted.deep_view();
            dotted.push(concat2(".", exts[i].as_str()));
            assert(exts.deep_view()[i as int] == exts@[i as int]@);
            assert(dotted.deep_view() =~= prev.push(dotted@[i as int]@));
            assert(target.take(i + 1) =~= target.take(i as int).push(target[i as int]));
            i = i + 1;
        }
        assert(target.take(i as int) =~= target);
        let joined = join_strings(&dotted, ", ");
        let mut text = concat3(plugin.name.as_str(), " (", joined.as_str());
        append(&mut text, ")");
        text
    }
}

/// Whether a directory is skipped while scanning: hidden ones (starting with
/// a dot) and those that hold dependencies or build output.
pub open spec fn spec_ignored_dir(name: Seq<char>) -> bool {
    ||| name.len() > 0 && name[0] == '.'
    ||| name == "node_modules"@
    ||| name == "target"@
    ||| name == "vendor"@
    ||| name == "dist"@
    ||| name == "build"@
    ||| name == "out"@
    ||| name == "bin"@
    ||| name == "obj"@
}

/// Whether a directory is skipped while scanning (see [`spec_ignored_dir`]).
pub fn is_ignored_dir(name: &str) -> (r: bool)
    ensures
        r == spec_ignored_dir(name@),
{
    proof {
        reveal_strlit(".");
        assert("."@ =~= seq!['.']);
        if name@.len() > 0 {
            assert(name@.subrange(0, 1) =~= seq![name@[0]]);
        }
    }
    let dot = starts_with(name, ".");
    if dot {
        assert(name@.subrange(0, 1)[0] == name@[0]);
    }
    dot || str_eq(name, "node_modules") || str_eq(name, "target") || str_eq(name, "vendor") || str_eq(name, "dist")
        || str_eq(name, "build") || str_eq(name, "out") || str_eq(name, "bin") || str_eq(name, "obj")
}

/// How `dprint init` is run.
#[derive(Debug, Default)]
pub struct GetInitConfigFileTextOptions {
    /// Skip the interactive plugin prompt and accept the plugins selected
    /// from the files in the current directory.
    pub non_interactive: bool,
}

/// The most files looked at when scanning the current directory, which keeps
/// `dprint init` fast in large repositories.
pub const MAX_SCAN_FILES: usize = 1000;

/// The most directories visited during the scan, so that a deep tree with
/// few files cannot make the scan walk forever.
pub const MAX_SCAN_DIRS: usize = 1000;

/// An entry of a directory, as the scan sees it.
#[derive(Debug)]
pub enum ScanEntry {
    Directory { path: String },
    File { name: String, path: String },
}

/// The mathematical value of a [`ScanEntry`].
pub enum EntryView {
    Directory(Seq<char>),
    File(Seq<char>, Seq<char>),
}

impl View for ScanEntry {
    type V = EntryView;

    open spec fn view(&self) -> EntryView {
        match self {
            ScanEntry::Directory { path } => EntryView::Directory(path@),
            ScanEntry::File { name, path } => EntryView::File(name@, path@),
        }
    }
}

pub open spec fn entries_view(v: Seq<ScanEntry>) -> Seq<EntryView> {
    v.map_values(|e: ScanEntry| e@)
}

/// A breadth-first scan of the current directory for the files that decide
/// which plugins are pre-selected. The caller reads each directory that
/// [`ProjectScan::next_dir`] hands out and gives its entries back with
/// [`ProjectScan::add_entries`]; a directory that cannot be read is skipped.
#[derive(Debug)]
pub struct ProjectScan {
    /// The directories still to visit, the next one first.
    pub pending: Vec<String>,
    pub files_remaining: usize,
    pub dirs_remaining: usize,
    /// Whether a limit was reached, which ends the scan.
    pub stopped: bool,
    pub found: ProjectFiles,
}

/// The mathematical value of a [`ProjectScan`].
pub struct ScanView {
    pub pending: Seq<Seq<char>>,
    pub files_remaining: nat,
    pub dirs_remaining: nat,
    pub stopped: bool,
    pub extensions: Seq<Seq<char>>,
    pub file_names: Seq<Seq<char>>,
}

impl View for ProjectScan {
    type V = ScanView;

    open spec fn view(&self) -> ScanView {
        ScanView {
            pending: self.pending.deep_view(),
            files_remaining: self.files_remaining as nat,
            dirs_remaining: self.dirs_remaining as nat,
            stopped: self.stopped,
            extensions: self.found.extensions.deep_view(),
            file_names: self.found.file_names.deep_view(),
        }
    }
}

/// `s` with `x` added at the end unless it holds it already.
pub open spec fn insert_unique(s: Seq<Seq<char>>, x: Seq<char>) -> Seq<Seq<char>> {
    if s.contains(x) {
        s
    } else {
        s.push(x)
    }
}

/// The scan after one entry: a directory that is not skipped is queued; a
/// file is recorded with its lowercased extension, unless the file limit was
/// reached, which stops the scan.
pub open spec fn scan_entry(v: ScanView, e: EntryView) -> ScanView {
    match e {
        EntryView::Directory(path) => match spec_file_name(path) {
            Some(name) if !spec_ignored_dir(name) => ScanView { pending: v.pending.push(path), ..v },
            _ => v,
        },
        EntryView::File(name, path) => if v.files_remaining == 0 {
            ScanView { stopped: true, ..v }
        } else {
            ScanView {
                files_remaining: (v.files_remaining - 1) as nat,
                file_names: insert_unique(v.file_names, name),
                extensions: match spec_extension(path) {
                    Some(ext) => insert_unique(v.extensions, lowercase(ext)),
                    None => v.extensions,
                },
                ..v
            }
        },
    }
}

/// The scan after the entries of a directory, in order; once stopped, the
/// scan ignores the rest.
pub open spec fn scan_entries(v: ScanView, es: Seq<EntryView>) -> ScanView
    decreases es.len(),
{
    if es.len() == 0 {
        v
    } else {
        let w = scan_entries(v, es.drop_last());
        if w.stopped {
            w
        } else {
            scan_entry(w, es.last())
        }
    }
}

/// The directory the scan visits next and the scan after handing it out:
/// none once the scan stopped or nothing is pending; none, and the scan
/// stops, when the directory limit is reached.
pub open spec fn scan_next(v: ScanView) -> (ScanView, Option<Seq<char>>) {
    if v.stopped || v.pending.len() == 0 {
        (v, None)
    } else if v.dirs_remaining == 0 {
        (ScanView { stopped: true, ..v }, None)
    } else {
        (
            ScanView { pending: v.pending.drop_first(), dirs_remaining: (v.dirs_remaining - 1) as nat, ..v },
            Some(v.pending[0]),
        )
    }
}

/// Adds `x` to `v` unless `v` holds it already.
pub(crate) fn push_unique_string(v: &mut Vec<String>, x: String)
    ensures
        final(v).deep_view() == insert_unique(old(v).deep_view(), x@),
{
    if !contains_string(v, x.as_str()) {
        let ghost before = v.deep_view();
        let ghost xv = x@;
        v.push(x);
        assert(v.deep_view() =~= before.push(xv));
    }
}

impl ProjectScan {
    /// A scan that starts at `cwd`, with the full budget of files and
    /// directories.
    pub fn new(cwd: String) -> (r: ProjectScan)
        ensures
            r@.pending == seq![cwd@],
            r@.files_remaining == MAX_SCAN_FILES,
            r@.dirs_remaining == MAX_SCAN_DIRS,
            !r@.stopped,
            r@.extensions.len() == 0,
            r@.file_names.len() == 0,
    {
        let mut pending: Vec<String> = Vec::new();
        pending.push(cwd);
        let r = ProjectScan {
            pending,
            files_remaining: MAX_SCAN_FILES,
            dirs_remaining: MAX_SCAN_DIRS,
            stopped: false,
            found: ProjectFiles { extensions: Vec::new(), file_names: Vec::new() },
        };
        assert(r@.pending =~= seq![r.pending@[0]@]);
        r
    }

    /// The next directory to read (see [`scan_next`]).
    pub fn next_dir(&mut self) -> (r: Option<String>)
        ensures
            scan_next(old(self)@).0 == final(self)@,
            scan_next(old(self)@).1 == match r {
                Some(d) => Some(d@),
                None => None::<Seq<char>>,
            },
    {
        if self.stopped || self.pending.len() == 0 {
            return None;
        }
        if self.dirs_remaining == 0 {
            self.stopped = true;
            return None;
        }
        self.dirs_remaining = self.dirs_remaining - 1;
        let ghost before = self.pending.deep_view();
        let dir = self.pending.remove(0);
        assert(self.pending.deep_view() =~= before.drop_first());
        Some(dir)
    }

    /// Takes in the entries of the directory last handed out (see
    /// [`scan_entries`]).
    pub fn add_entries(&mut self, entries: Vec<ScanEntry>)
        ensures
            final(self)@ == scan_entries(old(self)@, entries_view(entries@)),
    {
        let ghost ev = entries_view(entries@);
        let ghost start = self@;
        let mut i: usize = 0;
        assert(ev.take(0) =~= Seq::<EntryView>::empty());
        while i < entries.len()
            invariant
                i <= entries@.len(),
                ev == entries_view(entries@),
                start == old(self)@,
                self@ == scan_entries(start, ev.take(i as int)),
            decreases entries@.len() - i,
        {
            assert(ev.take(i + 1).drop_last() =~= ev.take(i as int));
            assert(ev.take(i + 1).last() == entries@[i as int]@);
            if self.stopped {
                proof {
                    lemma_scan_stays_stopped(start, ev, (i + 1) as int);
                }
                assert(ev.take(ev.len() as int) =~= ev);
                return;
            }
            match &entries[i] {
                ScanEntry::Directory { path } => {
                    match file_name(path.as_str()) {
                        Some(name) => {
                            if !is_ignored_dir(name.as_str()) {
                                let ghost before = self.pending.deep_view();
                                self.pending.push(copy_str(path.as_str()));
                                assert(self.pending.deep_view() =~= before.push(path@));
                            }
                        },
                        None => {},
                    }
                },
                ScanEntry::File { name, path } => {
                    if self.files_remaining == 0 {
                        self.stopped = true;
                        proof {
                            lemma_scan_stays_stopped(start, ev, (i + 1) as int);
                        }
                        assert(ev.take(ev.len() as int) =~= ev);
                        return;
                    }
                    self.files_remaining = self.files_remaining - 1;
                    push_unique_string(&mut self.found.file_names, copy_str(name.as_str()));
                    match extension(path.as_str()) {
                        Some(ext) => {
                            let lower = to_lowercase(ext.as_str());
                            push_unique_string(&mut self.found.extensions, lower);
                        },
                        None => {},
                    }
                },
            }
            i = i + 1;
        }
        assert(ev.take(i as int) =~= ev);
    }

    /// What the scan found.
    pub fn finish(self) -> (r: ProjectFiles)
        ensures
            r.extensions.deep_view() == self@.extensions,
            r.file_names.deep_view() == self@.file_names,
    {
        self.found
    }
}

proof fn lemma_scan_stays_stopped(v: ScanView, es: Seq<EntryView>, k: int)
    requires
        0 <= k <= es.len(),
        scan_entries(v, es.take(k)).stopped,
    ensures
        scan_entries(v, es) == scan_entries(v, es.take(k)),
    decreases es.len() - k,
{
    if k < es.len() {
        assert(es.take(k + 1).drop_last() =~= es.take(k));
        lemma_scan_stays_stopped(v, es, k + 1);
    } else {
        assert(es.take(k) =~= es);
    }
}

/// Whether each plugin is pre-selected for the project's files, in order.
pub fn default_selections(plugins: &Vec<InitPluginInfo>, project_files: &ProjectFiles) -> (r: Vec<bool>)
    ensures
        r@.len() == plugins@.len(),
        forall|i: int|
            0 <= i < plugins@.len() ==> r@[i] == spec_default_selected(
                #[trigger] plugins@[i]@,
                project_files.extensions.deep_view(),
                project_files.file_names.deep_view(),
            ),
{
    let mut r: Vec<bool> = Vec::new();
    let mut i: usize = 0;
    while i < plugins.len()
        invariant
            i <= plugins@.len(),
            r@.len() == i,
            forall|j: int|
                0 <= j < i ==> r@[j] == spec_default_selected(
                    #[trigger] plugins@[j]@,
                    project_files.extensions.deep_view(),
                    project_files.file_names.deep_view(),
                ),
        decreases plugins@.len() - i,
    {
        r.push(is_default_selected(&plugins[i], project_files));
        i = i + 1;
    }
    r
}

/// The positions that hold `true`, in increasing order.
pub open spec fn true_indexes(s: Seq<bool>) -> Seq<int>
    decreases s.len(),
{
    if s.len() == 0 {
        Seq::empty()
    } else if s.last() {
        true_indexes(s.drop_last()).push(s.len() - 1)
    } else {
        true_indexes(s.drop_last())
    }
}

/// The plugins accepted without a prompt: those pre-selected, in order.
pub fn non_interactive_selection(defaults: &Vec<bool>) -> (r: Vec<usize>)
    ensures
        r@.map_values(|i: usize| i as int) == true_indexes(defaults@),
{
    let mut r: Vec<usize> = Vec::new();
    let mut i: usize = 0;
    assert(defaults@.take(0) =~= Seq::<bool>::empty());
    while i < defaults.len()
        invariant
            i <= defaults@.len(),
            r@.map_values(|k: usize| k as int) == true_indexes(defaults@.take(i as int)),
        decreases defaults@.len() - i,
    {
        assert(defaults@.take(i + 1).drop_last() =~= defaults@.take(i as int));
        let ghost before = r@;
        if defaults[i] {
            r.push(i);
            assert(r@.map_values(|k: usize| k as int) =~= before.map_values(|k: usize| k as int).push(i as int));
        }
        i = i + 1;
    }
    assert(defaults@.take(i as int) =~= defaults@);
    r
}

/// The items of the selection prompt: each plugin's display text with
/// whether it starts selected.
pub fn selection_items(plugins: &Vec<InitPluginInfo>, defaults: &Vec<bool>) -> (r: Vec<(bool, String)>)
    requires
        defaults@.len() == plugins@.len(),
    ensures
        r@.len() == plugins@.len(),
        forall|i: int|
            0 <= i < plugins@.len() ==> (#[trigger] r@[i]).0 == defaults@[i] && r@[i].1@ == display_text(
                plugins@[i]@,
            ),
{
    let mut r: Vec<(bool, String)> = Vec::new();
    let mut i: usize = 0;
    while i < plugins.len()
        invariant
            i <= plugins@.len(),
            defaults@.len() == plugins@.len(),
            r@.len() == i,
            forall|j: int|
                0 <= j < i ==> (#[trigger] r@[j]).0 == defaults@[j] && r@[j].1@ == display_text(plugins@[j]@),
        decreases plugins@.len() - i,
    {
        r.push((defaults[i], plugin_display_text(&plugins[i])));
        i = i + 1;
    }
    r
}

/// The plugins at the selected positions, in the order selected.
pub fn select_plugins(plugins: &Vec<InitPluginInfo>, indexes: &Vec<usize>) -> (r: Vec<InitPluginInfo>)
    requires
        forall|i: int| 0 <= i < indexes@.len() ==> #[trigger] indexes@[i] < plugins@.len(),
    ensures
        r@.len() == indexes@.len(),
        forall|i: int| 0 <= i < indexes@.len() ==> (#[trigger] r@[i])@ == plugins@[indexes@[i] as int]@,
{
    let mut r: Vec<InitPluginInfo> = Vec::new();
    let mut i: usize = 0;
    while i < indexes.len()
        invariant
            i <= indexes@.len(),
            forall|j: int| 0 <= j < indexes@.len() ==> #[trigger] indexes@[j] < plugins@.len(),
            r@.len() == i,
            forall|j: int| 0 <= j < i ==> (#[trigger] r@[j])@ == plugins@[indexes@[j] as int]@,
        decreases indexes@.len() - i,
    {
        let index = indexes[i];
        r.push(plugins[index].duplicate());
        i = i + 1;
    }
    r
}

/// Whether the plugin information can be used to start the configuration:
/// only when it is for a plugin system no newer than this host's.
pub fn info_is_usable(host_schema_version: u32, info_schema_version: u32) -> (r: bool)
    ensures
        r == (info_schema_version <= host_schema_version),
{
    info_schema_version <= host_schema_version
}

/// What the user is told when the plugin information is for a newer plugin
/// system than this host's.
pub fn old_plugin_system_message(host_schema_version: u32, info_schema_version: u32) -> (r: String)
    ensures
        r@ == "You are using an old version of dprint so the created config file may not be as helpful of a starting point. Consider upgrading to support new plugins. Plugin system schema version is "@
            + crate::text::decimal(host_schema_version as nat) + ", latest is "@ + crate::text::decimal(
            info_schema_version as nat,
        ) + "."@,
{
    let host = crate::text::decimal_text(host_schema_version as usize);
    let latest = crate::text::decimal_text(info_schema_version as usize);
    let head = crate::text::concat3(
        "You are using an old version of dprint so the created config file may not be as helpful of a starting point. Consider upgrading to support new plugins. Plugin system schema version is ",
        host.as_str(),
        ", latest is ",
    );
    crate::text::concat3(head.as_str(), latest.as_str(), ".")
}

/// What the user is told when the plugin information could not be had, with
/// the error.
pub fn info_error_message(error: &str) -> (r: String)
    ensures
        r@ == "There was a problem getting the latest plugin info. The created config file may not be as helpful of a starting point. Error: "@
            + error@,
{
    crate::text::concat2(
        "There was a problem getting the latest plugin info. The created config file may not be as helpful of a starting point. Error: ",
        error,
    )
}

/// The project scan skips exactly the hidden directories (those whose name
/// starts with a dot) and those named for dependencies or build output:
/// `node_modules`, `target`, `vendor`, `dist`, `build`, `out`, `bin` and
/// `obj`; every other directory is scanned.
pub proof fn law_scan_skips_exactly(name: Seq<char>)
    ensures
        spec_ignored_dir(name) <==> ((name.len() > 0 && name[0] == '.') || set![
            "node_modules"@,
            "target"@,
            "vendor"@,
            "dist"@,
            "build"@,
            "out"@,
            "bin"@,
            "obj"@,
        ].contains(name)),
{
}

} // verus!
