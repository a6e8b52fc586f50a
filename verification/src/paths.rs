//! Files grouped by the plugins that format them, and the patterns derived
//! from the plugins when the configuration names no includes.
use vstd::prelude::*;
use crate::text::{copy_str, concat3, str_eq, join, join_strings, chars_of, string_of_range};
use crate::permissions::copy_strings;
use crate::canonicalized_path_buf::CanonicalizedPathBuf;
use crate::init_config::{contains_string, insert_unique};
use crate::patterns::{spec_config_pattern, spec_negated_glob, process_config_pattern, is_negated_glob};

verus! {

/// The separator between the names of a [`PluginNames`] key.
pub open spec fn separator() -> Seq<char> {
    seq!['~', '~']
}

/// Whether a separator starts at position `j` of `s`.
pub open spec fn sep_at(s: Seq<char>, j: int) -> bool {
    0 <= j && j + 1 < s.len() && s[j] == '~' && s[j + 1] == '~'
}

/// The position of the first separator in `s` at or after `from`, if any.
pub open spec fn find_separator(s: Seq<char>, from: int) -> Option<int>
    decreases s.len() - from,
{
    if from < 0 || from + 1 >= s.len() {
        None
    } else if s[from] == '~' && s[from + 1] == '~' {
        Some(from)
    } else {
        find_separator(s, from + 1)
    }
}

pub proof fn lemma_find_separator(s: Seq<char>, from: int)
    requires
        0 <= from,
    ensures
        match find_separator(s, from) {
            Some(i) => from <= i && sep_at(s, i) && forall|j: int| from <= j < i ==> !#[trigger] sep_at(s, j),
            None => forall|j: int| from <= j ==> !#[trigger] sep_at(s, j),
        },
    decreases s.len() - from,
{
    if from + 1 < s.len() && !(s[from] == '~' && s[from + 1] == '~') {
        lemma_find_separator(s, from + 1);
    }
}

/// The pieces of `s` between the separators, as `str::split` gives them.
pub open spec fn split_names(s: Seq<char>) -> Seq<Seq<char>>
    decreases s.len(),
{
    match find_separator(s, 0) {
        Some(i) => {
            proof {
                lemma_find_separator(s, 0);
            }
            seq![s.take(i)] + split_names(s.skip(i + 2))
        },
        None => seq![s],
    }
}

/// A key made of the names of the plugins that format a file, joined by `~~`.
#[derive(Debug, PartialEq, Eq, Hash)]
pub struct PluginNames(pub String);

impl View for PluginNames {
    type V = Seq<char>;

    open spec fn view(&self) -> Seq<char> {
        self.0@
    }
}

impl PluginNames {
    /// The key for the plugins' names, in order.
    pub fn from_names(names: &Vec<String>) -> (r: PluginNames)
        ensures
            r@ == join(names.deep_view(), separator()),
    {
        proof {
            reveal_strlit("~~");
            assert("~~"@ =~= separator());
        }
        PluginNames(join_strings(names, "~~"))
    }

    /// A copy of the key.
    pub fn duplicate(&self) -> (r: PluginNames)
        ensures
            r@ == self@,
    {
        PluginNames(copy_str(self.0.as_str()))
    }

    /// The names of the plugins, in order (see [`split_names`]).
    pub fn names(&self) -> (r: Vec<String>)
        ensures
            r.deep_view() == split_names(self@),
    {
        let chars = chars_of(self.0.as_str());
        let n = chars.len();
        let mut out: Vec<String> = Vec::new();
        let mut start: usize = 0;
        let mut i: usize = 0;
        assert(chars@.skip(0) =~= chars@);
        assert(out.deep_view() + split_names(chars@.skip(0)) =~= split_names(self@));
        while i < n && n - i > 1
            invariant
                chars@ == self@,
                n == chars@.len(),
                start <= i <= n,
                out.deep_view() + split_names(chars@.skip(start as int)) == split_names(self@),
                forall|j: int| start <= j < i ==> !#[trigger] sep_at(chars@, j),
            decreases n - i,
        {
            let ghost rest = chars@.skip(start as int);
            if chars[i] == '~' && chars[i + 1] == '~' {
                proof {
                    assert(rest[i - start] == '~' && rest[i - start + 1] == '~');
                    lemma_find_separator(rest, 0);
                    lemma_find_separator(rest, (i - start) as int);
                    assert(find_separator(rest, 0) == Some((i - start) as int)) by {
                        if let Some(w) = find_separator(rest, 0) {
                            if w < i - start {
                                assert(sep_at(chars@, start + w));
                            }
                        }
                    }
                    assert(rest.skip(i - start + 2) =~= chars@.skip(i + 2));
                }
                let piece = string_of_range(&chars, start, i);
                assert(piece@ =~= rest.take(i - start));
                let ghost before = out.deep_view();
                out.push(piece);
                assert(out.deep_view() =~= before.push(rest.take(i - start)));
                assert(out.deep_view() + split_names(chars@.skip(i + 2)) =~= before + (seq![rest.take(i - start)]
                    + split_names(rest.skip(i - start + 2))));
                start = i + 2;
                i = i + 2;
            } else {
                i = i + 1;
            }
        }
        let ghost rest = chars@.skip(start as int);
        proof {
            lemma_find_separator(rest, 0);
            assert(find_separator(rest, 0) is None) by {
                if let Some(w) = find_separator(rest, 0) {
                    assert(sep_at(chars@, start + w));
                }
            }
        }
        let piece = string_of_range(&chars, start, n);
        assert(piece@ =~= rest);
        let ghost before = out.deep_view();
        out.push(piece);
        assert(out.deep_view() =~= before + seq![rest]);
        out
    }
}

proof fn lemma_join_front(ns: Seq<Seq<char>>, sep: Seq<char>)
    requires
        ns.len() >= 2,
    ensures
        join(ns, sep) == ns[0] + sep + join(ns.drop_first(), sep),
    decreases ns.len(),
{
    if ns.len() > 2 {
        lemma_join_front(ns.drop_last(), sep);
        assert(join(ns.drop_first(), sep) == join(ns.drop_first().drop_last(), sep) + sep + ns.drop_first().last());
        assert(ns.drop_last().drop_first() =~= ns.drop_first().drop_last());
        assert(ns.drop_first().last() == ns.last());
        assert(ns.drop_last()[0] == ns[0]);
        assert(ns[0] + sep + join(ns.drop_first().drop_last(), sep) + sep + ns.last() =~= ns[0] + sep + (join(
            ns.drop_first().drop_last(),
            sep,
        ) + sep + ns.last()));
    } else {
        assert(ns.drop_last() =~= seq![ns[0]]);
        assert(ns.drop_first() =~= seq![ns[1]]);
        assert(join(seq![ns[0]], sep) == ns[0]);
        assert(join(seq![ns[1]], sep) == ns[1]);
    }
}

/// Whether the text holds no separator.
pub open spec fn no_separator(s: Seq<char>) -> bool {
    forall|j: int| !#[trigger] sep_at(s, j)
}

proof fn lemma_split_without_separator(s: Seq<char>)
    requires
        no_separator(s),
    ensures
        split_names(s) == seq![s],
{
    lemma_find_separator(s, 0);
}

proof fn lemma_split_first(a: Seq<char>, b: Seq<char>)
    requires
        no_separator(a),
        a.len() == 0 || a.last() != '~',
    ensures
        split_names(a + separator() + b) == seq![a] + split_names(b),
{
    let s = a + separator() + b;
    lemma_find_separator(s, 0);
    assert(sep_at(s, a.len() as int));
    let i = find_separator(s, 0)->0;
    assert(i == a.len()) by {
        if i < a.len() {
            if i + 1 < a.len() {
                assert(sep_at(a, i));
            } else {
                assert(s[i] == a.last());
            }
        }
    }
    assert(s.take(i) =~= a);
    assert(s.skip(i + 2) =~= b);
}

/// A key built from plugin names gives those names back, as long as there is
/// at least one, none holds the separator `~~`, and none but the last ends
/// with a `~` (which would run into the separator after it).
pub proof fn law_plugin_names_roundtrip(ns: Seq<Seq<char>>)
    requires
        ns.len() > 0,
        forall|i: int| 0 <= i < ns.len() ==> no_separator(#[trigger] ns[i]),
        forall|i: int| 0 <= i < ns.len() - 1 ==> (#[trigger] ns[i]).len() == 0 || ns[i].last() != '~',
    ensures
        split_names(join(ns, separator())) == ns,
    decreases ns.len(),
{
    if ns.len() == 1 {
        lemma_split_without_separator(ns[0]);
        assert(seq![ns[0]] =~= ns);
    } else {
        lemma_join_front(ns, separator());
        let rest = ns.drop_first();
        assert forall|i: int| 0 <= i < rest.len() implies no_separator(#[trigger] rest[i]) by {
            assert(rest[i] == ns[i + 1]);
        }
        assert forall|i: int| 0 <= i < rest.len() - 1 implies (#[trigger] rest[i]).len() == 0 || rest[i].last() != '~' by {
            assert(rest[i] == ns[i + 1]);
        }
        law_plugin_names_roundtrip(rest);
        assert(no_separator(ns[0]));
        assert(ns[0].len() == 0 || ns[0].last() != '~');
        lemma_split_first(ns[0], join(rest, separator()));
        assert(seq![ns[0]] + rest =~= ns);
    }
}

/// The message of [`NoFilesFoundError`].
pub open spec fn no_files_found_message(base_path: Seq<char>) -> Seq<char> {
    "No files found to format with the specified plugins at "@ + base_path
        + ". You may want to try using `dprint output-file-paths` to see which files it's finding or run with `--allow-no-files`."@
}

/// No file was found for any plugin under the base path.
#[derive(Debug)]
pub struct NoFilesFoundError {
    pub base_path: CanonicalizedPathBuf,
}

impl NoFilesFoundError {
    /// The text that explains the error to the user.
    pub fn to_string(&self) -> (r: String)
        ensures
            r@ == no_files_found_message(self.base_path@),
    {
        concat3(
            "No files found to format with the specified plugins at ",
            self.base_path.display(),
            ". You may want to try using `dprint output-file-paths` to see which files it's finding or run with `--allow-no-files`.",
        )
    }
}

/// The files to format, grouped by the key of the plugins that format them.
/// No key occurs twice.
#[derive(Debug)]
pub struct FilesPathsByPlugins {
    groups: Vec<(String, Vec<String>)>,
}

/// The keys of the groups, in order.
pub open spec fn group_keys(g: Seq<(String, Vec<String>)>) -> Seq<Seq<char>> {
    g.map_values(|e: (String, Vec<String>)| e.0@)
}

/// The mathematical value of the groups.
pub open spec fn groups_view(g: Seq<(String, Vec<String>)>) -> Seq<(Seq<char>, Seq<Seq<char>>)> {
    g.map_values(|e: (String, Vec<String>)| (e.0@, e.1.deep_view()))
}

/// The mathematical value of the groups as handed out.
pub open spec fn named_groups_view(g: Seq<(PluginNames, Vec<String>)>) -> Seq<(Seq<char>, Seq<Seq<char>>)> {
    g.map_values(|e: (PluginNames, Vec<String>)| (e.0@, e.1.deep_view()))
}

/// Whether no key occurs twice.
pub open spec fn distinct_keys(keys: Seq<Seq<char>>) -> bool {
    forall|i: int, j: int| 0 <= i < j < keys.len() ==> keys[i] != keys[j]
}

/// All the file paths of the groups, group after group.
pub open spec fn all_paths(g: Seq<(Seq<char>, Seq<Seq<char>>)>) -> Seq<Seq<char>>
    decreases g.len(),
{
    if g.len() == 0 {
        Seq::empty()
    } else {
        all_paths(g.drop_last()) + g.last().1
    }
}

/// The groups after adding a file formatted by the plugins of `key`: into
/// that key's group when there is one, else into a new group at the end.
pub open spec fn add_to_groups(g: Seq<(Seq<char>, Seq<Seq<char>>)>, key: Seq<char>, path: Seq<char>) -> Seq<
    (Seq<char>, Seq<Seq<char>>),
> {
    match crate::configuration::key_index(g, key) {
        Some(i) => g.update(i, (key, g[i].1.push(path))),
        None => g.push((key, seq![path])),
    }
}

impl View for FilesPathsByPlugins {
    type V = Seq<(Seq<char>, Seq<Seq<char>>)>;

    closed spec fn view(&self) -> Seq<(Seq<char>, Seq<Seq<char>>)> {
        groups_view(self.groups@)
    }
}

impl FilesPathsByPlugins {
    #[verifier::type_invariant]
    spec fn keys_distinct(self) -> bool {
        distinct_keys(group_keys(self.groups@))
    }

    /// No files yet.
    pub fn new() -> (r: FilesPathsByPlugins)
        ensures
            r@.len() == 0,
    {
        let r = FilesPathsByPlugins { groups: Vec::new() };
        assert(r@ =~= Seq::<(Seq<char>, Seq<Seq<char>>)>::empty());
        r
    }

    /// Adds a file with the names of the plugins that format it, in order; a
    /// file that no plugin formats is left out.
    pub fn add_file(&mut self, plugin_names: &Vec<String>, file_path: String)
        ensures
            plugin_names@.len() == 0 ==> final(self)@ == old(self)@,
            plugin_names@.len() > 0 ==> final(self)@ == add_to_groups(
                old(self)@,
                join(plugin_names.deep_view(), separator()),
                file_path@,
            ),
    {
        if plugin_names.len() == 0 {
            return;
        }
        proof {
            use_type_invariant(&*self);
        }
        let key = PluginNames::from_names(plugin_names).0;
        let mut groups: Vec<(String, Vec<String>)> = Vec::new();
        std::mem::swap(&mut groups, &mut self.groups);
        let ghost gv = groups_view(groups@);
        let ghost keys = group_keys(groups@);
        proof {
            crate::configuration::lemma_key_index_same_keys(
                crate::configuration::key_view(groups@),
                gv,
                key@,
            );
            crate::configuration::lemma_key_index(gv, key@);
        }
        match crate::configuration::find_key(&groups, key.as_str()) {
            Some(k) => {
                let (gkey, mut paths) = groups.remove(k);
                let ghost pv = paths.deep_view();
                let ghost pathv = file_path@;
                paths.push(file_path);
                assert(paths.deep_view() =~= pv.push(pathv));
                groups.insert(k, (gkey, paths));
                assert(groups_view(groups@) =~= gv.update(k as int, (key@, gv[k as int].1.push(pathv))));
                assert(group_keys(groups@) =~= keys);
            },
            None => {
                let ghost kv = key@;
                let ghost pathv = file_path@;
                let mut paths: Vec<String> = Vec::new();
                paths.push(file_path);
                assert(paths.deep_view() =~= seq![pathv]);
                groups.push((key, paths));
                assert(groups_view(groups@) =~= gv.push((kv, seq![pathv])));
                assert(group_keys(groups@) =~= keys.push(kv));
                assert(distinct_keys(keys.push(kv))) by {
                    assert forall|a: int, b: int| 0 <= a < b < keys.push(kv).len() implies keys.push(kv)[a]
                        != keys.push(kv)[b] by {
                        if b == keys.len() {
                            assert(gv[a].0 == keys[a]);
                        }
                    }
                }
            },
        }
        self.groups = groups;
    }

    /// Whether no file was found for any plugin.
    pub fn is_empty(&self) -> (r: bool)
        ensures
            r == (self@.len() == 0),
    {
        self.groups.len() == 0
    }

    /// Fails when no file was found for any plugin.
    pub fn ensure_not_empty(&self, base_path: &CanonicalizedPathBuf) -> (r: Result<(), NoFilesFoundError>)
        ensures
            match r {
                Ok(()) => self@.len() > 0,
                Err(e) => self@.len() == 0 && e.base_path@ == base_path@,
            },
    {
        if self.is_empty() {
            Err(NoFilesFoundError { base_path: base_path.duplicate() })
        } else {
            Ok(())
        }
    }

    /// The groups, each key with its files.
    pub fn into_vec(self) -> (r: Vec<(PluginNames, Vec<String>)>)
        ensures
            named_groups_view(r@) == self@,
    {
        let ghost gv = self@;
        let mut groups = self.groups;
        let mut out: Vec<(PluginNames, Vec<String>)> = Vec::new();
        let ghost orig = groups_view(groups@);
        while groups.len() > 0
            invariant
                gv == orig,
                named_groups_view(out@) + groups_view(groups@) == orig,
            decreases groups@.len(),
        {
            let ghost before = groups_view(groups@);
            let ghost done = named_groups_view(out@);
            let (key, paths) = groups.remove(0);
            assert(groups_view(groups@) =~= before.drop_first());
            let ghost entry = (key@, paths.deep_view());
            out.push((PluginNames(key), paths));
            assert(named_groups_view(out@) =~= done.push(entry));
            assert(done.push(entry) + before.drop_first() =~= done + before);
        }
        assert(groups_view(groups@) =~= Seq::<(Seq<char>, Seq<Seq<char>>)>::empty());
        assert(named_groups_view(out@) + Seq::<(Seq<char>, Seq<Seq<char>>)>::empty() =~= named_groups_view(out@));
        out
    }

    /// All the files, group after group.
    pub fn all_file_paths(&self) -> (r: Vec<String>)
        ensures
            r.deep_view() == all_paths(self@),
    {
        let ghost gv = self@;
        let mut out: Vec<String> = Vec::new();
        let mut i: usize = 0;
        assert(gv.take(0) =~= Seq::<(Seq<char>, Seq<Seq<char>>)>::empty());
        assert(out.deep_view() =~= Seq::<Seq<char>>::empty());
        while i < self.groups.len()
            invariant
                i <= self.groups@.len(),
                gv == self@,
                out.deep_view() == all_paths(gv.take(i as int)),
            decreases self.groups@.len() - i,
        {
            assert(gv.take(i + 1).drop_last() =~= gv.take(i as int));
            assert(gv.take(i + 1).last() == (self.groups@[i as int].0@, self.groups@[i as int].1.deep_view()));
            let paths = &self.groups[i].1;
            let ghost before = out.deep_view();
            let mut j: usize = 0;
            while j < paths.len()
                invariant
                    j <= paths@.len(),
                    out.deep_view() == before + paths.deep_view().take(j as int),
                decreases paths@.len() - j,
            {
                let ghost prev = out.deep_view();
                out.push(copy_str(paths[j].as_str()));
                assert(out.deep_view() =~= prev.push(paths@[j as int]@));
                assert(paths.deep_view().take(j + 1) =~= paths.deep_view().take(j as int).push(paths@[j as int]@));
                j = j + 1;
            }
            assert(paths.deep_view().take(j as int) =~= paths.deep_view());
            i = i + 1;
        }
        assert(gv.take(i as int) =~= gv);
        out
    }
}

proof fn lemma_all_paths_update(g: Seq<(Seq<char>, Seq<Seq<char>>)>, i: int, key: Seq<char>, path: Seq<char>)
    requires
        0 <= i < g.len(),
    ensures
        all_paths(g.update(i, (key, g[i].1.push(path)))).to_multiset() == all_paths(g).to_multiset().insert(path),
    decreases g.len(),
{
    broadcast use vstd::seq_lib::group_to_multiset_ensures;
    broadcast use vstd::multiset::group_multiset_axioms;

    let h = g.update(i, (key, g[i].1.push(path)));
    vstd::seq_lib::lemma_multiset_commutative(all_paths(g.drop_last()), g.last().1);
    vstd::seq_lib::lemma_multiset_commutative(all_paths(h.drop_last()), h.last().1);
    if i == g.len() - 1 {
        assert(h.drop_last() =~= g.drop_last());
        assert(h.last().1 == g.last().1.push(path));
        assert(all_paths(g).to_multiset().insert(path) =~= all_paths(g.drop_last()).to_multiset().add(
            g.last().1.to_multiset(),
        ).insert(path));
        assert(all_paths(h).to_multiset() =~= all_paths(g.drop_last()).to_multiset().add(
            g.last().1.to_multiset().insert(path),
        ));
    } else {
        lemma_all_paths_update(g.drop_last(), i, key, path);
        assert(h.drop_last() =~= g.drop_last().update(i, (key, g.drop_last()[i].1.push(path))));
        assert(h.last() == g.last());
        assert(all_paths(h).to_multiset() =~= all_paths(g.drop_last()).to_multiset().insert(path).add(
            g.last().1.to_multiset(),
        ));
    }
}

/// Adding a file to the groups puts it in exactly one group: the files of
/// all groups afterwards are those before and the new one, and the keys stay
/// distinct.
pub proof fn law_add_file_once(g: Seq<(Seq<char>, Seq<Seq<char>>)>, key: Seq<char>, path: Seq<char>)
    requires
        distinct_keys(g.map_values(|e: (Seq<char>, Seq<Seq<char>>)| e.0)),
    ensures
        all_paths(add_to_groups(g, key, path)).to_multiset() == all_paths(g).to_multiset().insert(path),
        distinct_keys(add_to_groups(g, key, path).map_values(|e: (Seq<char>, Seq<Seq<char>>)| e.0)),
        crate::configuration::key_index(add_to_groups(g, key, path), key) is Some,
{
    broadcast use vstd::seq_lib::group_to_multiset_ensures;
    broadcast use vstd::multiset::group_multiset_axioms;

    crate::configuration::lemma_key_index(g, key);
    let keys = g.map_values(|e: (Seq<char>, Seq<Seq<char>>)| e.0);
    let r = add_to_groups(g, key, path);
    let rkeys = r.map_values(|e: (Seq<char>, Seq<Seq<char>>)| e.0);
    match crate::configuration::key_index(g, key) {
        Some(i) => {
            lemma_all_paths_update(g, i, key, path);
            assert(rkeys =~= keys);
            assert(r[i].0 == key);
        },
        None => {
            assert(r.drop_last() =~= g);
            vstd::seq_lib::lemma_multiset_commutative(all_paths(g), seq![path]);
            assert(seq![path] =~= Seq::<Seq<char>>::empty().push(path));
            assert(rkeys =~= keys.push(key));
            assert forall|a: int, b: int| 0 <= a < b < rkeys.len() implies rkeys[a] != rkeys[b] by {
                if b == keys.len() {
                    assert(g[a].0 == keys[a]);
                }
            }
            assert(r[g.len() as int].0 == key);
        },
    }
    crate::configuration::lemma_key_index(r, key);
}

/// What a plugin matches files by, as far as deriving patterns goes.
#[derive(Debug)]
pub struct PluginFileMatching {
    pub file_names: Vec<String>,
    pub file_extensions: Vec<String>,
    pub associations: Option<Vec<String>>,
}

/// `s` with each item of `items` added unless already there, in order.
pub open spec fn insert_all_unique(s: Seq<Seq<char>>, items: Seq<Seq<char>>) -> Seq<Seq<char>>
    decreases items.len(),
{
    if items.len() == 0 {
        s
    } else {
        insert_unique(insert_all_unique(s, items.drop_last()), items.last())
    }
}

/// The distinct file extensions of the plugins, each where it first occurs.
pub open spec fn plugin_extensions(ps: Seq<PluginFileMatching>) -> Seq<Seq<char>>
    decreases ps.len(),
{
    if ps.len() == 0 {
        Seq::empty()
    } else {
        insert_all_unique(plugin_extensions(ps.drop_last()), ps.last().file_extensions.deep_view())
    }
}

/// The distinct file names of the plugins, each where it first occurs.
pub open spec fn plugin_file_names(ps: Seq<PluginFileMatching>) -> Seq<Seq<char>>
    decreases ps.len(),
{
    if ps.len() == 0 {
        Seq::empty()
    } else {
        insert_all_unique(plugin_file_names(ps.drop_last()), ps.last().file_names.deep_view())
    }
}

/// The processed association patterns of one plugin that include, in order.
pub open spec fn positive_associations(a: Seq<Seq<char>>) -> Seq<Seq<char>>
    decreases a.len(),
{
    if a.len() == 0 {
        Seq::empty()
    } else if spec_negated_glob(spec_config_pattern(a.last())) {
        positive_associations(a.drop_last())
    } else {
        positive_associations(a.drop_last()).push(spec_config_pattern(a.last()))
    }
}

/// The processed association patterns of the plugins that include, plugin
/// after plugin.
pub open spec fn association_globs(ps: Seq<PluginFileMatching>) -> Seq<Seq<char>>
    decreases ps.len(),
{
    if ps.len() == 0 {
        Seq::empty()
    } else {
        association_globs(ps.drop_last()) + match ps.last().associations {
            Some(a) => positive_associations(a.deep_view()),
            None => Seq::empty(),
        }
    }
}

/// The include patterns derived from the plugins when the configuration
/// names none: one for all their extensions, one for all their file names,
/// and last their associations' patterns that include, which are the least
/// likely to match.
pub open spec fn plugin_patterns(ps: Seq<PluginFileMatching>) -> Seq<Seq<char>> {
    let exts = plugin_extensions(ps);
    let names = plugin_file_names(ps);
    (if exts.len() > 0 {
        seq!["**/*.{"@ + join(exts, ","@) + "}"@]
    } else {
        Seq::empty()
    }) + (if names.len() > 0 {
        seq!["**/{"@ + join(names, ","@) + "}"@]
    } else {
        Seq::empty()
    }) + association_globs(ps)
}

/// Adds each of `items` to `v` unless already there, in order.
fn extend_unique(v: &mut Vec<String>, items: &Vec<String>)
    ensures
        final(v).deep_view() == insert_all_unique(old(v).deep_view(), items.deep_view()),
{
    let ghost start = v.deep_view();
    let ghost iv = items.deep_view();
    let mut i: usize = 0;
    assert(iv.take(0) =~= Seq::<Seq<char>>::empty());
    while i < items.len()
        invariant
            i <= items@.len(),
            iv == items.deep_view(),
            start == old(v).deep_view(),
            v.deep_view() == insert_all_unique(start, iv.take(i as int)),
        decreases items@.len() - i,
    {
        assert(iv.take(i + 1).drop_last() =~= iv.take(i as int));
        assert(iv.take(i + 1).last() == items@[i as int]@);
        crate::init_config::push_unique_string(v, copy_str(items[i].as_str()));
        i = i + 1;
    }
    assert(iv.take(i as int) =~= iv);
}

/// The include patterns derived from the plugins (see [`plugin_patterns`]).
pub fn get_plugin_patterns(plugins: &Vec<PluginFileMatching>) -> (r: Vec<String>)
    ensures
        r.deep_view() == plugin_patterns(plugins@),
{
    let ghost pv = plugins@;
    let mut exts: Vec<String> = Vec::new();
    let mut names: Vec<String> = Vec::new();
    let mut globs: Vec<String> = Vec::new();
    let mut i: usize = 0;
    assert(pv.take(0) =~= Seq::<PluginFileMatching>::empty());
    assert(exts.deep_view() =~= Seq::<Seq<char>>::empty());
    assert(names.deep_view() =~= Seq::<Seq<char>>::empty());
    assert(globs.deep_view() =~= Seq::<Seq<char>>::empty());
    while i < plugins.len()
        invariant
            i <= plugins@.len(),
            pv == plugins@,
            exts.deep_view() == plugin_extensions(pv.take(i as int)),
            names.deep_view() == plugin_file_names(pv.take(i as int)),
            globs.deep_view() == association_globs(pv.take(i as int)),
        decreases plugins@.len() - i,
    {
        assert(pv.take(i + 1).drop_last() =~= pv.take(i as int));
        assert(pv.take(i + 1).last() == plugins@[i as int]);
        let p = &plugins[i];
        extend_unique(&mut names, &p.file_names);
        extend_unique(&mut exts, &p.file_extensions);
        match &p.associations {
            Some(a) => {
                let ghost before = globs.deep_view();
                let ghost av = a.deep_view();
                let mut j: usize = 0;
                assert(av.take(0) =~= Seq::<Seq<char>>::empty());
                assert(before + positive_associations(av.take(0)) =~= before);
                while j < a.len()
                    invariant
                        j <= a@.len(),
                        av == a.deep_view(),
                        globs.deep_view() == before + positive_associations(av.take(j as int)),
                    decreases a@.len() - j,
                {
                    assert(av.take(j + 1).drop_last() =~= av.take(j as int));
                    assert(av.take(j + 1).last() == a@[j as int]@);
                    let pattern = process_config_pattern(a[j].as_str());
                    if !is_negated_glob(pattern.as_str()) {
                        let ghost prev = globs.deep_view();
                        let ghost pat = pattern@;
                        globs.push(pattern);
                        assert(globs.deep_view() =~= prev.push(pat));
                        assert(before + positive_associations(av.take(j + 1)) =~= (before + positive_associations(
                            av.take(j as int),
                        )).push(pat));
                    }
                    j = j + 1;
                }
                assert(av.take(j as int) =~= av);
            },
            None => {
                assert(globs.deep_view() =~= globs.deep_view() + Seq::<Seq<char>>::empty());
            },
        }
        i = i + 1;
    }
    assert(pv.take(i as int) =~= pv);
    let mut result: Vec<String> = Vec::new();
    if exts.len() > 0 {
        let joined = join_strings(&exts, ",");
        result.push(concat3("**/*.{", joined.as_str(), "}"));
    }
    if names.len() > 0 {
        let joined = join_strings(&names, ",");
        result.push(concat3("**/{", joined.as_str(), "}"));
    }
    let ghost head = result.deep_view();
    let mut k: usize = 0;
    while k < globs.len()
        invariant
            k <= globs@.len(),
            result.deep_view() == head + globs.deep_view().take(k as int),
        decreases globs@.len() - k,
    {
        let ghost prev = result.deep_view();
        result.push(copy_str(globs[k].as_str()));
        assert(result.deep_view() =~= prev.push(globs@[k as int]@));
        assert(globs.deep_view().take(k + 1) =~= globs.deep_view().take(k as int).push(globs@[k as int]@));
        k = k + 1;
    }
    assert(globs.deep_view().take(k as int) =~= globs.deep_view());
    assert(result.deep_view() =~= plugin_patterns(plugins@));
    result
}

} // verus!
