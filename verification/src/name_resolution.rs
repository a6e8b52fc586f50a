//! Which plugins format a file: the plugins that claim it by their
//! associations, file names or extensions, plus the additive plugins that
//! match it. Extensionless files may be routed by their shebang line.
use vstd::prelude::*;
use crate::text::{copy_str, str_eq, starts_with, chars_of, lowercase, to_lowercase, has_prefix};
use crate::init_config::contains_string;
use crate::permissions::copy_strings;
use crate::path::{spec_file_name, spec_extension, file_name, extension};
use crate::environment::is_unicode_whitespace;
use crate::format::{stable_order_by_key, is_index_permutation, ordered_by_key, stable_by_key};

verus! {

/// What a plugin's `associations` patterns say of a file.
#[derive(Debug, Clone, Copy, PartialEq, Eq, Structural)]
pub enum GlobMatchesDetail {
    Matched,
    /// Matched by a pattern that opts out of an exclusion.
    MatchedOptedOutExclude,
    Excluded,
    NotMatched,
}

/// Whether the patterns match the file.
pub open spec fn detail_matches(d: GlobMatchesDetail) -> bool {
    d == GlobMatchesDetail::Matched || d == GlobMatchesDetail::MatchedOptedOutExclude
}

/// What the patterns of the `i`th plugin say of the file: not matched when
/// nothing was given for it.
pub open spec fn detail_at(details: Seq<GlobMatchesDetail>, i: int) -> GlobMatchesDetail {
    if 0 <= i < details.len() {
        details[i]
    } else {
        GlobMatchesDetail::NotMatched
    }
}

/// A plugin as it takes part in file matching.
#[derive(Debug)]
pub struct PluginMatchInput {
    pub name: String,
    /// Whether the plugin formats a file it matches in addition to the plugin
    /// that claims it, rather than claiming the file itself.
    pub additive: bool,
    pub file_extensions: Vec<String>,
    pub file_names: Vec<String>,
    /// Whether the plugin has `associations`, which add to its default file
    /// matching (a negated pattern excludes a file it would match by default).
    pub has_associations: bool,
}

/// A plugin as the maps hold it, its extensions and file names in lowercase.
#[derive(Debug)]
struct PluginEntry {
    name: String,
    additive: bool,
    extensions: Vec<String>,
    file_names: Vec<String>,
    has_associations: bool,
}

/// The mathematical value of a plugin in the maps.
pub struct EntryView {
    pub name: Seq<char>,
    pub additive: bool,
    pub extensions: Seq<Seq<char>>,
    pub file_names: Seq<Seq<char>>,
    pub has_associations: bool,
}

/// The mathematical value of [`PluginNameResolutionMaps`].
pub struct MapsView {
    pub plugins: Seq<EntryView>,
    pub shebang_to_extension: Seq<(Seq<char>, Seq<char>)>,
}

/// How the plugins of a scope are found for a file. The plugins keep the
/// configuration's order, which is the order they format a file in.
#[derive(Debug)]
pub struct PluginNameResolutionMaps {
    plugins: Vec<PluginEntry>,
    has_additive: bool,
    /// The configured shebang lines, each with the extension it stands for,
    /// longest first so that the most specific one matches first.
    shebang_to_extension: Vec<(String, String)>,
}

pub open spec fn entry_view_of(p: PluginMatchInput) -> EntryView {
    EntryView {
        name: p.name@,
        additive: p.additive,
        extensions: p.file_extensions.deep_view().map_values(|e: Seq<char>| lowercase(e)),
        file_names: p.file_names.deep_view().map_values(|e: Seq<char>| lowercase(e)),
        has_associations: p.has_associations,
    }
}

spec fn entry_of(e: PluginEntry) -> EntryView {
    EntryView {
        name: e.name@,
        additive: e.additive,
        extensions: e.extensions.deep_view(),
        file_names: e.file_names.deep_view(),
        has_associations: e.has_associations,
    }
}

pub open spec fn any_additive(ps: Seq<EntryView>) -> bool {
    exists|i: int| 0 <= i < ps.len() && (#[trigger] ps[i]).additive
}

impl View for PluginNameResolutionMaps {
    type V = MapsView;

    closed spec fn view(&self) -> MapsView {
        MapsView {
            plugins: self.plugins@.map_values(|e: PluginEntry| entry_of(e)),
            shebang_to_extension: self.shebang_to_extension@.map_values(|e: (String, String)| (e.0@, e.1@)),
        }
    }
}

/// The number of bytes a character takes in UTF-8.
pub open spec fn utf8_len(c: char) -> int {
    if (c as u32) < 0x80 {
        1
    } else if (c as u32) < 0x800 {
        2
    } else if (c as u32) < 0x10000 {
        3
    } else {
        4
    }
}

/// The number of bytes a text takes in UTF-8, which is what `str::len` gives.
pub open spec fn byte_len(s: Seq<char>) -> int
    decreases s.len(),
{
    if s.len() == 0 {
        0
    } else {
        byte_len(s.drop_last()) + utf8_len(s.last())
    }
}

/// The number of bytes of `s` in UTF-8 (see [`byte_len`]).
fn utf8_byte_len(s: &str) -> (r: u128)
    ensures
        r == byte_len(s@),
        r <= 4 * s@.len(),
{
    let chars = chars_of(s);
    let mut total: u128 = 0;
    let mut i: usize = 0;
    while i < chars.len()
        invariant
            chars@ == s@,
            i <= chars@.len(),
            total == byte_len(chars@.take(i as int)),
            total <= 4 * i,
        decreases chars@.len() - i,
    {
        assert(chars@.take(i + 1).drop_last() =~= chars@.take(i as int));
        let c = chars[i] as u32;
        let w: u128 = if c < 0x80 {
            1
        } else if c < 0x800 {
            2
        } else if c < 0x10000 {
            3
        } else {
            4
        };
        total = total + w;
        i = i + 1;
    }
    assert(chars@.take(i as int) =~= chars@);
    total
}

/// The shebang mappings ordered longest first, keeping the configured order
/// among shebangs of the same length, as a stable sort leaves them.
pub open spec fn shebangs_longest_first(
    configured: Seq<(Seq<char>, Seq<char>)>,
    sorted: Seq<(Seq<char>, Seq<char>)>,
) -> bool {
    exists|order: Seq<usize>|
        #![trigger is_index_permutation(order, configured.len() as int)]
        is_index_permutation(order, configured.len() as int) && sorted.len() == configured.len() && (forall|
            k: int,
        |
            0 <= k < sorted.len() ==> #[trigger] sorted[k] == configured[order[k] as int]) && (forall|p: int, q: int|
            0 <= p < q < order.len() ==> byte_len(#[trigger] configured[order[p] as int].0) >= byte_len(
                #[trigger] configured[order[q] as int].0,
            ) && (byte_len(configured[order[p] as int].0) == byte_len(configured[order[q] as int].0) ==> order[p]
                < order[q]))
}

fn lowercase_all(v: &Vec<String>) -> (r: Vec<String>)
    ensures
        r.deep_view() == v.deep_view().map_values(|e: Seq<char>| lowercase(e)),
{
    let mut r: Vec<String> = Vec::new();
    let mut i: usize = 0;
    while i < v.len()
        invariant
            i <= v@.len(),
            r.deep_view() == v.deep_view().take(i as int).map_values(|e: Seq<char>| lowercase(e)),
        decreases v@.len() - i,
    {
        let ghost prev = r.deep_view();
        r.push(to_lowercase(v[i].as_str()));
        assert(r.deep_view() =~= prev.push(lowercase(v@[i as int]@)));
        assert(v.deep_view().take(i + 1).map_values(|e: Seq<char>| lowercase(e)) =~= v.deep_view().take(
            i as int,
        ).map_values(|e: Seq<char>| lowercase(e)).push(lowercase(v@[i as int]@)));
        i = i + 1;
    }
    assert(v.deep_view().take(i as int) =~= v.deep_view());
    r
}

/// The plugins that claim a file, as positions among the plugins. Only
/// associations can have several plugins claim the same file.
#[derive(Debug)]
pub enum ClaimingPlugins {
    Unclaimed,
    One(usize),
    Many(Vec<usize>),
}

/// The positions of a [`ClaimingPlugins`].
pub open spec fn claiming_indexes(c: ClaimingPlugins) -> Seq<usize> {
    match c {
        ClaimingPlugins::Unclaimed => Seq::empty(),
        ClaimingPlugins::One(i) => seq![i],
        ClaimingPlugins::Many(v) => v@,
    }
}

impl ClaimingPlugins {
    /// The positions of the claiming plugins, in configuration order.
    pub fn indexes(&self) -> (r: Vec<usize>)
        ensures
            r@ == claiming_indexes(*self),
    {
        match self {
            ClaimingPlugins::Unclaimed => Vec::new(),
            ClaimingPlugins::One(index) => {
                let mut v: Vec<usize> = Vec::new();
                v.push(*index);
                assert(v@ =~= seq![*index]);
                v
            },
            ClaimingPlugins::Many(indexes) => {
                let mut v: Vec<usize> = Vec::new();
                let mut i: usize = 0;
                while i < indexes.len()
                    invariant
                        i <= indexes@.len(),
                        v@ == indexes@.take(i as int),
                    decreases indexes@.len() - i,
                {
                    v.push(indexes[i]);
                    assert(v@ =~= indexes@.take(i + 1));
                    i = i + 1;
                }
                assert(indexes@.take(i as int) =~= indexes@);
                v
            },
        }
    }

    /// Whether no plugin claims the file.
    pub fn is_empty(&self) -> (r: bool)
        ensures
            r == (claiming_indexes(*self).len() == 0),
    {
        match self {
            ClaimingPlugins::Unclaimed => true,
            ClaimingPlugins::One(_) => false,
            ClaimingPlugins::Many(indexes) => indexes.len() == 0,
        }
    }

    /// Whether the plugin at `index` claims the file.
    pub fn contains(&self, index: usize) -> (r: bool)
        ensures
            r == claiming_indexes(*self).contains(index),
    {
        match self {
            ClaimingPlugins::Unclaimed => false,
            ClaimingPlugins::One(i) => {
                assert(seq![*i][0] == *i);
                *i == index
            },
            ClaimingPlugins::Many(indexes) => {
                let mut k: usize = 0;
                while k < indexes.len()
                    invariant
                        k <= indexes@.len(),
                        claiming_indexes(*self) == indexes@,
                        forall|j: int| 0 <= j < k ==> indexes@[j] != index,
                    decreases indexes@.len() - k,
                {
                    if indexes[k] == index {
                        assert(indexes@[k as int] == index);
                        return true;
                    }
                    k = k + 1;
                }
                false
            },
        }
    }
}

/// Whether the plugin at `i` matches the file by its associations.
pub open spec fn matches_associations(m: MapsView, i: int, details: Seq<GlobMatchesDetail>) -> bool {
    m.plugins[i].has_associations && detail_matches(detail_at(details, i))
}

/// Whether the plugin at `i` is not kept off the file by a negated pattern of
/// its associations.
pub open spec fn not_associations_excluded(m: MapsView, i: int, details: Seq<GlobMatchesDetail>) -> bool {
    !m.plugins[i].has_associations || detail_at(details, i) != GlobMatchesDetail::Excluded
}

/// Whether the plugin at `i` may claim the file by a name or extension it
/// lists: it is not additive and its associations do not exclude the file.
pub open spec fn may_claim(m: MapsView, i: int, details: Seq<GlobMatchesDetail>) -> bool {
    !m.plugins[i].additive && not_associations_excluded(m, i, details)
}

/// The first plugin at or after `from`, in configuration order, that lists
/// the key (a file name when `by_name`, else an extension) and may claim the
/// file.
pub open spec fn first_claiming_from(
    m: MapsView,
    by_name: bool,
    key: Seq<char>,
    details: Seq<GlobMatchesDetail>,
    from: int,
) -> Option<int>
    decreases m.plugins.len() - from,
{
    if from < 0 || from >= m.plugins.len() {
        None
    } else if (if by_name {
        m.plugins[from].file_names.contains(key)
    } else {
        m.plugins[from].extensions.contains(key)
    }) && may_claim(m, from, details) {
        Some(from)
    } else {
        first_claiming_from(m, by_name, key, details, from + 1)
    }
}

/// The first plugin that lists the file name and may claim the file.
pub open spec fn first_by_name(m: MapsView, name: Seq<char>, details: Seq<GlobMatchesDetail>) -> Option<int> {
    first_claiming_from(m, true, name, details, 0)
}

/// The first plugin that lists the extension and may claim the file.
pub open spec fn first_by_extension(m: MapsView, ext: Seq<char>, details: Seq<GlobMatchesDetail>) -> Option<int> {
    first_claiming_from(m, false, ext, details, 0)
}

/// The positions, in order, of the plugins that claim the file by their
/// associations: those that are not additive and whose associations match.
pub open spec fn association_claimers(m: MapsView, details: Seq<GlobMatchesDetail>, n: int) -> Seq<int>
    decreases n,
{
    if n <= 0 {
        Seq::empty()
    } else if !m.plugins[n - 1].additive && matches_associations(m, n - 1, details) {
        association_claimers(m, details, n - 1).push(n - 1)
    } else {
        association_claimers(m, details, n - 1)
    }
}

/// The plugins that claim the file: those whose associations match it;
/// otherwise the first that claims it by file name; otherwise the first that
/// claims it by extension.
pub open spec fn spec_claiming(
    m: MapsView,
    name: Option<Seq<char>>,
    ext: Option<Seq<char>>,
    details: Seq<GlobMatchesDetail>,
) -> Seq<int> {
    let by_assoc = association_claimers(m, details, m.plugins.len() as int);
    if by_assoc.len() > 0 {
        by_assoc
    } else {
        let by_name = match name {
            Some(n) => first_by_name(m, n, details),
            None => None,
        };
        match by_name {
            Some(i) => seq![i],
            None => match ext {
                Some(e) => match first_by_extension(m, e, details) {
                    Some(i) => seq![i],
                    None => Seq::empty(),
                },
                None => Seq::empty(),
            },
        }
    }
}

/// Whether the plugin at `i` matches the file: by its associations, or by a
/// file name or extension it lists when its associations do not exclude it.
pub open spec fn spec_matches_file(
    m: MapsView,
    i: int,
    name: Option<Seq<char>>,
    ext: Option<Seq<char>>,
    details: Seq<GlobMatchesDetail>,
) -> bool {
    ||| matches_associations(m, i, details)
    ||| ((name matches Some(n) && m.plugins[i].file_names.contains(n)) || (ext matches Some(e)
        && m.plugins[i].extensions.contains(e))) && not_associations_excluded(m, i, details)
}

/// Whether the plugin at `i` formats the file: an additive plugin when it
/// matches the file, any other when it claims it.
pub open spec fn formats_file(
    m: MapsView,
    i: int,
    claimers: Seq<int>,
    name: Option<Seq<char>>,
    ext: Option<Seq<char>>,
    details: Seq<GlobMatchesDetail>,
) -> bool {
    if m.plugins[i].additive {
        spec_matches_file(m, i, name, ext, details)
    } else {
        claimers.contains(i)
    }
}

/// The names of the plugins that format the file, in configuration order,
/// among the first `n` plugins.
pub open spec fn formatting_names(
    m: MapsView,
    claimers: Seq<int>,
    name: Option<Seq<char>>,
    ext: Option<Seq<char>>,
    details: Seq<GlobMatchesDetail>,
    n: int,
) -> Seq<Seq<char>>
    decreases n,
{
    if n <= 0 {
        Seq::empty()
    } else if formats_file(m, n - 1, claimers, name, ext, details) {
        formatting_names(m, claimers, name, ext, details, n - 1).push(m.plugins[n - 1].name)
    } else {
        formatting_names(m, claimers, name, ext, details, n - 1)
    }
}

/// The lowercased file name of a path, if it has one.
pub open spec fn lower_file_name(path: Seq<char>) -> Option<Seq<char>> {
    match spec_file_name(path) {
        Some(n) => Some(lowercase(n)),
        None => None,
    }
}

/// The lowercased extension of a path, if it has one.
pub open spec fn lower_extension(path: Seq<char>) -> Option<Seq<char>> {
    match spec_extension(path) {
        Some(e) => Some(lowercase(e)),
        None => None,
    }
}

/// The plugins that format a file based on its path.
#[derive(Debug)]
pub struct PathPluginNames {
    pub names: Vec<String>,
    pub has_claiming_plugin: bool,
}

impl PathPluginNames {
    /// Whether a plugin claimed the file. When none did, an extensionless
    /// file's shebang line may still route it to a plugin.
    pub fn has_claiming_plugin(&self) -> (r: bool)
        ensures
            r == self.has_claiming_plugin,
    {
        self.has_claiming_plugin
    }

    /// The names of the plugins, in the order they format the file.
    pub fn into_names(self) -> (r: Vec<String>)
        ensures
            r.deep_view() == self.names.deep_view(),
    {
        self.names
    }
}

/// Whether a file's shebang line matches a configured one: it equals it, or
/// starts with it followed by whitespace.
pub open spec fn shebang_prefix_match(line: Seq<char>, configured: Seq<char>) -> bool {
    line == configured || (has_prefix(line, configured) && line.len() > configured.len()
        && is_unicode_whitespace(line[configured.len() as int]))
}

/// The extension of the first configured shebang that the line matches.
pub open spec fn shebang_extension(shebangs: Seq<(Seq<char>, Seq<char>)>, line: Seq<char>) -> Option<Seq<char>>
    decreases shebangs.len(),
{
    if shebangs.len() == 0 {
        None
    } else if shebang_prefix_match(line, shebangs[0].0) {
        Some(shebangs[0].1)
    } else {
        shebang_extension(shebangs.drop_first(), line)
    }
}

/// Whether `line` matches the configured shebang (see
/// [`shebang_prefix_match`]).
pub fn is_shebang_prefix_match(line: &str, configured: &str) -> (r: bool)
    ensures
        r == shebang_prefix_match(line@, configured@),
{
    if str_eq(line, configured) {
        return true;
    }
    let n = configured.unicode_len();
    if starts_with(line, configured) && line.unicode_len() > n {
        let c = line.get_char(n);
        crate::environment::whitespace_char(c)
    } else {
        false
    }
}

/// The positions of `v` as mathematical integers.
pub open spec fn as_ints(v: Seq<usize>) -> Seq<int> {
    v.map_values(|i: usize| i as int)
}

impl PluginNameResolutionMaps {
    #[verifier::type_invariant]
    spec fn well_formed(self) -> bool {
        self.has_additive == any_additive(self@.plugins)
    }

    /// The plugins in configuration order, with the shebang mappings ordered
    /// longest first (see [`shebangs_longest_first`]).
    pub fn from_plugins(plugins: &Vec<PluginMatchInput>, shebangs: Option<&Vec<(String, String)>>) -> (r: Self)
        ensures
            r@.plugins == plugins@.map_values(|p: PluginMatchInput| entry_view_of(p)),
            match shebangs {
                Some(v) => shebangs_longest_first(v@.map_values(|e: (String, String)| (e.0@, e.1@)), r@.shebang_to_extension),
                None => r@.shebang_to_extension.len() == 0,
            },
    {
        let mut entries: Vec<PluginEntry> = Vec::new();
        let mut has_additive = false;
        let ghost target = plugins@.map_values(|p: PluginMatchInput| entry_view_of(p));
        let mut i: usize = 0;
        while i < plugins.len()
            invariant
                i <= plugins@.len(),
                target == plugins@.map_values(|p: PluginMatchInput| entry_view_of(p)),
                entries@.len() == i,
                forall|j: int| 0 <= j < i ==> entry_of(#[trigger] entries@[j]) == target[j],
                has_additive == exists|j: int| 0 <= j < i && (#[trigger] target[j]).additive,
            decreases plugins@.len() - i,
        {
            let p = &plugins[i];
            let entry = PluginEntry {
                name: copy_str(p.name.as_str()),
                additive: p.additive,
                extensions: lowercase_all(&p.file_extensions),
                file_names: lowercase_all(&p.file_names),
                has_associations: p.has_associations,
            };
            assert(entry_of(entry) == target[i as int]);
            if p.additive {
                assert(target[i as int].additive);
            }
            has_additive = has_additive || p.additive;
            entries.push(entry);
            i = i + 1;
        }
        let mut sorted: Vec<(String, String)> = Vec::new();
        match shebangs {
            Some(v) => {
                let ghost configured = v@.map_values(|e: (String, String)| (e.0@, e.1@));
                let mut keys: Vec<i128> = Vec::new();
                let mut k: usize = 0;
                while k < v.len()
                    invariant
                        k <= v@.len(),
                        keys@.len() == k,
                        forall|j: int| 0 <= j < k ==> #[trigger] keys@[j] == -byte_len(v@[j].0@),
                    decreases v@.len() - k,
                {
                    let len: u128 = utf8_byte_len(v[k].0.as_str());
                    let chars_len = v[k].0.as_str().unicode_len();
                    assert(len <= 4 * chars_len);
                    keys.push(0i128 - len as i128);
                    k = k + 1;
                }
                let order = stable_order_by_key(&keys);
                let mut q: usize = 0;
                while q < order.len()
                    invariant
                        q <= order@.len(),
                        is_index_permutation(order@, v@.len() as int),
                        sorted@.len() == q,
                        forall|j: int| 0 <= j < q ==> (#[trigger] sorted@[j]).0@ == v@[order@[j] as int].0@ && sorted@[j].1@
                            == v@[order@[j] as int].1@,
                    decreases order@.len() - q,
                {
                    let idx = order[q];
                    sorted.push((copy_str(v[idx].0.as_str()), copy_str(v[idx].1.as_str())));
                    q = q + 1;
                }
                proof {
                    let sv = sorted@.map_values(|e: (String, String)| (e.0@, e.1@));
                    assert forall|p: int, q: int| 0 <= p < q < order@.len() implies byte_len(
                        #[trigger] configured[order@[p] as int].0,
                    ) >= byte_len(#[trigger] configured[order@[q] as int].0) && (byte_len(configured[order@[p] as int].0)
                        == byte_len(configured[order@[q] as int].0) ==> order@[p] < order@[q]) by {
                        assert(keys@[order@[p] as int] <= keys@[order@[q] as int]);
                    }
                    assert(is_index_permutation(order@, configured.len() as int));
                }
            },
            None => {},
        }
        assert(entries@.map_values(|e: PluginEntry| entry_of(e)) =~= target);
        assert(has_additive == any_additive(target));
        let r = PluginNameResolutionMaps { plugins: entries, has_additive, shebang_to_extension: sorted };
        r
    }
}

impl PluginNameResolutionMaps {
    /// How many plugins the maps hold; the association results handed to the
    /// queries have one entry per plugin.
    pub fn plugin_count(&self) -> (r: usize)
        ensures
            r == self@.plugins.len(),
    {
        self.plugins.len()
    }

    fn matches_associations(&self, index: usize, details: &Vec<GlobMatchesDetail>) -> (r: bool)
        requires
            index < self@.plugins.len(),
        ensures
            r == matches_associations(self@, index as int, details@),
    {
        self.plugins[index].has_associations && index < details.len() && match details[index] {
            GlobMatchesDetail::Matched | GlobMatchesDetail::MatchedOptedOutExclude => true,
            _ => false,
        }
    }

    fn is_not_associations_excluded(&self, index: usize, details: &Vec<GlobMatchesDetail>) -> (r: bool)
        requires
            index < self@.plugins.len(),
        ensures
            r == not_associations_excluded(self@, index as int, details@),
    {
        !self.plugins[index].has_associations || index >= details.len() || match details[index] {
            GlobMatchesDetail::Excluded => false,
            _ => true,
        }
    }

    /// The first plugin that lists the key and may claim the file (see
    /// [`first_claiming_from`]).
    fn first_claiming_index(&self, by_name: bool, key: &str, details: &Vec<GlobMatchesDetail>) -> (r: Option<usize>)
        ensures
            match first_claiming_from(self@, by_name, key@, details@, 0) {
                Some(i) => r matches Some(j) && j == i,
                None => r is None,
            },
    {
        let mut i: usize = 0;
        while i < self.plugins.len()
            invariant
                i <= self@.plugins.len(),
                first_claiming_from(self@, by_name, key@, details@, 0) == first_claiming_from(
                    self@,
                    by_name,
                    key@,
                    details@,
                    i as int,
                ),
            decreases self@.plugins.len() - i,
        {
            let entry = &self.plugins[i];
            assert(self@.plugins[i as int] == entry_of(*entry));
            let listed = if by_name {
                contains_string(&entry.file_names, key)
            } else {
                contains_string(&entry.extensions, key)
            };
            if listed && !entry.additive && self.is_not_associations_excluded(i, details) {
                return Some(i);
            }
            i = i + 1;
        }
        None
    }

    /// The plugins that claim the file (see [`spec_claiming`]).
    pub fn claiming_plugins(&self, file_name: Option<&str>, extension: Option<&str>, details: &Vec<GlobMatchesDetail>) -> (r:
        ClaimingPlugins)
        ensures
            as_ints(claiming_indexes(r)) == spec_claiming(
                self@,
                match file_name {
                    Some(n) => Some(n@),
                    None => None,
                },
                match extension {
                    Some(e) => Some(e@),
                    None => None,
                },
                details@,
            ),
    {
        let mut claimers: Vec<usize> = Vec::new();
        let mut i: usize = 0;
        while i < self.plugins.len()
            invariant
                i <= self@.plugins.len(),
                as_ints(claimers@) == association_claimers(self@, details@, i as int),
            decreases self@.plugins.len() - i,
        {
            assert(self@.plugins[i as int] == entry_of(self.plugins@[i as int]));
            let ghost before = claimers@;
            if !self.plugins[i].additive && self.matches_associations(i, details) {
                claimers.push(i);
                assert(as_ints(claimers@) =~= as_ints(before).push(i as int));
            }
            i = i + 1;
        }
        if claimers.len() > 0 {
            return ClaimingPlugins::Many(claimers);
        }
        let by_name = match file_name {
            Some(n) => self.first_claiming_index(true, n, details),
            None => None,
        };
        match by_name {
            Some(index) => {
                assert(as_ints(seq![index]) =~= seq![index as int]);
                ClaimingPlugins::One(index)
            },
            None => {
                let by_ext = match extension {
                    Some(e) => self.first_claiming_index(false, e, details),
                    None => None,
                };
                match by_ext {
                    Some(index) => {
                        assert(as_ints(seq![index]) =~= seq![index as int]);
                        ClaimingPlugins::One(index)
                    },
                    None => {
                        assert(as_ints(Seq::<usize>::empty()) =~= Seq::<int>::empty());
                        ClaimingPlugins::Unclaimed
                    },
                }
            },
        }
    }

    /// Whether the plugin at `index` matches the file (see
    /// [`spec_matches_file`]).
    fn matches_file(
        &self,
        index: usize,
        file_name: Option<&str>,
        extension: Option<&str>,
        details: &Vec<GlobMatchesDetail>,
    ) -> (r: bool)
        requires
            index < self@.plugins.len(),
        ensures
            r == spec_matches_file(
                self@,
                index as int,
                match file_name {
                    Some(n) => Some(n@),
                    None => None,
                },
                match extension {
                    Some(e) => Some(e@),
                    None => None,
                },
                details@,
            ),
    {
        if self.matches_associations(index, details) {
            return true;
        }
        let entry = &self.plugins[index];
        assert(self@.plugins[index as int] == entry_of(*entry));
        let by_name = match file_name {
            Some(n) => contains_string(&entry.file_names, n),
            None => false,
        };
        let by_ext = match extension {
            Some(e) => contains_string(&entry.extensions, e),
            None => false,
        };
        (by_name || by_ext) && self.is_not_associations_excluded(index, details)
    }

    /// The names of the plugins that format the file, in configuration order
    /// (see [`formatting_names`]).
    fn get_plugin_names(
        &self,
        claiming: &ClaimingPlugins,
        file_name: Option<&str>,
        extension: Option<&str>,
        details: &Vec<GlobMatchesDetail>,
    ) -> (r: Vec<String>)
        ensures
            r.deep_view() == formatting_names(
                self@,
                as_ints(claiming_indexes(*claiming)),
                match file_name {
                    Some(n) => Some(n@),
                    None => None,
                },
                match extension {
                    Some(e) => Some(e@),
                    None => None,
                },
                details@,
                self@.plugins.len() as int,
            ),
    {
        let ghost claimers = as_ints(claiming_indexes(*claiming));
        let ghost name_v = match file_name {
            Some(n) => Some(n@),
            None => None,
        };
        let ghost ext_v = match extension {
            Some(e) => Some(e@),
            None => None,
        };
        let mut names: Vec<String> = Vec::new();
        let mut i: usize = 0;
        while i < self.plugins.len()
            invariant
                i <= self@.plugins.len(),
                claimers == as_ints(claiming_indexes(*claiming)),
                name_v == match file_name {
                    Some(n) => Some(n@),
                    None => None,
                },
                ext_v == match extension {
                    Some(e) => Some(e@),
                    None => None,
                },
                names.deep_view() == formatting_names(self@, claimers, name_v, ext_v, details@, i as int),
            decreases self@.plugins.len() - i,
        {
            let entry = &self.plugins[i];
            assert(self@.plugins[i as int] == entry_of(*entry));
            let formats = if entry.additive {
                self.matches_file(i, file_name, extension, details)
            } else {
                let c = claiming.contains(i);
                proof {
                    if claiming_indexes(*claiming).contains(i) {
                        let k = choose|k: int| 0 <= k < claiming_indexes(*claiming).len() && claiming_indexes(*claiming)[k] == i;
                        assert(claimers[k] == i as int);
                    }
                    if claimers.contains(i as int) {
                        let k = choose|k: int| 0 <= k < claimers.len() && claimers[k] == i as int;
                        assert(claiming_indexes(*claiming)[k] == i);
                    }
                }
                c
            };
            if formats {
                let ghost before = names.deep_view();
                names.push(copy_str(entry.name.as_str()));
                assert(names.deep_view() =~= before.push(entry.name@));
            }
            i = i + 1;
        }
        names
    }

    /// The plugins that format a file based on its path: the claiming
    /// plugins for its lowercased file name and extension, plus the additive
    /// plugins that match it.
    pub fn get_plugin_names_from_file_path(&self, file_path: &str, details: &Vec<GlobMatchesDetail>) -> (r:
        PathPluginNames)
        ensures
            r.has_claiming_plugin == path_claimed(self@, file_path@, details@),
            r.names.deep_view() == path_names(self@, file_path@, details@),
    {
        let name = match file_name(file_path) {
            Some(n) => Some(to_lowercase(n.as_str())),
            None => None,
        };
        let ext = match extension(file_path) {
            Some(e) => Some(to_lowercase(e.as_str())),
            None => None,
        };
        let name_ref: Option<&str> = match &name {
            Some(n) => Some(n.as_str()),
            None => None,
        };
        let ext_ref: Option<&str> = match &ext {
            Some(e) => Some(e.as_str()),
            None => None,
        };
        let claiming = self.claiming_plugins(name_ref, ext_ref, details);
        let has_claiming_plugin = !claiming.is_empty();
        let names = self.get_plugin_names(&claiming, name_ref, ext_ref, details);
        PathPluginNames { names, has_claiming_plugin }
    }

    /// Whether the file might be resolved by its shebang line: shebang
    /// mappings are configured and the file has no extension.
    pub fn may_match_shebang(&self, file_path: &str) -> (r: bool)
        ensures
            r == (self@.shebang_to_extension.len() > 0 && spec_extension(file_path@) is None),
    {
        self.shebang_to_extension.len() > 0 && extension(file_path).is_none()
    }

    fn shebang_extension_for(&self, line: &str) -> (r: Option<String>)
        ensures
            match shebang_extension(self@.shebang_to_extension, line@) {
                Some(e) => r matches Some(x) && x@ == e,
                None => r is None,
            },
    {
        let ghost sv = self@.shebang_to_extension;
        let mut i: usize = 0;
        assert(sv.skip(0) =~= sv);
        while i < self.shebang_to_extension.len()
            invariant
                i <= sv.len(),
                sv == self@.shebang_to_extension,
                shebang_extension(sv, line@) == shebang_extension(sv.skip(i as int), line@),
            decreases sv.len() - i,
        {
            assert(sv.skip(i as int)[0] == sv[i as int]);
            assert(sv.skip(i as int).drop_first() =~= sv.skip(i + 1));
            if is_shebang_prefix_match(line, self.shebang_to_extension[i].0.as_str()) {
                return Some(copy_str(self.shebang_to_extension[i].1.as_str()));
            }
            i = i + 1;
        }
        None
    }

    /// Resolves the plugins of an extensionless file by its shebang line: the
    /// first configured shebang it matches gives an extension, which decides
    /// the claiming plugins; additive plugins still match by the file's own
    /// name. `None` when the file's shebang gives no extension.
    pub fn get_plugin_names_from_shebang(
        &self,
        file_path: &str,
        shebang_line: Option<&str>,
        details: &Vec<GlobMatchesDetail>,
    ) -> (r: Option<Vec<String>>)
        ensures
            match shebang_names(self@, file_path@, opt_line(shebang_line), details@) {
                Some(names) => r matches Some(v) && v.deep_view() == names,
                None => r is None,
            },
    {
        if !self.may_match_shebang(file_path) {
            return None;
        }
        let line = match shebang_line {
            Some(l) => l,
            None => return None,
        };
        let ext = match self.shebang_extension_for(line) {
            Some(e) => e,
            None => return None,
        };
        let name = match file_name(file_path) {
            Some(n) => Some(to_lowercase(n.as_str())),
            None => None,
        };
        let name_ref: Option<&str> = match &name {
            Some(n) => Some(n.as_str()),
            None => None,
        };
        let claiming = self.claiming_plugins(None, Some(ext.as_str()), details);
        Some(self.get_plugin_names(&claiming, name_ref, Some(ext.as_str()), details))
    }

    /// Resolves the plugins of a file from its path and, when no plugin
    /// claims it by path, from the shebang line at its start.
    pub fn get_plugin_names_from_file_path_and_bytes(
        &self,
        file_path: &str,
        shebang_line: Option<&str>,
        details: &Vec<GlobMatchesDetail>,
    ) -> (r: Vec<String>)
        ensures
            r.deep_view() == file_plugin_names(self@, file_path@, opt_line(shebang_line), details@),
    {
        let path_names = self.get_plugin_names_from_file_path(file_path, details);
        if path_names.has_claiming_plugin() {
            return path_names.into_names();
        }
        match self.get_plugin_names_from_shebang(file_path, shebang_line, details) {
            Some(names) => names,
            None => path_names.into_names(),
        }
    }
}

/// The shebang line as a plain value.
pub open spec fn opt_line(line: Option<&str>) -> Option<Seq<char>> {
    match line {
        Some(l) => Some(l@),
        None => None,
    }
}

/// Whether a plugin claims the file by its path.
pub open spec fn path_claimed(m: MapsView, path: Seq<char>, details: Seq<GlobMatchesDetail>) -> bool {
    spec_claiming(m, lower_file_name(path), lower_extension(path), details).len() > 0
}

/// The plugins that format the file, resolved by its path.
pub open spec fn path_names(m: MapsView, path: Seq<char>, details: Seq<GlobMatchesDetail>) -> Seq<Seq<char>> {
    formatting_names(
        m,
        spec_claiming(m, lower_file_name(path), lower_extension(path), details),
        lower_file_name(path),
        lower_extension(path),
        details,
        m.plugins.len() as int,
    )
}

/// The plugins that format an extensionless file by the extension its
/// shebang line maps to; none when it has an extension, no shebang line, or
/// one that maps to no extension.
pub open spec fn shebang_names(
    m: MapsView,
    path: Seq<char>,
    line: Option<Seq<char>>,
    details: Seq<GlobMatchesDetail>,
) -> Option<Seq<Seq<char>>> {
    match line {
        Some(l) if m.shebang_to_extension.len() > 0 && spec_extension(path) is None => match shebang_extension(
            m.shebang_to_extension,
            l,
        ) {
            Some(ext) => Some(
                formatting_names(
                    m,
                    spec_claiming(m, None, Some(ext), details),
                    lower_file_name(path),
                    Some(ext),
                    details,
                    m.plugins.len() as int,
                ),
            ),
            None => None,
        },
        _ => None,
    }
}

/// The plugins that format a file: those its path resolves to when a
/// plugin claims it that way; otherwise, for an extensionless file whose
/// shebang line maps to an extension, those that extension resolves to;
/// otherwise those its path resolves to.
pub open spec fn file_plugin_names(
    m: MapsView,
    path: Seq<char>,
    line: Option<Seq<char>>,
    details: Seq<GlobMatchesDetail>,
) -> Seq<Seq<char>> {
    let claimers = spec_claiming(m, lower_file_name(path), lower_extension(path), details);
    if claimers.len() > 0 {
        path_names(m, path, details)
    } else {
        match line {
            Some(l) if m.shebang_to_extension.len() > 0 && spec_extension(path) is None => match shebang_extension(
                m.shebang_to_extension,
                l,
            ) {
                Some(ext) => formatting_names(
                    m,
                    spec_claiming(m, None, Some(ext), details),
                    lower_file_name(path),
                    Some(ext),
                    details,
                    m.plugins.len() as int,
                ),
                None => path_names(m, path, details),
            },
            _ => path_names(m, path, details),
        }
    }
}

/// Resolving a file by its path and its start is resolving it by its path
/// when a plugin claims it that way, and else by its shebang line, falling
/// back to what its path gives.
pub proof fn law_path_then_shebang(
    m: MapsView,
    path: Seq<char>,
    line: Option<Seq<char>>,
    details: Seq<GlobMatchesDetail>,
)
    ensures
        file_plugin_names(m, path, line, details) == if path_claimed(m, path, details) {
            path_names(m, path, details)
        } else {
            match shebang_names(m, path, line, details) {
                Some(names) => names,
                None => path_names(m, path, details),
            }
        },
{
}

proof fn lemma_association_claimers(m: MapsView, details: Seq<GlobMatchesDetail>, n: int)
    requires
        n <= m.plugins.len(),
    ensures
        forall|k: int|
            0 <= k < association_claimers(m, details, n).len() ==> {
                let i = #[trigger] association_claimers(m, details, n)[k];
                0 <= i < n && !m.plugins[i].additive && matches_associations(m, i, details)
            },
        forall|a: int, b: int|
            0 <= a < b < association_claimers(m, details, n).len() ==> #[trigger] association_claimers(m, details, n)[a]
                < #[trigger] association_claimers(m, details, n)[b],
    decreases n,
{
    if n > 0 {
        lemma_association_claimers(m, details, n - 1);
        let prev = association_claimers(m, details, n - 1);
        let cur = association_claimers(m, details, n);
        assert forall|k: int| 0 <= k < cur.len() implies {
            let i = #[trigger] cur[k];
            0 <= i < n && !m.plugins[i].additive && matches_associations(m, i, details)
        } by {
            if k < prev.len() {
                assert(cur[k] == prev[k]);
            }
        }
        assert forall|a: int, b: int| 0 <= a < b < cur.len() implies #[trigger] cur[a] < #[trigger] cur[b] by {
            assert(cur[a] == prev[a]);
            if b < prev.len() {
                assert(cur[b] == prev[b]);
            }
        }
    }
}

proof fn lemma_first_claiming(m: MapsView, by_name: bool, key: Seq<char>, details: Seq<GlobMatchesDetail>, from: int)
    requires
        0 <= from,
    ensures
        first_claiming_from(m, by_name, key, details, from) matches Some(i) ==> from <= i < m.plugins.len()
            && may_claim(m, i, details),
    decreases m.plugins.len() - from,
{
    if from < m.plugins.len() {
        lemma_first_claiming(m, by_name, key, details, from + 1);
    }
}

/// Only plugins that are not additive claim a file, each claimer exactly
/// once and in configuration order; when no plugin's associations match the
/// file, at most one plugin claims it.
pub proof fn law_claiming_plugins(
    m: MapsView,
    name: Option<Seq<char>>,
    ext: Option<Seq<char>>,
    details: Seq<GlobMatchesDetail>,
)
    ensures
        forall|k: int|
            0 <= k < spec_claiming(m, name, ext, details).len() ==> {
                let i = #[trigger] spec_claiming(m, name, ext, details)[k];
                0 <= i < m.plugins.len() && !m.plugins[i].additive
            },
        forall|a: int, b: int|
            0 <= a < b < spec_claiming(m, name, ext, details).len() ==> #[trigger] spec_claiming(m, name, ext, details)[a]
                < #[trigger] spec_claiming(m, name, ext, details)[b],
        association_claimers(m, details, m.plugins.len() as int).len() == 0 ==> spec_claiming(
            m,
            name,
            ext,
            details,
        ).len() <= 1,
{
    lemma_association_claimers(m, details, m.plugins.len() as int);
    if let Some(n) = name {
        lemma_first_claiming(m, true, n, details, 0);
    }
    if let Some(e) = ext {
        lemma_first_claiming(m, false, e, details, 0);
    }
}

proof fn lemma_no_association_claimers(m: MapsView, details: Seq<GlobMatchesDetail>, n: int)
    requires
        n <= m.plugins.len(),
        forall|j: int| 0 <= j < m.plugins.len() ==> !(#[trigger] m.plugins[j].has_associations && !m.plugins[j].additive
            && detail_matches(detail_at(details, j))),
    ensures
        association_claimers(m, details, n).len() == 0,
    decreases n,
{
    if n > 0 {
        lemma_no_association_claimers(m, details, n - 1);
        assert(!(m.plugins[n - 1].has_associations && !m.plugins[n - 1].additive && detail_matches(
            detail_at(details, n - 1),
        )));
    }
}

proof fn lemma_first_listing(m: MapsView, by_name: bool, key: Seq<char>, details: Seq<GlobMatchesDetail>, from: int, i: int)
    requires
        0 <= from <= i < m.plugins.len(),
        (if by_name {
            m.plugins[i].file_names.contains(key)
        } else {
            m.plugins[i].extensions.contains(key)
        }),
        !m.plugins[i].additive,
        !m.plugins[i].has_associations || detail_at(details, i) != GlobMatchesDetail::Excluded,
        forall|j: int|
            from <= j < i ==> !((if by_name {
                m.plugins[j].file_names.contains(key)
            } else {
                m.plugins[j].extensions.contains(key)
            }) && !m.plugins[j].additive && (!m.plugins[j].has_associations || detail_at(details, j)
                != GlobMatchesDetail::Excluded)),
    ensures
        first_claiming_from(m, by_name, key, details, from) == Some(i),
    decreases i - from,
{
    if from < i {
        lemma_first_listing(m, by_name, key, details, from + 1, i);
    }
}

proof fn lemma_none_listing(m: MapsView, by_name: bool, key: Seq<char>, details: Seq<GlobMatchesDetail>, from: int)
    requires
        0 <= from,
        forall|j: int|
            0 <= j < m.plugins.len() ==> !((if by_name {
                m.plugins[j].file_names.contains(key)
            } else {
                m.plugins[j].extensions.contains(key)
            }) && !m.plugins[j].additive && (!m.plugins[j].has_associations || detail_at(details, j)
                != GlobMatchesDetail::Excluded)),
    ensures
        first_claiming_from(m, by_name, key, details, from) is None,
    decreases m.plugins.len() - from,
{
    if from < m.plugins.len() {
        lemma_none_listing(m, by_name, key, details, from + 1);
    }
}

/// When no plugin's associations match a file, the plugin that claims it is
/// the first, in configuration order, that lists its file name and is
/// neither additive nor kept off it by its associations, whatever plugins
/// list its extension; only when no such plugin lists the file name is it
/// the first such plugin that lists the extension.
pub proof fn law_file_name_claims_before_extension(
    m: MapsView,
    name: Seq<char>,
    ext: Option<Seq<char>>,
    details: Seq<GlobMatchesDetail>,
    i: int,
)
    requires
        forall|j: int| 0 <= j < m.plugins.len() ==> !(#[trigger] m.plugins[j].has_associations && !m.plugins[j].additive
            && detail_matches(detail_at(details, j))),
        0 <= i < m.plugins.len(),
        m.plugins[i].file_names.contains(name) || (ext matches Some(e) && m.plugins[i].extensions.contains(e)),
        !m.plugins[i].additive,
        !m.plugins[i].has_associations || detail_at(details, i) != GlobMatchesDetail::Excluded,
    ensures
        m.plugins[i].file_names.contains(name) && (forall|j: int|
            0 <= j < i ==> !(m.plugins[j].file_names.contains(name) && !m.plugins[j].additive && (
            !m.plugins[j].has_associations || detail_at(details, j) != GlobMatchesDetail::Excluded)))
            ==> spec_claiming(m, Some(name), ext, details) == seq![i],
        (ext matches Some(e) && m.plugins[i].extensions.contains(e) && (forall|j: int|
            0 <= j < i ==> !(m.plugins[j].extensions.contains(e) && !m.plugins[j].additive && (
            !m.plugins[j].has_associations || detail_at(details, j) != GlobMatchesDetail::Excluded))) && (forall|
            j: int|
            0 <= j < m.plugins.len() ==> !(m.plugins[j].file_names.contains(name) && !m.plugins[j].additive && (
            !m.plugins[j].has_associations || detail_at(details, j) != GlobMatchesDetail::Excluded))))
            ==> spec_claiming(m, Some(name), ext, details) == seq![i],
{
    lemma_no_association_claimers(m, details, m.plugins.len() as int);
    if m.plugins[i].file_names.contains(name) && (forall|j: int|
        0 <= j < i ==> !(m.plugins[j].file_names.contains(name) && !m.plugins[j].additive && (
        !m.plugins[j].has_associations || detail_at(details, j) != GlobMatchesDetail::Excluded))) {
        lemma_first_listing(m, true, name, details, 0, i);
    }
    if let Some(e) = ext {
        if m.plugins[i].extensions.contains(e) && (forall|j: int|
            0 <= j < i ==> !(m.plugins[j].extensions.contains(e) && !m.plugins[j].additive && (
            !m.plugins[j].has_associations || detail_at(details, j) != GlobMatchesDetail::Excluded))) && (forall|
            j: int|
            0 <= j < m.plugins.len() ==> !(m.plugins[j].file_names.contains(name) && !m.plugins[j].additive && (
            !m.plugins[j].has_associations || detail_at(details, j) != GlobMatchesDetail::Excluded))) {
            lemma_none_listing(m, true, name, details, 0);
            lemma_first_listing(m, false, e, details, 0, i);
        }
    }
}

proof fn lemma_association_claimers_are(m: MapsView, details: Seq<GlobMatchesDetail>, n: int, i: int)
    requires
        n <= m.plugins.len(),
    ensures
        association_claimers(m, details, n).contains(i) <==> (0 <= i < n && m.plugins[i].has_associations
            && !m.plugins[i].additive && detail_matches(detail_at(details, i))),
    decreases n,
{
    if n > 0 {
        lemma_association_claimers_are(m, details, n - 1, i);
        let prev = association_claimers(m, details, n - 1);
        let cur = association_claimers(m, details, n);
        if cur.contains(i) && !prev.contains(i) {
            let k = choose|k: int| 0 <= k < cur.len() && cur[k] == i;
            if cur != prev {
                assert(k == prev.len());
            }
        }
        if prev.contains(i) {
            let k = choose|k: int| 0 <= k < prev.len() && prev[k] == i;
            assert(cur[k] == i);
        }
        if i == n - 1 && m.plugins[i].has_associations && !m.plugins[i].additive && detail_matches(detail_at(details, i)) {
            assert(cur[cur.len() - 1] == i);
        }
    }
}

/// When the associations of some plugins that are not additive match a
/// file, exactly those plugins claim it, whatever file names and extensions
/// the plugins list.
pub proof fn law_associations_claim_first(
    m: MapsView,
    name: Option<Seq<char>>,
    ext: Option<Seq<char>>,
    details: Seq<GlobMatchesDetail>,
    j: int,
    i: int,
)
    requires
        0 <= j < m.plugins.len(),
        m.plugins[j].has_associations,
        !m.plugins[j].additive,
        detail_matches(detail_at(details, j)),
    ensures
        spec_claiming(m, name, ext, details).contains(i) <==> (0 <= i < m.plugins.len()
            && m.plugins[i].has_associations && !m.plugins[i].additive && detail_matches(detail_at(details, i))),
{
    lemma_association_claimers_are(m, details, m.plugins.len() as int, j);
    lemma_association_claimers_are(m, details, m.plugins.len() as int, i);
}

} // verus!
