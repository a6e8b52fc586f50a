//! File patterns from the configuration file and the command line: their
//! slashes, negation, the directory they are resolved against, and how they
//! are split into what is included and what is excluded.
use vstd::prelude::*;
use crate::text::{copy_str, concat2, concat3, replace_char, replace_char_in, chars_of, string_of, join, join_strings, str_eq, starts_with};
use crate::canonicalized_path_buf::{
    CanonicalizedPathBuf, suffix_from, canonical_strip_prefix, canonical_parent, lemma_parent_shorter,
};
use crate::path::{split_chars, split_on, views, is_named, keep_named, named_components};
use crate::name_resolution::GlobMatchesDetail;

verus! {

/// A pattern relative to the directory it is resolved against.
#[derive(Debug)]
pub struct GlobPattern {
    pub relative_pattern: String,
    pub base_dir: CanonicalizedPathBuf,
}

/// The patterns a run matches files against, by where they came from.
#[derive(Debug)]
pub struct GlobPatterns {
    pub arg_includes: Option<Vec<GlobPattern>>,
    pub config_includes: Option<Vec<GlobPattern>>,
    pub arg_excludes: Option<Vec<GlobPattern>>,
    pub config_excludes: Vec<GlobPattern>,
}

/// The relative patterns of a list of patterns.
pub open spec fn relative_patterns(v: Seq<GlobPattern>) -> Seq<Seq<char>> {
    v.map_values(|p: GlobPattern| p.relative_pattern@)
}

/// A pattern with every backslash turned into a forward slash, so that a
/// pattern means the same on every operating system.
pub open spec fn spec_pattern_slashes(p: Seq<char>) -> Seq<char> {
    replace_char(p, '\\', '/')
}

/// Turns every backslash of a pattern into a forward slash (see
/// [`spec_pattern_slashes`]).
pub fn process_file_pattern_slashes(file_pattern: &str) -> (r: String)
    ensures
        r@ == spec_pattern_slashes(file_pattern@),
{
    replace_char_in(file_pattern, '\\', '/')
}

/// Whether a pattern excludes: it starts with `!`, unless that `!` opens an
/// extended glob `!(...)`.
pub open spec fn spec_negated_glob(p: Seq<char>) -> bool {
    p.len() > 0 && p[0] == '!' && !(p.len() > 1 && p[1] == '(')
}

/// A pattern without the `!` that makes it exclude.
pub open spec fn spec_non_negated_glob(p: Seq<char>) -> Seq<char> {
    if spec_negated_glob(p) {
        p.drop_first()
    } else {
        p
    }
}

/// Whether a pattern excludes (see [`spec_negated_glob`]).
pub fn is_negated_glob(pattern: &str) -> (r: bool)
    ensures
        r == spec_negated_glob(pattern@),
{
    let n = pattern.unicode_len();
    n > 0 && pattern.get_char(0) == '!' && !(n > 1 && pattern.get_char(1) == '(')
}

/// A pattern without the `!` that makes it exclude (see
/// [`spec_non_negated_glob`]).
pub fn non_negated_glob(pattern: &str) -> (r: String)
    ensures
        r@ == spec_non_negated_glob(pattern@),
{
    if is_negated_glob(pattern) {
        let rest = suffix_from(pattern, 1);
        assert(rest@ =~= pattern@.drop_first());
        rest
    } else {
        copy_str(pattern)
    }
}

/// A configuration pattern with its slashes made forward, and, when it
/// starts with `/` (or `!/`), made relative to the configuration's directory
/// by a leading `.`.
pub open spec fn spec_config_pattern(p: Seq<char>) -> Seq<char> {
    let q = spec_pattern_slashes(p);
    if q.len() > 0 && q[0] == '/' {
        seq!['.'] + q
    } else if q.len() > 1 && q[0] == '!' && q[1] == '/' {
        seq!['!', '.'] + q.drop_first()
    } else {
        q
    }
}

/// Processes one configuration pattern (see [`spec_config_pattern`]).
pub fn process_config_pattern(file_pattern: &str) -> (r: String)
    ensures
        r@ == spec_config_pattern(file_pattern@),
{
    let q = process_file_pattern_slashes(file_pattern);
    let chars = chars_of(q.as_str());
    let n = chars.len();
    if n > 0 && chars[0] == '/' {
        proof {
            reveal_strlit(".");
            assert("."@ =~= seq!['.']);
        }
        concat2(".", q.as_str())
    } else if n > 1 && chars[0] == '!' && chars[1] == '/' {
        proof {
            reveal_strlit("!.");
            assert("!."@ =~= seq!['!', '.']);
        }
        let rest = suffix_from(q.as_str(), 1);
        assert(rest@ =~= q@.drop_first());
        concat2("!.", rest.as_str())
    } else {
        q
    }
}

/// Processes each configuration pattern, in order (see
/// [`spec_config_pattern`]).
pub fn process_config_patterns(file_patterns: &Vec<String>) -> (r: Vec<String>)
    ensures
        r@.len() == file_patterns@.len(),
        forall|i: int| 0 <= i < r@.len() ==> (#[trigger] r@[i])@ == spec_config_pattern(file_patterns@[i]@),
{
    let mut r: Vec<String> = Vec::new();
    let mut i: usize = 0;
    while i < file_patterns.len()
        invariant
            i <= file_patterns@.len(),
            r@.len() == i,
            forall|j: int| 0 <= j < i ==> (#[trigger] r@[j])@ == spec_config_pattern(file_patterns@[j]@),
        decreases file_patterns@.len() - i,
    {
        r.push(process_config_pattern(file_patterns[i].as_str()));
        i = i + 1;
    }
    r
}

/// The processed patterns that include, in order.
pub open spec fn config_includes(ps: Seq<Seq<char>>) -> Seq<Seq<char>>
    decreases ps.len(),
{
    if ps.len() == 0 {
        Seq::empty()
    } else {
        let p = spec_config_pattern(ps.last());
        if spec_negated_glob(p) {
            config_includes(ps.drop_last())
        } else {
            config_includes(ps.drop_last()).push(p)
        }
    }
}

/// The processed patterns that exclude, without their `!`, in order.
pub open spec fn config_excludes(ps: Seq<Seq<char>>) -> Seq<Seq<char>>
    decreases ps.len(),
{
    if ps.len() == 0 {
        Seq::empty()
    } else {
        let p = spec_config_pattern(ps.last());
        if spec_negated_glob(p) {
            config_excludes(ps.drop_last()).push(p.drop_first())
        } else {
            config_excludes(ps.drop_last())
        }
    }
}

/// The patterns of a configuration (such as a plugin's `patterns`) resolved
/// against the configuration's directory: the processed patterns that
/// include, and those that exclude turned into plain patterns of what they
/// exclude.
pub fn get_patterns_as_glob_matcher(patterns: &Vec<String>, config_base_path: &CanonicalizedPathBuf) -> (r: GlobPatterns)
    ensures
        r.arg_includes is None,
        r.arg_excludes is None,
        r.config_includes matches Some(inc) && relative_patterns(inc@) == config_includes(patterns.deep_view()),
        relative_patterns(r.config_excludes@) == config_excludes(patterns.deep_view()),
        r.config_includes matches Some(inc) && forall|i: int|
            0 <= i < inc@.len() ==> (#[trigger] inc@[i]).base_dir@ == config_base_path@,
        forall|i: int|
            0 <= i < r.config_excludes@.len() ==> (#[trigger] r.config_excludes@[i]).base_dir@ == config_base_path@,
{
    let ghost pv = patterns.deep_view();
    let mut includes: Vec<GlobPattern> = Vec::new();
    let mut excludes: Vec<GlobPattern> = Vec::new();
    let mut i: usize = 0;
    assert(pv.take(0) =~= Seq::<Seq<char>>::empty());
    assert(relative_patterns(includes@) =~= Seq::<Seq<char>>::empty());
    assert(relative_patterns(excludes@) =~= Seq::<Seq<char>>::empty());
    while i < patterns.len()
        invariant
            i <= patterns@.len(),
            pv == patterns.deep_view(),
            relative_patterns(includes@) == config_includes(pv.take(i as int)),
            relative_patterns(excludes@) == config_excludes(pv.take(i as int)),
            forall|j: int| 0 <= j < includes@.len() ==> (#[trigger] includes@[j]).base_dir@ == config_base_path@,
            forall|j: int| 0 <= j < excludes@.len() ==> (#[trigger] excludes@[j]).base_dir@ == config_base_path@,
        decreases patterns@.len() - i,
    {
        assert(pv.take(i + 1).drop_last() =~= pv.take(i as int));
        assert(pv.take(i + 1).last() == patterns@[i as int]@);
        let p = process_config_pattern(patterns[i].as_str());
        if is_negated_glob(p.as_str()) {
            let ghost before = relative_patterns(excludes@);
            let plain = non_negated_glob(p.as_str());
            excludes.push(GlobPattern { relative_pattern: plain, base_dir: config_base_path.duplicate() });
            assert(relative_patterns(excludes@) =~= before.push(p@.drop_first()));
        } else {
            let ghost before = relative_patterns(includes@);
            let ghost pview = p@;
            includes.push(GlobPattern { relative_pattern: p, base_dir: config_base_path.duplicate() });
            assert(relative_patterns(includes@) =~= before.push(pview));
        }
        i = i + 1;
    }
    assert(pv.take(i as int) =~= pv);
    GlobPatterns { arg_includes: None, config_includes: Some(includes), arg_excludes: None, config_excludes: excludes }
}

/// Every processed configuration pattern lands on exactly one side: the
/// includes and the excludes together are as many as the patterns.
pub proof fn law_patterns_partition(ps: Seq<Seq<char>>)
    ensures
        config_includes(ps).len() + config_excludes(ps).len() == ps.len(),
        forall|i: int| 0 <= i < config_includes(ps).len() ==> !spec_negated_glob(#[trigger] config_includes(ps)[i]),
    decreases ps.len(),
{
    if ps.len() > 0 {
        law_patterns_partition(ps.drop_last());
        let inc = config_includes(ps.drop_last());
        let p = spec_config_pattern(ps.last());
        if !spec_negated_glob(p) {
            assert forall|i: int| 0 <= i < config_includes(ps).len() implies !spec_negated_glob(
                #[trigger] config_includes(ps)[i],
            ) by {
                if i < inc.len() {
                    assert(config_includes(ps)[i] == inc[i]);
                }
            }
        }
    }
}

/// The components of a path with each `..` taking away the component before
/// it (nothing above the root), as building a `PathBuf` that pops on `..`
/// does.
pub open spec fn resolve_parents(comps: Seq<Seq<char>>) -> Seq<Seq<char>>
    decreases comps.len(),
{
    if comps.len() == 0 {
        Seq::empty()
    } else {
        let prev = resolve_parents(comps.drop_last());
        if comps.last() == seq!['.', '.'] {
            if prev.len() > 0 {
                prev.drop_last()
            } else {
                prev
            }
        } else {
            prev.push(comps.last())
        }
    }
}

/// The absolute path of `p`'s components with `.` and `..` resolved.
pub open spec fn spec_normalize_absolute(p: Seq<char>) -> Seq<char> {
    seq!['/'] + join(resolve_parents(named_components(p)), seq!['/'])
}

/// Writes the absolute path of `p`'s components with `.` and `..` resolved
/// (see [`spec_normalize_absolute`]).
pub fn normalize_absolute(p: &str) -> (r: String)
    ensures
        r@ == spec_normalize_absolute(p@),
{
    let chars = chars_of(p);
    let pieces = split_chars(&chars, '/');
    let ghost split = views(pieces@);
    let mut stack: Vec<String> = Vec::new();
    let mut i: usize = 0;
    assert(split.take(0) =~= Seq::<Seq<char>>::empty());
    assert(stack.deep_view() =~= Seq::<Seq<char>>::empty());
    while i < pieces.len()
        invariant
            split == views(pieces@),
            split == split_on(p@, '/'),
            i <= pieces@.len(),
            stack.deep_view() == resolve_parents(keep_named(split.take(i as int))),
        decreases pieces@.len() - i,
    {
        let piece = &pieces[i];
        let ghost before = stack.deep_view();
        assert(split.take(i + 1).drop_last() =~= split.take(i as int));
        assert(split.take(i + 1).last() == piece@);
        let n = piece.len();
        assert(keep_named(split.take(i + 1)) == if is_named(piece@) {
            keep_named(split.take(i as int)).push(piece@)
        } else {
            keep_named(split.take(i as int))
        });
        proof {
            let ks = keep_named(split.take(i as int));
            assert(ks.push(piece@).drop_last() =~= ks);
        }
        if n == 0 || (n == 1 && piece[0] == '.') {
            assert(!is_named(piece@)) by {
                if n == 1 {
                    assert(piece@ =~= seq!['.']);
                } else {
                    assert(piece@ =~= Seq::<char>::empty());
                }
            }
        } else if n == 2 && piece[0] == '.' && piece[1] == '.' {
            assert(piece@ =~= seq!['.', '.']);
            if stack.len() > 0 {
                let _ = stack.pop();
                assert(stack.deep_view() =~= before.drop_last());
            }
        } else {
            assert(is_named(piece@));
            assert(piece@ != seq!['.', '.']);
            let item = string_of(piece.as_slice());
            stack.push(item);
            assert(stack.deep_view() =~= before.push(piece@));
        }
        i = i + 1;
    }
    assert(split.take(i as int) =~= split);
    let joined = join_strings(&stack, "/");
    proof {
        reveal_strlit("/");
        assert("/"@ =~= seq!['/']);
    }
    concat2("/", joined.as_str())
}

/// Whether `c` is an ASCII letter.
pub open spec fn is_ascii_letter(c: char) -> bool {
    ('a' <= c <= 'z') || ('A' <= c <= 'Z')
}

/// Whether a pattern starts at a drive: letters, then `:` and `/`.
pub open spec fn spec_drive_pattern(q: Seq<char>) -> bool {
    exists|k: int|
        1 <= k && k + 1 < q.len() && (forall|j: int| 0 <= j < k ==> is_ascii_letter(#[trigger] q[j])) && #[trigger] q[k]
            == ':' && q[k + 1] == '/'
}

/// Whether a pattern names an absolute path: without its `!`, it starts at
/// the root or at a drive.
pub open spec fn spec_absolute_pattern(p: Seq<char>) -> bool {
    let q = spec_non_negated_glob(p);
    (q.len() > 0 && q[0] == '/') || spec_drive_pattern(q)
}

/// Whether a pattern names an absolute path (see
/// [`spec_absolute_pattern`]).
pub fn is_absolute_pattern(pattern: &str) -> (r: bool)
    ensures
        r == spec_absolute_pattern(pattern@),
{
    let q = non_negated_glob(pattern);
    let cs = chars_of(q.as_str());
    let n = cs.len();
    if n > 0 && cs[0] == '/' {
        return true;
    }
    let mut k: usize = 0;
    while k < n && (('a' <= cs[k] && cs[k] <= 'z') || ('A' <= cs[k] && cs[k] <= 'Z'))
        invariant
            k <= n,
            n == cs@.len(),
            forall|j: int| 0 <= j < k ==> is_ascii_letter(#[trigger] cs@[j]),
        decreases n - k,
    {
        k = k + 1;
    }
    let r = k >= 1 && n >= 2 && k < n - 1 && cs[k] == ':' && cs[k + 1] == '/';
    proof {
        if r {
            assert(spec_drive_pattern(cs@));
        } else if spec_drive_pattern(cs@) {
            let w = choose|w: int|
                1 <= w && w + 1 < cs@.len() && (forall|j: int| 0 <= j < w ==> is_ascii_letter(#[trigger] cs@[j]))
                    && #[trigger] cs@[w] == ':' && cs@[w + 1] == '/';
            if w < k {
                assert(is_ascii_letter(cs@[w]));
            } else if w > k {
                assert(is_ascii_letter(cs@[k as int]));
                assert(k < n);
            }
        }
    }
    r
}

/// The directory a command line pattern's absolute path `abs` is resolved
/// against: `base` when `abs` lies under it, else the first of its
/// ancestors that holds `abs`.
pub open spec fn cli_base(base: Seq<char>, abs: Seq<char>) -> Seq<char>
    decreases base.len(),
{
    if canonical_strip_prefix(abs, base) is Some {
        base
    } else {
        match canonical_parent(base) {
            Some(q) => if q.len() < base.len() {
                cli_base(q, abs)
            } else {
                base
            },
            None => base,
        }
    }
}

/// A command line pattern resolved against the current directory `cwd`, as
/// its relative pattern and the directory it is relative to: `.` is every
/// file under `cwd` (or, negated, `cwd` itself); a pattern at a drive is kept
/// as written; any other is made absolute (against `cwd` when relative),
/// its `.` and `..` resolved, and made relative to the nearest of `cwd` and
/// its ancestors that holds it, keeping its `!`.
pub open spec fn spec_cli_pattern(file_pattern: Seq<char>, cwd: Seq<char>) -> (Seq<char>, Seq<char>) {
    let fp = spec_pattern_slashes(file_pattern);
    let neg = spec_negated_glob(fp);
    let pat = spec_non_negated_glob(fp);
    let rooted = pat.len() > 0 && pat[0] == '/';
    if pat == seq!['.'] {
        (if neg {
            "!./."@
        } else {
            "**"@
        }, cwd)
    } else if !rooted && spec_absolute_pattern(fp) {
        (fp, cwd)
    } else {
        let abs = spec_normalize_absolute(
            if rooted {
                pat
            } else {
                cwd + seq!['/'] + pat
            },
        );
        let base = cli_base(cwd, abs);
        ((if neg {
            "!./"@
        } else {
            "./"@
        }) + canonical_strip_prefix(abs, base)->Some_0, base)
    }
}

/// Resolves a command line pattern against the current directory (see
/// [`spec_cli_pattern`]).
#[verifier::loop_isolation(false)]
pub fn process_cli_pattern(file_pattern: &str, cwd: &CanonicalizedPathBuf) -> (r: GlobPattern)
    ensures
        (r.relative_pattern@, r.base_dir@) == spec_cli_pattern(file_pattern@, cwd@),
{
    let fp = process_file_pattern_slashes(file_pattern);
    let neg = is_negated_glob(fp.as_str());
    let pat = non_negated_glob(fp.as_str());
    proof {
        reveal_strlit(".");
        assert("."@ =~= seq!['.']);
        reveal_strlit("/");
        assert("/"@ =~= seq!['/']);
    }
    if str_eq(pat.as_str(), ".") {
        let relative_pattern = if neg {
            copy_str("!./.")
        } else {
            copy_str("**")
        };
        return GlobPattern { relative_pattern, base_dir: cwd.duplicate() };
    }
    let rooted = starts_with(pat.as_str(), "/");
    assert(rooted == (pat@.len() > 0 && pat@[0] == '/')) by {
        if rooted {
            assert(pat@.subrange(0, 1)[0] == pat@[0]);
        }
        if pat@.len() > 0 && pat@[0] == '/' {
            assert(pat@.subrange(0, 1) =~= seq!['/']);
        }
    }
    if !rooted && is_absolute_pattern(fp.as_str()) {
        return GlobPattern { relative_pattern: fp, base_dir: cwd.duplicate() };
    }
    let joined = if rooted {
        copy_str(pat.as_str())
    } else {
        concat3(cwd.display(), "/", pat.as_str())
    };
    let abs = normalize_absolute(joined.as_str());
    let mut base = cwd.duplicate();
    loop
        invariant
            cli_base(cwd@, abs@) == cli_base(base@, abs@),
            abs@.len() >= 1,
        decreases base@.len(),
    {
        match base.strip_from(abs.as_str()) {
            Some(rel) => {
                let relative_pattern = if neg {
                    concat2("!./", rel.as_str())
                } else {
                    concat2("./", rel.as_str())
                };
                return GlobPattern { relative_pattern, base_dir: base };
            },
            None => {
                proof {
                    use_type_invariant(&base);
                    base.lemma_canonical();
                    lemma_parent_shorter(base@);
                }
                match base.parent() {
                    Some(parent) => {
                        base = parent;
                    },
                    None => {
                        return GlobPattern { relative_pattern: fp, base_dir: cwd.duplicate() };
                    },
                }
            },
        }
    }
}

/// A pattern as the relative pattern and the directory it is relative to.
pub open spec fn pattern_view(p: GlobPattern) -> (Seq<char>, Seq<char>) {
    (p.relative_pattern@, p.base_dir@)
}

/// The views of a list of patterns.
pub open spec fn patterns_view(v: Seq<GlobPattern>) -> Seq<(Seq<char>, Seq<char>)> {
    v.map_values(|p: GlobPattern| pattern_view(p))
}

/// The configuration's patterns, processed, each relative to `base`.
pub open spec fn config_patterns_at(ps: Seq<Seq<char>>, base: Seq<char>) -> Seq<(Seq<char>, Seq<char>)> {
    ps.map_values(|p: Seq<char>| (spec_config_pattern(p), base))
}

/// `ps` with `p` appended unless it is already there.
pub open spec fn push_absent(ps: Seq<(Seq<char>, Seq<char>)>, p: (Seq<char>, Seq<char>)) -> Seq<(Seq<char>, Seq<char>)> {
    if ps.contains(p) {
        ps
    } else {
        ps.push(p)
    }
}

/// The pattern that keeps `node_modules` directories out.
pub open spec fn node_modules_pattern() -> Seq<char> {
    "**/node_modules"@
}

/// The patterns that exclude files, from `source`: unless `node_modules` is
/// allowed, `node_modules` directories are kept out below the current
/// directory and, when it does not lie under it, below the configuration's
/// directory too, each added only when not already there.
pub open spec fn spec_exclude_patterns(
    source: Seq<(Seq<char>, Seq<char>)>,
    cwd: Seq<char>,
    base: Seq<char>,
    allow_node_modules: bool,
) -> Seq<(Seq<char>, Seq<char>)> {
    if allow_node_modules {
        source
    } else {
        let with_cwd = push_absent(source, (node_modules_pattern(), cwd));
        if crate::canonicalized_path_buf::canonical_starts_with(cwd, base) {
            with_cwd
        } else {
            push_absent(with_cwd, (node_modules_pattern(), base))
        }
    }
}

fn patterns_at(patterns: &Vec<String>, base: &CanonicalizedPathBuf) -> (r: Vec<GlobPattern>)
    ensures
        patterns_view(r@) == config_patterns_at(patterns.deep_view(), base@),
{
    let processed = process_config_patterns(patterns);
    let mut r: Vec<GlobPattern> = Vec::new();
    let mut i: usize = 0;
    while i < processed.len()
        invariant
            i <= processed@.len(),
            processed@.len() == patterns@.len(),
            forall|j: int| 0 <= j < processed@.len() ==> (#[trigger] processed@[j])@ == spec_config_pattern(patterns@[j]@),
            patterns_view(r@) == config_patterns_at(patterns.deep_view(), base@).take(i as int),
        decreases processed@.len() - i,
    {
        let relative_pattern = copy_str(processed[i].as_str());
        assert(patterns.deep_view()[i as int] == patterns@[i as int]@);
        let ghost before = patterns_view(r@);
        r.push(GlobPattern { relative_pattern, base_dir: base.duplicate() });
        assert(patterns_view(r@) =~= before.push((spec_config_pattern(patterns@[i as int]@), base@)));
        assert(patterns_view(r@) =~= config_patterns_at(patterns.deep_view(), base@).take(i + 1));
        i = i + 1;
    }
    assert(config_patterns_at(patterns.deep_view(), base@).take(i as int) =~= config_patterns_at(
        patterns.deep_view(),
        base@,
    ));
    r
}

fn contains_pattern(ps: &Vec<GlobPattern>, relative_pattern: &str, base_dir: &CanonicalizedPathBuf) -> (r: bool)
    ensures
        r == patterns_view(ps@).contains((relative_pattern@, base_dir@)),
{
    let mut i: usize = 0;
    while i < ps.len()
        invariant
            i <= ps@.len(),
            forall|j: int| 0 <= j < i ==> patterns_view(ps@)[j] != (relative_pattern@, base_dir@),
        decreases ps@.len() - i,
    {
        if str_eq(ps[i].relative_pattern.as_str(), relative_pattern) && ps[i].base_dir.equals(base_dir) {
            assert(patterns_view(ps@)[i as int] == (relative_pattern@, base_dir@));
            return true;
        }
        i = i + 1;
    }
    false
}

fn push_pattern_absent(ps: &mut Vec<GlobPattern>, relative_pattern: &str, base_dir: &CanonicalizedPathBuf)
    ensures
        patterns_view(final(ps)@) == push_absent(patterns_view(old(ps)@), (relative_pattern@, base_dir@)),
{
    if !contains_pattern(ps, relative_pattern, base_dir) {
        let ghost before = patterns_view(ps@);
        ps.push(GlobPattern { relative_pattern: copy_str(relative_pattern), base_dir: base_dir.duplicate() });
        assert(patterns_view(ps@) =~= before.push((relative_pattern@, base_dir@)));
    }
}

/// The patterns that include files by the configuration: the include
/// overrides given on the command line (already resolved against the
/// current directory) when there are any, else the configuration's
/// `includes` resolved against its directory; none when neither is there.
pub fn get_config_includes_file_patterns(
    include_overrides: Option<Vec<GlobPattern>>,
    includes: Option<&Vec<String>>,
    base_path: &CanonicalizedPathBuf,
) -> (r: Option<Vec<GlobPattern>>)
    ensures
        match include_overrides {
            Some(o) => r matches Some(v) && patterns_view(v@) == patterns_view(o@),
            None => match includes {
                Some(inc) => r matches Some(v) && patterns_view(v@) == config_patterns_at(inc.deep_view(), base_path@),
                None => r is None,
            },
        },
{
    match include_overrides {
        Some(o) => Some(o),
        None => match includes {
            Some(inc) => Some(patterns_at(inc, base_path)),
            None => None,
        },
    }
}

/// The patterns that exclude files: the exclude overrides given on the
/// command line (already resolved against the current directory) when there
/// are any, else the configuration's `excludes` resolved against its
/// directory, with the `node_modules` patterns added (see
/// [`spec_exclude_patterns`]).
pub fn get_config_exclude_file_patterns(
    exclude_overrides: Option<Vec<GlobPattern>>,
    excludes: Option<&Vec<String>>,
    base_path: &CanonicalizedPathBuf,
    cwd: &CanonicalizedPathBuf,
    allow_node_modules: bool,
) -> (r: Vec<GlobPattern>)
    ensures
        patterns_view(r@) == spec_exclude_patterns(
            match exclude_overrides {
                Some(o) => patterns_view(o@),
                None => match excludes {
                    Some(ex) => config_patterns_at(ex.deep_view(), base_path@),
                    None => Seq::empty(),
                },
            },
            cwd@,
            base_path@,
            allow_node_modules,
        ),
{
    let mut file_patterns = match exclude_overrides {
        Some(o) => o,
        None => match excludes {
            Some(ex) => patterns_at(ex, base_path),
            None => {
                let v: Vec<GlobPattern> = Vec::new();
                assert(patterns_view(v@) =~= Seq::<(Seq<char>, Seq<char>)>::empty());
                v
            },
        },
    };
    if !allow_node_modules {
        proof {
            reveal_strlit("**/node_modules");
        }
        push_pattern_absent(&mut file_patterns, "**/node_modules", cwd);
        if !cwd.starts_with(base_path) {
            push_pattern_absent(&mut file_patterns, "**/node_modules", base_path);
        }
    }
    file_patterns
}

/// Command line patterns resolved against the current directory (see
/// [`spec_cli_pattern`]); none when there are no patterns.
pub fn process_cli_patterns(patterns: &Vec<String>, cwd: &CanonicalizedPathBuf) -> (r: Option<Vec<GlobPattern>>)
    ensures
        patterns@.len() == 0 <==> r is None,
        r matches Some(v) ==> patterns_view(v@) == patterns.deep_view().map_values(
            |p: Seq<char>| spec_cli_pattern(p, cwd@),
        ),
{
    if patterns.len() == 0 {
        return None;
    }
    let ghost target = patterns.deep_view().map_values(|p: Seq<char>| spec_cli_pattern(p, cwd@));
    let mut r: Vec<GlobPattern> = Vec::new();
    let mut i: usize = 0;
    while i < patterns.len()
        invariant
            i <= patterns@.len(),
            target == patterns.deep_view().map_values(|p: Seq<char>| spec_cli_pattern(p, cwd@)),
            patterns_view(r@) == target.take(i as int),
        decreases patterns@.len() - i,
    {
        assert(patterns.deep_view()[i as int] == patterns@[i as int]@);
        let ghost before = patterns_view(r@);
        let g = process_cli_pattern(patterns[i].as_str(), cwd);
        let ghost gv = pattern_view(g);
        assert(target[i as int] == gv);
        r.push(g);
        assert(patterns_view(r@) =~= before.push(gv));
        assert(patterns_view(r@) =~= target.take(i + 1));
        i = i + 1;
    }
    assert(target.take(i as int) =~= target);
    Some(r)
}

/// The patterns a run matches files against: the configuration's includes
/// and excludes (see [`get_config_includes_file_patterns`] and
/// [`get_config_exclude_file_patterns`]) and the command line's include and
/// exclude patterns resolved against the current directory.
pub fn get_all_file_patterns(
    includes: Option<&Vec<String>>,
    excludes: Option<&Vec<String>>,
    base_path: &CanonicalizedPathBuf,
    include_patterns: &Vec<String>,
    include_overrides: Option<Vec<GlobPattern>>,
    exclude_patterns: &Vec<String>,
    exclude_overrides: Option<Vec<GlobPattern>>,
    allow_node_modules: bool,
    cwd: &CanonicalizedPathBuf,
) -> (r: GlobPatterns)
    ensures
        match include_overrides {
            Some(o) => r.config_includes matches Some(v) && patterns_view(v@) == patterns_view(o@),
            None => match includes {
                Some(inc) => r.config_includes matches Some(v) && patterns_view(v@) == config_patterns_at(
                    inc.deep_view(),
                    base_path@,
                ),
                None => r.config_includes is None,
            },
        },
        patterns_view(r.config_excludes@) == spec_exclude_patterns(
            match exclude_overrides {
                Some(o) => patterns_view(o@),
                None => match excludes {
                    Some(ex) => config_patterns_at(ex.deep_view(), base_path@),
                    None => Seq::empty(),
                },
            },
            cwd@,
            base_path@,
            allow_node_modules,
        ),
        include_patterns@.len() == 0 <==> r.arg_includes is None,
        r.arg_includes matches Some(v) ==> patterns_view(v@) == include_patterns.deep_view().map_values(
            |p: Seq<char>| spec_cli_pattern(p, cwd@),
        ),
        exclude_patterns@.len() == 0 <==> r.arg_excludes is None,
        r.arg_excludes matches Some(v) ==> patterns_view(v@) == exclude_patterns.deep_view().map_values(
            |p: Seq<char>| spec_cli_pattern(p, cwd@),
        ),
{
    GlobPatterns {
        config_includes: get_config_includes_file_patterns(include_overrides, includes, base_path),
        arg_includes: process_cli_patterns(include_patterns, cwd),
        config_excludes: get_config_exclude_file_patterns(exclude_overrides, excludes, base_path, cwd, allow_node_modules),
        arg_excludes: process_cli_patterns(exclude_patterns, cwd),
    }
}


/// What the exclusion patterns say of a directory.
#[derive(Debug, Clone, Copy, PartialEq, Eq, Structural)]
pub enum ExcludeMatchDetail {
    Excluded,
    /// Excluded, but a pattern opts back in.
    OptedOutExclude,
    NotExcluded,
}

/// Whether a directory on the way to a file lets the file through: it is
/// not excluded, and either a pattern opts it back in or it is not ignored
/// by git.
pub open spec fn dir_lets_through(detail: ExcludeMatchDetail, gitignored: bool) -> bool {
    match detail {
        ExcludeMatchDetail::Excluded => false,
        ExcludeMatchDetail::OptedOutExclude => true,
        ExcludeMatchDetail::NotExcluded => !gitignored,
    }
}

/// Whether a file is formatted: the patterns match it (a plain match also
/// needs it not to be ignored by git), it lies under the base directory, and
/// every directory from the file itself up to the base directory lets it
/// through (see [`dir_lets_through`]); `dirs` holds what the exclusion
/// patterns and git say of each of those directories.
pub fn matches_and_dir_not_ignored(
    file_detail: GlobMatchesDetail,
    file_gitignored: bool,
    under_base_dir: bool,
    dirs: &Vec<(ExcludeMatchDetail, bool)>,
) -> (r: bool)
    ensures
        r == ((file_detail == GlobMatchesDetail::Matched && !file_gitignored
            || file_detail == GlobMatchesDetail::MatchedOptedOutExclude) && under_base_dir && forall|i: int|
            0 <= i < dirs@.len() ==> dir_lets_through(#[trigger] dirs@[i].0, dirs@[i].1)),
{
    match file_detail {
        GlobMatchesDetail::Matched => {
            if file_gitignored {
                return false;
            }
        },
        GlobMatchesDetail::MatchedOptedOutExclude => {},
        _ => {
            return false;
        },
    }
    if !under_base_dir {
        return false;
    }
    let mut i: usize = 0;
    while i < dirs.len()
        invariant
            i <= dirs@.len(),
            forall|j: int| 0 <= j < i ==> dir_lets_through(#[trigger] dirs@[j].0, dirs@[j].1),
        decreases dirs@.len() - i,
    {
        let (detail, gitignored) = dirs[i];
        match detail {
            ExcludeMatchDetail::Excluded => {
                return false;
            },
            ExcludeMatchDetail::OptedOutExclude => {},
            ExcludeMatchDetail::NotExcluded => {
                if gitignored {
                    return false;
                }
            },
        }
        i = i + 1;
    }
    true
}

} // verus!
