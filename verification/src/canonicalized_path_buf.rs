//! A path that is guaranteed to be canonicalized: absolute, with no empty,
//! `.` or `..` components and no trailing separator.
use vstd::prelude::*;
use crate::path::{keep_named, lemma_split_on_nonempty, path_join, spec_path_join, split_chars, split_on, views};
use crate::text::{chars_of, concat2, concat3, copy_str, has_prefix, starts_with, str_eq, string_of};

verus! {

/// A component of a canonical path: not empty, `.` or `..`.
pub open spec fn is_plain_component(c: Seq<char>) -> bool {
    c.len() > 0 && c != seq!['.'] && c != seq!['.', '.']
}

/// A relative path made only of plain components.
pub open spec fn is_plain_relative(p: Seq<char>) -> bool {
    forall|i: int| 0 <= i < split_on(p, '/').len() ==> is_plain_component(#[trigger] split_on(p, '/')[i])
}

/// A canonical absolute path: the root, or `/` followed by plain components.
pub open spec fn is_canonical(p: Seq<char>) -> bool {
    p == seq!['/'] || (p.len() > 1 && p[0] == '/' && is_plain_relative(p.drop_first()))
}

/// `p` is `base` or lies under it, comparing whole components.
pub open spec fn canonical_starts_with(p: Seq<char>, base: Seq<char>) -> bool {
    base == seq!['/'] || p == base || has_prefix(p, base + seq!['/'])
}

/// What remains of `p` after its leading `base`.
pub open spec fn canonical_strip_prefix(p: Seq<char>, base: Seq<char>) -> Option<Seq<char>> {
    if base == seq!['/'] {
        Some(p.drop_first())
    } else if p == base {
        Some(Seq::empty())
    } else if has_prefix(p, base + seq!['/']) {
        Some(p.subrange(base.len() + 1int, p.len() as int))
    } else {
        None
    }
}

/// The directory that holds `p`; the root has none.
pub open spec fn canonical_parent(p: Seq<char>) -> Option<Seq<char>> {
    if p == seq!['/'] {
        None
    } else {
        let k = choose|k: int| 0 <= k < p.len() && p[k] == '/' && forall|j: int| k < j < p.len() ==> p[j] != '/';
        if k == 0 {
            Some(seq!['/'])
        } else {
            Some(p.subrange(0, k))
        }
    }
}

/// `p` with the plain relative path `rel` appended.
pub open spec fn canonical_join(p: Seq<char>, rel: Seq<char>) -> Seq<char> {
    if p == seq!['/'] {
        p + rel
    } else {
        p + seq!['/'] + rel
    }
}

/// Stripping a leading directory succeeds exactly when the path starts with
/// it, and joining what remains back onto the directory gives the path
/// again (nothing remains when the path is the directory itself).
pub proof fn law_strip_prefix_join(p: Seq<char>, base: Seq<char>)
    requires
        is_canonical(p),
        is_canonical(base),
    ensures
        canonical_strip_prefix(p, base) is Some <==> canonical_starts_with(p, base),
        canonical_strip_prefix(p, base) matches Some(r) ==> ((r.len() == 0 && p == base) || canonical_join(base, r)
            == p),
{
    if base == seq!['/'] {
        if p == seq!['/'] {
            assert(p.drop_first() =~= Seq::<char>::empty());
        } else {
            assert(seq!['/'] + p.drop_first() =~= p);
        }
    } else if p != base && has_prefix(p, base + seq!['/']) {
        let r = p.subrange(base.len() + 1int, p.len() as int);
        assert(p.subrange(0, base.len() + 1int) == base + seq!['/']);
        assert(base + seq!['/'] + r =~= p);
    }
}

/// Whether no component of the path is `..`.
pub open spec fn has_no_parent_step(p: Seq<char>) -> bool {
    forall|i: int| 0 <= i < split_on(p, '/').len() ==> #[trigger] split_on(p, '/')[i] != seq!['.', '.']
}

/// `p` with the components appended one after another.
pub open spec fn join_components(p: Seq<char>, comps: Seq<Seq<char>>) -> Seq<char>
    decreases comps.len(),
{
    if comps.len() == 0 {
        p
    } else {
        canonical_join(join_components(p, comps.drop_last()), comps.last())
    }
}

/// The pieces of a text split on a character hold no such character.
proof fn lemma_split_pieces_no_sep(s: Seq<char>, sep: char)
    ensures
        forall|k: int, j: int|
            0 <= k < split_on(s, sep).len() && 0 <= j < split_on(s, sep)[k].len() ==> #[trigger] split_on(s, sep)[k][j] != sep,
    decreases s.len(),
{
    if s.len() > 0 {
        lemma_split_pieces_no_sep(s.drop_last(), sep);
        let rest = split_on(s.drop_last(), sep);
        lemma_split_on_nonempty(s.drop_last(), sep);
        assert forall|k: int, j: int|
            0 <= k < split_on(s, sep).len() && 0 <= j < split_on(s, sep)[k].len() implies #[trigger] split_on(s, sep)[k][j] != sep by {
            if s.last() == sep {
                if k < rest.len() {
                    assert(split_on(s, sep)[k] == rest[k]);
                }
            } else {
                if k < rest.len() - 1 {
                    assert(split_on(s, sep)[k] == rest[k]);
                } else {
                    assert(split_on(s, sep)[k] == rest.last().push(s.last()));
                    if j < rest.last().len() {
                        assert(split_on(s, sep)[k][j] == rest[rest.len() - 1][j]);
                    }
                }
            }
        }
    }
}

pub proof fn lemma_split_on_append(a: Seq<char>, b: Seq<char>, sep: char)
    ensures
        split_on(a + seq![sep] + b, sep) == split_on(a, sep) + split_on(b, sep),
    decreases b.len(),
{
    if b.len() == 0 {
        assert((a + seq![sep] + b).drop_last() =~= a);
        lemma_split_on_nonempty(a, sep);
        assert(split_on(b, sep) =~= seq![Seq::<char>::empty()]);
        assert(split_on(a + seq![sep] + b, sep) =~= split_on(a, sep) + split_on(b, sep));
    } else {
        lemma_split_on_append(a, b.drop_last(), sep);
        assert((a + seq![sep] + b).drop_last() =~= a + seq![sep] + b.drop_last());
        lemma_split_on_nonempty(b.drop_last(), sep);
        lemma_split_on_nonempty(a, sep);
        assert(split_on(a + seq![sep] + b, sep) =~= split_on(a, sep) + split_on(b, sep));
    }
}

pub proof fn lemma_split_on_no_sep(a: Seq<char>, sep: char)
    requires
        forall|i: int| 0 <= i < a.len() ==> a[i] != sep,
    ensures
        split_on(a, sep) == seq![a],
    decreases a.len(),
{
    if a.len() == 0 {
        assert(a =~= Seq::<char>::empty());
    } else {
        lemma_split_on_no_sep(a.drop_last(), sep);
        let rest = split_on(a.drop_last(), sep);
        assert(rest.len() == 1);
        assert(rest.last() == a.drop_last());
        assert(a.drop_last().push(a.last()) =~= a);
        assert(a.last() != sep);
        assert(split_on(a, sep) == rest.update(0, rest.last().push(a.last())));
        assert(rest.update(0, rest.last().push(a.last())) =~= seq![a]);
    }
}

proof fn lemma_split_on_last(a: Seq<char>, k: int, sep: char)
    requires
        0 <= k < a.len(),
        a[k] == sep,
        forall|j: int| k < j < a.len() ==> a[j] != sep,
    ensures
        split_on(a, sep) == split_on(a.subrange(0, k), sep).push(a.subrange(k + 1, a.len() as int)),
{
    let x = a.subrange(0, k);
    let y = a.subrange(k + 1, a.len() as int);
    assert(a =~= x + seq![sep] + y);
    lemma_split_on_append(x, y, sep);
    lemma_split_on_no_sep(y, sep);
}

proof fn lemma_last_slash(p: Seq<char>, n: int)
    requires
        1 <= n <= p.len(),
        p[0] == '/',
    ensures
        exists|k: int| 0 <= k < n && p[k] == '/' && forall|j: int| k < j < n ==> p[j] != '/',
    decreases n,
{
    if p[n - 1] != '/' {
        lemma_last_slash(p, n - 1);
        let k = choose|k: int| 0 <= k < n - 1 && p[k] == '/' && forall|j: int| k < j < n - 1 ==> p[j] != '/';
        assert(forall|j: int| k < j < n ==> p[j] != '/');
    } else {
        assert(forall|j: int| n - 1 < j < n ==> p[j] != '/');
    }
}

/// A canonical path other than the root has a parent, and it is shorter.
pub proof fn lemma_parent_shorter(p: Seq<char>)
    requires
        is_canonical(p),
        p != seq!['/'],
    ensures
        canonical_parent(p) matches Some(q) && q.len() < p.len(),
{
    lemma_last_slash(p, p.len() as int);
}

/// A path that is guaranteed to be canonicalized.
#[derive(Debug)]
pub struct CanonicalizedPathBuf {
    path: String,
}

impl View for CanonicalizedPathBuf {
    type V = Seq<char>;

    closed spec fn view(&self) -> Seq<char> {
        self.path@
    }
}

/// Whether `p` is a plain relative path (see [`is_plain_relative`]).
pub fn check_plain_relative(p: &str) -> (r: bool)
    ensures
        r == is_plain_relative(p@),
{
    let chars = chars_of(p);
    let pieces = split_chars(&chars, '/');
    let mut i: usize = 0;
    while i < pieces.len()
        invariant
            views(pieces@) == split_on(p@, '/'),
            i <= pieces@.len(),
            forall|j: int| 0 <= j < i ==> is_plain_component(#[trigger] split_on(p@, '/')[j]),
        decreases pieces@.len() - i,
    {
        let piece = &pieces[i];
        assert(split_on(p@, '/')[i as int] == piece@);
        if piece.len() == 0 {
            return false;
        }
        if piece.len() == 1 && piece[0] == '.' {
            assert(piece@ =~= seq!['.']);
            return false;
        }
        if piece.len() == 2 && piece[0] == '.' && piece[1] == '.' {
            assert(piece@ =~= seq!['.', '.']);
            return false;
        }
        assert(piece@ != seq!['.']) by {
            if piece@ == seq!['.'] {
                assert(piece@.len() == 1);
            }
        }
        assert(piece@ != seq!['.', '.']) by {
            if piece@ == seq!['.', '.'] {
                assert(piece@.len() == 2);
            }
        }
        i = i + 1;
    }
    true
}

/// Whether `p` is canonical (see [`is_canonical`]).
pub fn check_canonical(p: &str) -> (r: bool)
    ensures
        r == is_canonical(p@),
{
    let chars = chars_of(p);
    if chars.len() == 1 && chars[0] == '/' {
        assert(p@ =~= seq!['/']);
        return true;
    }
    if chars.len() <= 1 || chars[0] != '/' {
        assert(p@ != seq!['/']) by {
            if p@ == seq!['/'] {
                assert(p@.len() == 1);
            }
        }
        return false;
    }
    assert(p@ != seq!['/']);
    let mut rest: Vec<char> = Vec::new();
    let mut i: usize = 1;
    while i < chars.len()
        invariant
            chars@ == p@,
            1 <= i <= chars@.len(),
            rest@ == chars@.subrange(1, i as int),
        decreases chars@.len() - i,
    {
        rest.push(chars[i]);
        i = i + 1;
        assert(rest@ =~= chars@.subrange(1, i as int));
    }
    assert(rest@ =~= p@.drop_first());
    let rest_str = string_of(rest.as_slice());
    check_plain_relative(rest_str.as_str())
}

/// The characters of `s` from index `skip` on.
pub fn suffix_from(s: &str, skip: usize) -> (r: String)
    requires
        skip <= s@.len(),
    ensures
        r@ == s@.subrange(skip as int, s@.len() as int),
{
    let chars = chars_of(s);
    let mut rest: Vec<char> = Vec::new();
    let mut i: usize = skip;
    while i < chars.len()
        invariant
            chars@ == s@,
            skip <= i <= chars@.len(),
            rest@ == chars@.subrange(skip as int, i as int),
        decreases chars@.len() - i,
    {
        rest.push(chars[i]);
        i = i + 1;
        assert(rest@ =~= chars@.subrange(skip as int, i as int));
    }
    string_of(rest.as_slice())
}

impl CanonicalizedPathBuf {
    #[verifier::type_invariant]
    pub closed spec fn inv(&self) -> bool {
        is_canonical(self.path@)
    }

    /// The path as a canonical path, when it is one.
    pub fn from_canonical(path: String) -> (r: Option<CanonicalizedPathBuf>)
        ensures
            match r {
                Some(c) => is_canonical(path@) && c@ == path@,
                None => !is_canonical(path@),
            },
    {
        if check_canonical(path.as_str()) {
            Some(CanonicalizedPathBuf { path })
        } else {
            None
        }
    }

    /// Wraps a path that is known to be canonical.
    pub fn new_for_testing(path: &str) -> (r: CanonicalizedPathBuf)
        requires
            is_canonical(path@),
        ensures
            r@ == path@,
    {
        CanonicalizedPathBuf { path: copy_str(path) }
    }

    /// The path is canonical.
    pub proof fn lemma_canonical(self)
        requires
            self.inv(),
        ensures
            is_canonical(self@),
    {
    }

    /// A copy of this path.
    pub fn duplicate(&self) -> (r: CanonicalizedPathBuf)
        ensures
            r@ == self@,
    {
        proof {
            use_type_invariant(self);
        }
        CanonicalizedPathBuf { path: copy_str(self.path.as_str()) }
    }

    /// The path as a string.
    pub fn into_path_buf(self) -> (r: String)
        ensures
            r@ == self@,
    {
        self.path
    }

    /// The path as text to show the user.
    pub fn display(&self) -> (r: &str)
        ensures
            r@ == self@,
    {
        self.path.as_str()
    }

    /// The path as a string.
    pub fn to_string_lossy(&self) -> (r: String)
        ensures
            r@ == self@,
    {
        copy_str(self.path.as_str())
    }

    /// Whether the two paths are the same.
    pub fn equals(&self, other: &CanonicalizedPathBuf) -> (r: bool)
        ensures
            r == (self@ == other@),
    {
        str_eq(self.path.as_str(), other.path.as_str())
    }

    /// Whether this path is `other` or lies under it, comparing whole components.
    pub fn starts_with(&self, other: &CanonicalizedPathBuf) -> (r: bool)
        ensures
            r == canonical_starts_with(self@, other@),
    {
        if str_eq(other.path.as_str(), "/") {
            proof {
                reveal_strlit("/");
            assert("/"@ =~= seq!['/']);
            }
            return true;
        }
        proof {
            reveal_strlit("/");
            assert("/"@ =~= seq!['/']);
        }
        if str_eq(self.path.as_str(), other.path.as_str()) {
            return true;
        }
        let with_sep = concat2(other.path.as_str(), "/");
        starts_with(self.path.as_str(), with_sep.as_str())
    }

    /// What remains of this path after `base`, when it lies under `base`.
    pub fn strip_prefix(&self, base: &CanonicalizedPathBuf) -> (r: Option<String>)
        ensures
            match r {
                Some(s) => canonical_strip_prefix(self@, base@) == Some(s@),
                None => canonical_strip_prefix(self@, base@) is None,
            },
    {
        proof {
            reveal_strlit("/");
            assert("/"@ =~= seq!['/']);
            use_type_invariant(self);
        }
        if str_eq(base.path.as_str(), "/") {
            return Some(suffix_from(self.path.as_str(), 1));
        } else if str_eq(self.path.as_str(), base.path.as_str()) {
            return Some(String::new());
        } else {
            let with_sep = concat2(base.path.as_str(), "/");
            if !starts_with(self.path.as_str(), with_sep.as_str()) {
                return None;
            }
            assert(with_sep@ == base@ + seq!['/']);
            let n = self.path.unicode_len();
            let skip = base.path.unicode_len() + 1;
            Some(suffix_from(self.path.as_str(), skip))
        }
    }

    /// What remains of the absolute path `p` after this path, when it lies
    /// under this path (see [`canonical_strip_prefix`]).
    pub fn strip_from(&self, p: &str) -> (r: Option<String>)
        requires
            p@.len() >= 1,
        ensures
            match r {
                Some(s) => canonical_strip_prefix(p@, self@) == Some(s@),
                None => canonical_strip_prefix(p@, self@) is None,
            },
    {
        proof {
            reveal_strlit("/");
            assert("/"@ =~= seq!['/']);
        }
        if str_eq(self.path.as_str(), "/") {
            return Some(suffix_from(p, 1));
        } else if str_eq(p, self.path.as_str()) {
            return Some(String::new());
        } else {
            let with_sep = concat2(self.path.as_str(), "/");
            if !starts_with(p, with_sep.as_str()) {
                return None;
            }
            let n = p.unicode_len();
            assert(with_sep@ == self@ + seq!['/']);
            let skip = self.path.unicode_len() + 1;
            Some(suffix_from(p, skip))
        }
    }

    /// This path joined with `path` (see [`spec_path_join`]).
    pub fn join(&self, path: &str) -> (r: String)
        ensures
            r@ == spec_path_join(self@, path@),
    {
        path_join(self.path.as_str(), path)
    }

    /// The directory that holds this path; the root has none.
    pub fn parent(&self) -> (r: Option<CanonicalizedPathBuf>)
        ensures
            match r {
                Some(p) => canonical_parent(self@) == Some(p@),
                None => canonical_parent(self@) is None,
            },
    {
        proof {
            use_type_invariant(self);
            reveal_strlit("/");
            assert("/"@ =~= seq!['/']);
        }
        let chars = chars_of(self.path.as_str());
        if chars.len() == 1 {
            assert(self@ =~= seq!['/']);
            return None;
        }
        assert(self@ != seq!['/']);
        let mut k: usize = chars.len() - 1;
        while chars[k] != '/'
            invariant
                chars@ == self@,
                k < chars@.len(),
                chars@[0] == '/',
                forall|j: int| k < j < chars@.len() ==> chars@[j] != '/',
            decreases k,
        {
            k = k - 1;
        }
        let ghost spec_k = choose|w: int|
            0 <= w < self@.len() && self@[w] == '/' && forall|j: int| w < j < self@.len() ==> self@[j] != '/';
        assert(spec_k == k) by {
            assert(self@[k as int] == '/');
            if spec_k < k {
                assert(self@[k as int] != '/');
            }
            if spec_k > k {
                assert(self@[spec_k] != '/');
            }
        }
        let ghost rel = self@.drop_first();
        proof {
            assert(is_plain_relative(rel));
            if k > 0 {
                lemma_split_on_last(rel, k - 1, '/');
                assert(rel.subrange(0, k - 1) =~= self@.subrange(0, k as int).drop_first());
                assert forall|i: int|
                    0 <= i < split_on(self@.subrange(0, k as int).drop_first(), '/').len() implies is_plain_component(
                    #[trigger] split_on(self@.subrange(0, k as int).drop_first(), '/')[i],
                ) by {
                    assert(split_on(rel, '/')[i] == split_on(rel.subrange(0, k - 1), '/')[i]);
                }
                lemma_split_on_nonempty(rel.subrange(0, k - 1), '/');
                if k == 1 {
                    assert(split_on(rel.subrange(0, 0), '/')[0] =~= Seq::<char>::empty());
                    assert(rel.subrange(0, 0) =~= Seq::<char>::empty());
                    assert(split_on(rel, '/')[0] == split_on(rel.subrange(0, k - 1), '/')[0]);
                }
            }
        }
        if k == 0 {
            return Some(CanonicalizedPathBuf { path: copy_str("/") });
        }
        let mut prefix: Vec<char> = Vec::new();
        let mut i: usize = 0;
        while i < k
            invariant
                chars@ == self@,
                k < chars@.len(),
                i <= k,
                prefix@ == chars@.subrange(0, i as int),
            decreases k - i,
        {
            prefix.push(chars[i]);
            i = i + 1;
            assert(prefix@ =~= chars@.subrange(0, i as int));
        }
        Some(CanonicalizedPathBuf { path: string_of(prefix.as_slice()) })
    }

    /// This path with `path` joined onto it, component by component: an
    /// absolute `path` starts again from the root, and its empty and `.`
    /// components add nothing. A path with a `..` component would not be
    /// resolved, so it is not accepted.
    pub fn join_panic_relative(&self, path: &str) -> (r: CanonicalizedPathBuf)
        requires
            has_no_parent_step(path@),
        ensures
            r@ == join_components(
                if path@.len() > 0 && path@[0] == '/' {
                    seq!['/']
                } else {
                    self@
                },
                keep_named(split_on(path@, '/')),
            ),
    {
        proof {
            use_type_invariant(self);
            reveal_strlit("/");
            assert("/"@ =~= seq!['/']);
        }
        let chars = chars_of(path);
        let pieces = split_chars(&chars, '/');
        let ghost split = split_on(path@, '/');
        let mut current = if chars.len() > 0 && chars[0] == '/' {
            CanonicalizedPathBuf { path: copy_str("/") }
        } else {
            self.duplicate()
        };
        let ghost base = current@;
        proof {
            lemma_split_pieces_no_sep(path@, '/');
            assert(split.take(0) =~= Seq::<Seq<char>>::empty());
        }
        let mut i: usize = 0;
        while i < pieces.len()
            invariant
                i <= pieces@.len(),
                views(pieces@) == split,
                split == split_on(path@, '/'),
                has_no_parent_step(path@),
                forall|k: int, j: int| 0 <= k < split.len() && 0 <= j < split[k].len() ==> #[trigger] split[k][j] != '/',
                current@ == join_components(base, keep_named(split.take(i as int))),
            decreases pieces@.len() - i,
        {
            let piece = &pieces[i];
            assert(split.take(i + 1).drop_last() =~= split.take(i as int));
            assert(split[i as int] == piece@);
            if piece.len() > 0 && !(piece.len() == 1 && piece[0] == '.') {
                proof {
                    assert(piece@ != seq!['.']) by {
                        if piece@ == seq!['.'] {
                            assert(piece@.len() == 1 && piece@[0] == '.');
                        }
                    }
                    assert(piece@ != seq!['.', '.']);
                    lemma_split_on_no_sep(piece@, '/');
                    assert(is_plain_component(split_on(piece@, '/')[0]));
                    assert(is_plain_relative(piece@));
                }
                let text = string_of(piece.as_slice());
                let ghost before = keep_named(split.take(i as int));
                current = current.join_plain(text.as_str());
                proof {
                    assert(crate::path::is_named(piece@));
                    assert(keep_named(split.take(i + 1)) == before.push(piece@));
                    assert(before.push(piece@).drop_last() =~= before);
                }
            } else {
                proof {
                    if piece@.len() == 1 && piece@[0] == '.' {
                        assert(piece@ =~= seq!['.']);
                    }
                    if piece@.len() == 0 {
                        assert(piece@ =~= Seq::<char>::empty());
                    }
                    assert(!crate::path::is_named(piece@));
                    assert(keep_named(split.take(i + 1)) == keep_named(split.take(i as int)));
                }
            }
            i = i + 1;
        }
        assert(split.take(i as int) =~= split);
        current
    }

    /// This path with the plain relative path `path` appended.
    fn join_plain(&self, path: &str) -> (r: CanonicalizedPathBuf)
        requires
            is_plain_relative(path@),
        ensures
            r@ == canonical_join(self@, path@),
    {
        proof {
            use_type_invariant(self);
            reveal_strlit("/");
            assert("/"@ =~= seq!['/']);
        }
        if str_eq(self.path.as_str(), "/") {
            let joined = concat2("/", path);
            assert(joined@.drop_first() =~= path@);
            assert(joined@.len() > 1) by {
                assert(split_on(path@, '/').len() >= 1) by {
                    lemma_split_on_nonempty(path@, '/');
                }
                assert(is_plain_component(split_on(path@, '/')[0]));
                if path@.len() == 0 {
                    assert(split_on(path@, '/')[0] =~= Seq::<char>::empty());
                }
            }
            CanonicalizedPathBuf { path: joined }
        } else {
            let joined = concat3(self.path.as_str(), "/", path);
            proof {
                let rel = self@.drop_first();
                assert(joined@.drop_first() =~= rel + seq!['/'] + path@);
                lemma_split_on_append(rel, path@, '/');
                assert forall|i: int|
                    0 <= i < split_on(joined@.drop_first(), '/').len() implies is_plain_component(
                    #[trigger] split_on(joined@.drop_first(), '/')[i],
                ) by {
                    if i < split_on(rel, '/').len() {
                        assert(split_on(joined@.drop_first(), '/')[i] == split_on(rel, '/')[i]);
                    } else {
                        assert(split_on(joined@.drop_first(), '/')[i] == split_on(path@, '/')[i
                            - split_on(rel, '/').len()]);
                    }
                }
            }
            CanonicalizedPathBuf { path: joined }
        }
    }
}

} // verus!
