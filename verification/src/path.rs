//! Paths as strings with `/` separators, and the operations on them that the
//! rest of the library uses, each specified the way `std::path` behaves on a
//! Unix-style path.
use vstd::prelude::*;
use crate::text::{copy_str, concat2, concat3, push_char, string_of, chars_of};

verus! {

/// Whether the path is absolute (starts at the root).
pub open spec fn spec_is_absolute(p: Seq<char>) -> bool {
    p.len() > 0 && p[0] == '/'
}

/// `base` joined with `p`: an absolute `p` replaces `base`; otherwise a `/`
/// separates the two unless `base` is empty or already ends with one.
pub open spec fn spec_path_join(base: Seq<char>, p: Seq<char>) -> Seq<char> {
    if spec_is_absolute(p) {
        p
    } else if base.len() == 0 || base.last() == '/' {
        base + p
    } else {
        base + seq!['/'] + p
    }
}

/// `base` joined with `p` (see [`spec_path_join`]).
pub fn path_join(base: &str, p: &str) -> (r: String)
    ensures
        r@ == spec_path_join(base@, p@),
{
    let n = base.unicode_len();
    let m = p.unicode_len();
    if m > 0 && p.get_char(0) == '/' {
        return copy_str(p);
    }
    if n == 0 || base.get_char(n - 1) == '/' {
        concat2(base, p)
    } else {
        proof {
            reveal_strlit("/");
        }
        concat3(base, "/", p)
    }
}

/// The pieces of `s` between the occurrences of `sep`, as `str::split` gives
/// them (always at least one piece).
pub open spec fn split_on(s: Seq<char>, sep: char) -> Seq<Seq<char>>
    decreases s.len(),
{
    if s.len() == 0 {
        seq![Seq::empty()]
    } else {
        let rest = split_on(s.drop_last(), sep);
        if s.last() == sep {
            rest.push(Seq::empty())
        } else {
            rest.update(rest.len() - 1, rest.last().push(s.last()))
        }
    }
}

pub proof fn lemma_split_on_nonempty(s: Seq<char>, sep: char)
    ensures
        split_on(s, sep).len() >= 1,
    decreases s.len(),
{
    if s.len() > 0 {
        lemma_split_on_nonempty(s.drop_last(), sep);
    }
}

/// The views of a list of character vectors.
pub open spec fn views(v: Seq<Vec<char>>) -> Seq<Seq<char>> {
    v.map_values(|x: Vec<char>| x@)
}

/// The pieces of `s` between the occurrences of `sep`.
pub fn split_chars(s: &Vec<char>, sep: char) -> (r: Vec<Vec<char>>)
    ensures
        views(r@) == split_on(s@, sep),
{
    let mut pieces: Vec<Vec<char>> = Vec::new();
    let mut current: Vec<char> = Vec::new();
    let mut i: usize = 0;
    assert(s@.subrange(0, 0) =~= Seq::<char>::empty());
    assert(views(pieces@).push(current@) =~= seq![Seq::<char>::empty()]);
    while i < s.len()
        invariant
            i <= s@.len(),
            views(pieces@).push(current@) == split_on(s@.subrange(0, i as int), sep),
        decreases s@.len() - i,
    {
        let ghost before = s@.subrange(0, i as int);
        let ghost old_pieces = views(pieces@);
        let ghost old_current = current@;
        proof {
            lemma_split_on_nonempty(before, sep);
        }
        assert(s@.subrange(0, i + 1).drop_last() =~= before);
        if s[i] == sep {
            let done = current;
            pieces.push(done);
            current = Vec::new();
            assert(views(pieces@) =~= old_pieces.push(old_current));
            assert(views(pieces@).push(current@) =~= split_on(s@.subrange(0, i + 1), sep));
        } else {
            current.push(s[i]);
            assert(views(pieces@) =~= old_pieces);
            assert(views(pieces@).push(current@) =~= old_pieces.push(old_current).update(
                old_pieces.len() as int,
                old_current.push(s@[i as int]),
            ));
            assert(views(pieces@).push(current@) =~= split_on(s@.subrange(0, i + 1), sep));
        }
        i = i + 1;
    }
    assert(s@.subrange(0, s@.len() as int) =~= s@);
    let ghost old_pieces = views(pieces@);
    let ghost last = current@;
    pieces.push(current);
    assert(views(pieces@) =~= old_pieces.push(last));
    pieces
}

/// A component that names something: neither empty nor `.`.
pub open spec fn is_named(c: Seq<char>) -> bool {
    c != Seq::<char>::empty() && c != seq!['.']
}

/// The pieces that are named components, in order.
pub open spec fn keep_named(s: Seq<Seq<char>>) -> Seq<Seq<char>>
    decreases s.len(),
{
    if s.len() == 0 {
        Seq::empty()
    } else if is_named(s.last()) {
        keep_named(s.drop_last()).push(s.last())
    } else {
        keep_named(s.drop_last())
    }
}

/// The named components of a path: the pieces between `/`, leaving out empty
/// pieces and `.` (as `Path::components` does away from the start).
pub open spec fn named_components(p: Seq<char>) -> Seq<Seq<char>> {
    keep_named(split_on(p, '/'))
}

/// The file name of a path: its last component, unless that is `..` or the
/// path has no named component (as `Path::file_name` gives it).
pub open spec fn spec_file_name(p: Seq<char>) -> Option<Seq<char>> {
    let comps = named_components(p);
    if comps.len() == 0 || comps.last() == seq!['.', '.'] {
        None
    } else {
        Some(comps.last())
    }
}

/// The index of the last `c` in `s`, if any.
pub open spec fn last_index_of(s: Seq<char>, c: char) -> Option<int> {
    if exists|i: int| 0 <= i < s.len() && s[i] == c {
        Some(choose|i: int| 0 <= i < s.len() && s[i] == c && forall|j: int| i < j < s.len() ==> s[j] != c)
    } else {
        None
    }
}

/// The extension of a file name: the text after its last `.`, unless it has
/// none or its only `.` is the first character (as `Path::extension` gives it).
pub open spec fn name_extension(name: Seq<char>) -> Option<Seq<char>> {
    match last_index_of(name, '.') {
        Some(i) => if i == 0 {
            None
        } else {
            Some(name.subrange(i + 1, name.len() as int))
        },
        None => None,
    }
}

/// The extension of a path's file name, if any.
pub open spec fn spec_extension(p: Seq<char>) -> Option<Seq<char>> {
    match spec_file_name(p) {
        Some(name) => name_extension(name),
        None => None,
    }
}

/// The file name of a path (see [`spec_file_name`]).
pub fn file_name(path: &str) -> (r: Option<String>)
    ensures
        match r {
            Some(s) => spec_file_name(path@) == Some(s@),
            None => spec_file_name(path@) is None,
        },
{
    let chars = chars_of(path);
    let pieces = split_chars(&chars, '/');
    let ghost all = views(pieces@);
    let mut found: Option<usize> = None;
    let mut i: usize = 0;
    assert(keep_named(all.take(0)) =~= Seq::<Seq<char>>::empty());
    while i < pieces.len()
        invariant
            all == views(pieces@),
            all == split_on(path@, '/'),
            i <= pieces@.len(),
            match found {
                Some(k) => k < i && keep_named(all.take(i as int)).len() > 0 && keep_named(
                    all.take(i as int),
                ).last() == all[k as int],
                None => keep_named(all.take(i as int)).len() == 0,
            },
        decreases pieces@.len() - i,
    {
        let piece = &pieces[i];
        let named = !(piece.len() == 0 || (piece.len() == 1 && piece[0] == '.'));
        assert(all[i as int] == piece@);
        assert(all.take(i + 1).drop_last() =~= all.take(i as int));
        assert(all.take(i + 1).last() == all[i as int]);
        assert(named == is_named(all[i as int])) by {
            if piece@.len() == 1 && piece@[0] == '.' {
                assert(piece@ =~= seq!['.']);
            }
            if piece@.len() == 0 {
                assert(piece@ =~= Seq::<char>::empty());
            }
            if piece@ == seq!['.'] {
                assert(piece@.len() == 1);
            }
        }
        if named {
            found = Some(i);
        }
        i = i + 1;
    }
    assert(all.take(pieces@.len() as int) =~= all);
    match found {
        None => None,
        Some(k) => {
            let piece = &pieces[k];
            assert(all[k as int] == piece@);
            if piece.len() == 2 && piece[0] == '.' && piece[1] == '.' {
                assert(piece@ =~= seq!['.', '.']);
                None
            } else {
                assert(piece@ != seq!['.', '.']);
                Some(string_of(piece.as_slice()))
            }
        },
    }
}

/// The extension of a file name (see [`name_extension`]).
pub fn extension_of_name(name: &str) -> (r: Option<String>)
    ensures
        match r {
            Some(s) => name_extension(name@) == Some(s@),
            None => name_extension(name@) is None,
        },
{
    let chars = chars_of(name);
    let mut i: usize = chars.len();
    while i > 0
        invariant
            chars@ == name@,
            i <= chars@.len(),
            forall|j: int| i <= j < chars@.len() ==> chars@[j] != '.',
        decreases i,
    {
        if chars[i - 1] == '.' {
            let k = i - 1;
            assert(last_index_of(name@, '.') == Some(k as int)) by {
                let w = choose|w: int|
                    0 <= w < name@.len() && name@[w] == '.' && forall|j: int| w < j < name@.len() ==> name@[j] != '.';
                assert(name@[k as int] == '.');
                if w < k {
                    assert(name@[k as int] != '.');
                }
                if w > k {
                    assert(name@[w] != '.');
                }
            }
            if k == 0 {
                return None;
            }
            let mut rest: Vec<char> = Vec::new();
            let mut j: usize = k + 1;
            while j < chars.len()
                invariant
                    chars@ == name@,
                    k + 1 <= j <= chars@.len(),
                    rest@ == chars@.subrange(k + 1, j as int),
                decreases chars@.len() - j,
            {
                rest.push(chars[j]);
                j = j + 1;
                assert(rest@ =~= chars@.subrange(k + 1, j as int));
            }
            return Some(string_of(rest.as_slice()));
        }
        i = i - 1;
    }
    None
}

/// The extension of a path's file name (see [`spec_extension`]).
pub fn extension(path: &str) -> (r: Option<String>)
    ensures
        match r {
            Some(s) => spec_extension(path@) == Some(s@),
            None => spec_extension(path@) is None,
        },
{
    match file_name(path) {
        Some(name) => extension_of_name(name.as_str()),
        None => None,
    }
}

} // verus!
