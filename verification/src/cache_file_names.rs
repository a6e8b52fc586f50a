//! Names of the files that plugins are cached in: a name taken from the
//! plugin's url or path, made unique among the names already in use by a
//! number.
use vstd::prelude::*;
use vstd::set_lib::{lemma_int_range, lemma_len_subset, lemma_map_size, set_int_range};
use crate::text::{chars_of, concat3, copy_str, decimal, decimal_text, digit_char, str_eq, string_of_range};

verus! {

/// The `index`th name tried for a file with this stem and extension: the
/// stem itself first, then the stem with `_2`, `_3` and so on.
pub open spec fn candidate_name(prefix: Seq<char>, extension: Seq<char>, index: int) -> Seq<char> {
    if index <= 1 {
        prefix + seq!['.'] + extension
    } else {
        prefix + seq!['_'] + decimal(index as nat) + seq!['.'] + extension
    }
}

/// The names in use.
pub open spec fn names_view(names: Seq<String>) -> Seq<Seq<char>> {
    names.map_values(|s: String| s@)
}

proof fn lemma_decimal_nonempty(n: nat)
    ensures
        decimal(n).len() >= 1,
{
    reveal_with_fuel(decimal, 2);
}

proof fn lemma_digit_char_injective(a: nat, b: nat)
    requires
        a < 10,
        b < 10,
        digit_char(a) == digit_char(b),
    ensures
        a == b,
{
    assert(digit_char(a) as u32 == a + 48);
    assert(digit_char(b) as u32 == b + 48);
}

/// Different numbers are written differently.
proof fn lemma_decimal_injective(a: nat, b: nat)
    requires
        decimal(a) == decimal(b),
    ensures
        a == b,
    decreases a,
{
    if a >= 10 {
        lemma_decimal_nonempty((a / 10) as nat);
    }
    if b >= 10 {
        lemma_decimal_nonempty((b / 10) as nat);
    }
    if a < 10 && b < 10 {
        assert(decimal(a) == seq![digit_char(a)]);
        assert(decimal(b) == seq![digit_char(b)]);
        assert(decimal(a)[0] == decimal(b)[0]);
        assert(seq![digit_char(a)][0] == digit_char(a));
        assert(seq![digit_char(b)][0] == digit_char(b));
        lemma_digit_char_injective(a, b);
    } else if a >= 10 && b >= 10 {
        assert(decimal(a).last() == digit_char(a % 10));
        assert(decimal(b).last() == digit_char(b % 10));
        lemma_digit_char_injective(a % 10, b % 10);
        assert(decimal(a).drop_last() =~= decimal((a / 10) as nat));
        assert(decimal(b).drop_last() =~= decimal((b / 10) as nat));
        lemma_decimal_injective((a / 10) as nat, (b / 10) as nat);
    } else if a < 10 {
        assert(decimal(a).len() == 1);
        assert(decimal(b).len() == decimal((b / 10) as nat).len() + 1);
    } else {
        assert(decimal(b).len() == 1);
        assert(decimal(a).len() == decimal((a / 10) as nat).len() + 1);
    }
}

/// Different indexes from 1 on give different names.
proof fn lemma_candidates_differ(prefix: Seq<char>, extension: Seq<char>, i: int, j: int)
    requires
        1 <= i,
        1 <= j,
        candidate_name(prefix, extension, i) == candidate_name(prefix, extension, j),
    ensures
        i == j,
{
    let a = candidate_name(prefix, extension, i);
    let b = candidate_name(prefix, extension, j);
    if i >= 2 {
        lemma_decimal_nonempty(i as nat);
    }
    if j >= 2 {
        lemma_decimal_nonempty(j as nat);
    }
    if i >= 2 {
        assert(a.len() == prefix.len() + 1 + decimal(i as nat).len() + 1 + extension.len());
    } else {
        assert(a.len() == prefix.len() + 1 + extension.len());
    }
    if j >= 2 {
        assert(b.len() == prefix.len() + 1 + decimal(j as nat).len() + 1 + extension.len());
    } else {
        assert(b.len() == prefix.len() + 1 + extension.len());
    }
    if i >= 2 && j >= 2 {
        let di = decimal(i as nat);
        let dj = decimal(j as nat);
        let start: int = prefix.len() as int + 1;
        assert(a.len() == b.len());
        assert(di.len() == dj.len());
        assert(a.subrange(start, start + di.len() as int) =~= di);
        assert(b.subrange(start, start + dj.len() as int) =~= dj);
        lemma_decimal_injective(i as nat, j as nat);
    }
}

/// Among the first `names.len() + 1` names tried, one is not in use.
proof fn lemma_some_candidate_free(names: Seq<Seq<char>>, prefix: Seq<char>, extension: Seq<char>)
    ensures
        exists|k: int| 1 <= k <= names.len() + 1 && !names.contains(#[trigger] candidate_name(prefix, extension, k)),
{
    if forall|k: int| 1 <= k <= names.len() + 1 ==> names.contains(#[trigger] candidate_name(prefix, extension, k)) {
        let range = set_int_range(1, names.len() as int + 2);
        lemma_int_range(1, names.len() as int + 2);
        let f = |k: int| candidate_name(prefix, extension, k);
        assert forall|x: int, y: int| range.contains(x) && range.contains(y) && #[trigger] f(x) == #[trigger] f(y) implies x
            == y by {
            lemma_candidates_differ(prefix, extension, x, y);
        }
        let tried = range.map(f);
        lemma_map_size(range, tried, f);
        assert forall|s: Seq<char>| tried.contains(s) implies names.to_set().contains(s) by {
            let k = choose|k: int| range.contains(k) && f(k) == s;
            assert(names.contains(candidate_name(prefix, extension, k)));
        }
        names.lemma_cardinality_of_set();
        lemma_len_subset(tried, names.to_set());
        assert(false);
    }
}

/// The `index`th name tried (see [`candidate_name`]).
fn candidate_text(prefix: &str, extension: &str, index: usize) -> (r: String)
    requires
        index >= 1,
    ensures
        r@ == candidate_name(prefix@, extension@, index as int),
{
    if index == 1 {
        let r = concat3(prefix, ".", extension);
        proof {
            reveal_strlit(".");
        }
        r
    } else {
        let digits = decimal_text(index);
        let head = concat3(prefix, "_", digits.as_str());
        let r = concat3(head.as_str(), ".", extension);
        proof {
            reveal_strlit(".");
            reveal_strlit("_");
        }
        r
    }
}

/// Whether `name` is among `names`.
fn is_taken(names: &Vec<String>, name: &str) -> (r: bool)
    ensures
        r == names_view(names@).contains(name@),
{
    let mut i: usize = 0;
    while i < names.len()
        invariant
            i <= names@.len(),
            forall|k: int| 0 <= k < i ==> names@[k]@ != name@,
        decreases names@.len() - i,
    {
        if str_eq(names[i].as_str(), name) {
            assert(names_view(names@)[i as int] == name@);
            return true;
        }
        i = i + 1;
    }
    assert forall|k: int| 0 <= k < names_view(names@).len() implies names_view(names@)[k] != name@ by {
        assert(names_view(names@)[k] == names@[k]@);
    }
    false
}

/// Whether `name` is the first name tried (see [`candidate_name`]) that is
/// not among `names`.
pub open spec fn is_first_free(names: Seq<Seq<char>>, prefix: Seq<char>, extension: Seq<char>, name: Seq<char>) -> bool {
    &&& !names.contains(name)
    &&& exists|k: int|
        1 <= k <= names.len() + 1 && name == #[trigger] candidate_name(prefix, extension, k) && forall|j: int|
            1 <= j < k ==> names.contains(#[trigger] candidate_name(prefix, extension, j))
}

/// The first name tried, with this stem and extension, that is not among
/// the names in use: the stem itself, then the stem with `_2`, `_3` and so
/// on (see [`candidate_name`]).
pub fn get_unique_file_name(names: &Vec<String>, prefix: &str, extension: &str) -> (r: String)
    requires
        names@.len() < usize::MAX,
    ensures
        is_first_free(names_view(names@), prefix@, extension@, r@),
{
    proof {
        lemma_some_candidate_free(names_view(names@), prefix@, extension@);
    }
    let mut index: usize = 1;
    loop
        invariant
            1 <= index <= names@.len() + 1,
            names@.len() < usize::MAX,
            forall|j: int|
                1 <= j < index ==> names_view(names@).contains(#[trigger] candidate_name(prefix@, extension@, j)),
            exists|k: int|
                1 <= k <= names@.len() + 1 && !names_view(names@).contains(
                    #[trigger] candidate_name(prefix@, extension@, k),
                ),
        decreases names@.len() + 1 - index,
    {
        let name = candidate_text(prefix, extension, index);
        if !is_taken(names, name.as_str()) {
            return name;
        }
        if index == names.len() + 1 {
            proof {
                let k = choose|k: int|
                    1 <= k <= names@.len() + 1 && !names_view(names@).contains(
                        #[trigger] candidate_name(prefix@, extension@, k),
                    );
                if k < index {
                    assert(names_view(names@).contains(candidate_name(prefix@, extension@, k)));
                }
                assert(false);
            }
        }
        index = index + 1;
    }
}

/// `s` without the characters `c` at its end.
pub open spec fn trim_end(s: Seq<char>, c: char) -> Seq<char>
    decreases s.len(),
{
    if s.len() > 0 && s.last() == c {
        trim_end(s.drop_last(), c)
    } else {
        s
    }
}

/// The position of the last `c` in `s`, if any.
pub open spec fn last_index(s: Seq<char>, c: char) -> Option<int>
    decreases s.len(),
{
    if s.len() == 0 {
        None
    } else if s.last() == c {
        Some(s.len() - 1)
    } else {
        last_index(s.drop_last(), c)
    }
}

proof fn lemma_last_index(s: Seq<char>, c: char)
    ensures
        last_index(s, c) matches Some(i) ==> 0 <= i < s.len() && s[i] == c,
    decreases s.len(),
{
    if s.len() > 0 && s.last() != c {
        lemma_last_index(s.drop_last(), c);
    }
}

/// A position, or 0 when there is none.
pub open spec fn or_zero(i: Option<int>) -> int {
    match i {
        Some(i) => i,
        None => 0,
    }
}

/// The url's or path's last part: with the slashes, then the backslashes,
/// at its end trimmed, what follows its last slash or backslash; none when
/// that is at its start or it has none.
pub open spec fn name_segment(text: Seq<char>) -> Option<Seq<char>> {
    let t = trim_end(trim_end(text, '/'), '\\');
    let a = or_zero(last_index(t, '/'));
    let b = or_zero(last_index(t, '\\'));
    let last = if a < b { b } else { a };
    if last == 0 {
        None
    } else {
        Some(t.subrange(last + 1, t.len() as int))
    }
}

/// Whether a file name is one (`Path::file_name` has one): not empty, `.`
/// or `..`.
pub open spec fn is_file_name(name: Seq<char>) -> bool {
    name.len() > 0 && name != seq!['.'] && name != seq!['.', '.']
}

/// A file name without its extension, as `Path::file_stem` gives it: the
/// part before its last dot, or the whole name when it has no dot but at
/// its start.
pub open spec fn file_stem(name: Seq<char>) -> Seq<char> {
    match last_index(name, '.') {
        Some(i) => if i == 0 {
            name
        } else {
            name.subrange(0, i)
        },
        None => name,
    }
}

/// The stem a cached file's name is made from: that of the url's or path's
/// last part, or `temp` when it has none.
pub open spec fn stem_for(text: Seq<char>) -> Seq<char> {
    match name_segment(text) {
        Some(segment) => file_stem(segment),
        None => seq!['t', 'e', 'm', 'p'],
    }
}

/// How many of the first `n` characters are left once the characters `c` at
/// their end are trimmed.
fn trimmed_len(chars: &Vec<char>, n: usize, c: char) -> (k: usize)
    requires
        n <= chars@.len(),
    ensures
        k <= n,
        chars@.take(k as int) == trim_end(chars@.take(n as int), c),
{
    let mut k = n;
    while k > 0 && chars[k - 1] == c
        invariant
            k <= n <= chars@.len(),
            trim_end(chars@.take(n as int), c) == trim_end(chars@.take(k as int), c),
        decreases k,
    {
        assert(chars@.take(k as int).drop_last() =~= chars@.take(k - 1));
        k = k - 1;
    }
    k
}

/// The position of the last `c` among the first `n` characters.
fn last_index_in(chars: &Vec<char>, n: usize, c: char) -> (r: Option<usize>)
    requires
        n <= chars@.len(),
    ensures
        match last_index(chars@.take(n as int), c) {
            Some(i) => r matches Some(j) && j == i,
            None => r is None,
        },
{
    let mut k = n;
    while k > 0
        invariant
            k <= n <= chars@.len(),
            last_index(chars@.take(n as int), c) == last_index(chars@.take(k as int), c),
        decreases k,
    {
        assert(chars@.take(k as int).drop_last() =~= chars@.take(k - 1));
        if chars[k - 1] == c {
            return Some(k - 1);
        }
        k = k - 1;
    }
    None
}

/// The name of the file a plugin from this url or path is cached in: the
/// stem of the url's or path's last part (see [`stem_for`]) with the
/// extension, made unique among the names in use (see
/// [`get_unique_file_name`]).
pub fn get_file_name_from_url_or_path(names: &Vec<String>, text: &str, extension: &str) -> (r: String)
    requires
        names@.len() < usize::MAX,
        name_segment(text@) matches Some(segment) ==> is_file_name(segment),
    ensures
        is_first_free(names_view(names@), stem_for(text@), extension@, r@),
{
    let chars = chars_of(text);
    let n1 = trimmed_len(&chars, chars.len(), '/');
    let n2 = trimmed_len(&chars, n1, '\\');
    proof {
        assert(chars@.take(chars@.len() as int) =~= chars@);
        assert(chars@.take(n1 as int).take(n2 as int) =~= chars@.take(n2 as int));
    }
    let ghost t = chars@.take(n2 as int);
    proof {
        assert(t == trim_end(trim_end(text@, '/'), '\\'));
        lemma_last_index(t, '/');
        lemma_last_index(t, '\\');
    }
    let a = match last_index_in(&chars, n2, '/') {
        Some(i) => i,
        None => 0,
    };
    let b = match last_index_in(&chars, n2, '\\') {
        Some(i) => i,
        None => 0,
    };
    let last = if a < b {
        b
    } else {
        a
    };
    if last == 0 {
        proof {
            reveal_strlit("temp");
            assert(name_segment(text@) is None);
            assert("temp"@ =~= seq!['t', 'e', 'm', 'p']);
        }
        return get_unique_file_name(names, "temp", extension);
    }
    let segment = string_of_range(&chars, last + 1, n2);
    proof {
        assert(segment@ =~= t.subrange(last + 1, t.len() as int));
    }
    let seg_chars = chars_of(segment.as_str());
    proof {
        assert(name_segment(text@) == Some(segment@));
        assert(seg_chars@.take(seg_chars@.len() as int) =~= seg_chars@);
        lemma_last_index(seg_chars@, '.');
    }
    let stem = match last_index_in(&seg_chars, seg_chars.len(), '.') {
        Some(i) => if i == 0 {
            copy_str(segment.as_str())
        } else {
            string_of_range(&seg_chars, 0, i)
        },
        None => copy_str(segment.as_str()),
    };
    proof {
        assert(seg_chars@.take(seg_chars@.len() as int) =~= seg_chars@);
    }
    get_unique_file_name(names, stem.as_str(), extension)
}

} // verus!
