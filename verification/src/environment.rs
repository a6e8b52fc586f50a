//! What the environment contributes to a run: how many threads to use, the
//! cache directory, the small value types the environment hands out, and
//! changes to the user's search path.
use vstd::prelude::*;
use crate::text::{chars_of, copy_str, concat2, concat3, string_of, join, join_strings};
use crate::path::{spec_is_absolute, spec_path_join, path_join, split_chars, split_on, views};

verus! {

/// Whether every character is an ASCII digit.
pub open spec fn all_digits(s: Seq<char>) -> bool {
    forall|i: int| 0 <= i < s.len() ==> '0' <= #[trigger] s[i] <= '9'
}

/// The number written by a sequence of decimal digits.
pub open spec fn digits_value(s: Seq<char>) -> int
    decreases s.len(),
{
    if s.len() == 0 {
        0
    } else {
        digits_value(s.drop_last()) * 10 + (s.last() as int - '0' as int)
    }
}

/// What `str::parse::<usize>` gives: an optional `+` followed by at least one
/// decimal digit, whose value fits in a `usize`.
pub open spec fn spec_parse_usize(s: Seq<char>) -> Option<usize> {
    let body = if s.len() > 0 && s[0] == '+' {
        s.drop_first()
    } else {
        s
    };
    if body.len() > 0 && all_digits(body) && digits_value(body) <= usize::MAX {
        Some(digits_value(body) as usize)
    } else {
        None
    }
}

proof fn lemma_digits_value_nonneg(s: Seq<char>)
    requires
        all_digits(s),
    ensures
        digits_value(s) >= 0,
    decreases s.len(),
{
    if s.len() > 0 {
        lemma_digits_value_nonneg(s.drop_last());
    }
}

proof fn lemma_digits_value_prefix_bound(s: Seq<char>, i: int)
    requires
        all_digits(s),
        0 <= i <= s.len(),
    ensures
        digits_value(s.subrange(0, i)) <= digits_value(s),
    decreases s.len() - i,
{
    if i < s.len() {
        lemma_digits_value_prefix_bound(s, i + 1);
        assert(s.subrange(0, i + 1).drop_last() =~= s.subrange(0, i));
        lemma_digits_value_nonneg(s.subrange(0, i));
    } else {
        assert(s.subrange(0, i) =~= s);
    }
}

/// Parses a decimal `usize` the way `str::parse::<usize>` does.
pub fn parse_usize(text: &str) -> (r: Option<usize>)
    ensures
        r == spec_parse_usize(text@),
{
    let chars = chars_of(text);
    let mut start: usize = 0;
    if chars.len() > 0 && chars[0] == '+' {
        start = 1;
    }
    let ghost body = if text@.len() > 0 && text@[0] == '+' {
        text@.drop_first()
    } else {
        text@
    };
    assert(body =~= chars@.subrange(start as int, chars@.len() as int));
    if start >= chars.len() {
        return None;
    }
    let mut value: u128 = 0;
    let mut i: usize = start;
    #[verifier::loop_isolation(false)]
    while i < chars.len()
        invariant
            chars@ == text@,
            start <= i <= chars@.len(),
            body == chars@.subrange(start as int, chars@.len() as int),
            all_digits(body.subrange(0, i - start)),
            value == digits_value(body.subrange(0, i - start)),
            value <= usize::MAX,
        decreases chars@.len() - i,
    {
        let c = chars[i];
        if c < '0' || c > '9' {
            assert(body[i - start] == c);
            assert(!all_digits(body));
            return None;
        }
        let digit: u128 = (c as u32 - '0' as u32) as u128;
        let next: u128 = value * 10 + digit;
        assert(body.subrange(0, i + 1 - start).drop_last() =~= body.subrange(0, i - start));
        assert(all_digits(body.subrange(0, i + 1 - start)));
        if next > usize::MAX as u128 {
            proof {
                if all_digits(body) {
                    lemma_digits_value_prefix_bound(body, i + 1 - start);
                }
            }
            return None;
        }
        value = next;
        i = i + 1;
    }
    assert(body.subrange(0, chars@.len() - start) =~= body);
    Some(value as usize)
}

/// The number of threads to use: `DPRINT_MAX_THREADS` when it is a positive
/// number, capped at the available parallelism; otherwise the available
/// parallelism, or 4 when that is unknown.
pub open spec fn spec_resolve_max_threads(env_var: Option<Seq<char>>, available: Option<usize>) -> usize {
    let specified = match env_var {
        Some(s) => match spec_parse_usize(s) {
            Some(v) => if v > 0 {
                Some(v)
            } else {
                None
            },
            None => None,
        },
        None => None,
    };
    match specified {
        Some(count) => match available {
            Some(actual) => if count > actual {
                actual
            } else {
                count
            },
            None => count,
        },
        None => match available {
            Some(actual) => actual,
            None => 4,
        },
    }
}

/// Resolves the maximum number of threads from the `DPRINT_MAX_THREADS`
/// environment variable and the machine's available parallelism (which, when
/// known, is never zero).
pub fn resolve_max_threads(env_var: Option<&str>, available_parallelism: Option<usize>) -> (r: usize)
    requires
        available_parallelism matches Some(n) ==> n > 0,
    ensures
        r == spec_resolve_max_threads(
            match env_var {
                Some(s) => Some(s@),
                None => None,
            },
            available_parallelism,
        ),
        r > 0,
        available_parallelism matches Some(n) ==> r <= n,
{
    let specified = match env_var {
        Some(s) => match parse_usize(s) {
            Some(v) => if v > 0 {
                Some(v)
            } else {
                None
            },
            None => None,
        },
        None => None,
    };
    match specified {
        Some(count) => match available_parallelism {
            Some(actual) => if count > actual {
                actual
            } else {
                count
            },
            None => count,
        },
        None => match available_parallelism {
            Some(actual) => actual,
            None => 4,
        },
    }
}

/// The kind of entry at a path on the file system.
#[derive(Debug, Clone, Copy, PartialEq, Eq, Structural)]
pub enum PathKind {
    File,
    Dir,
    Symlink,
}

/// File permissions as the test environment models them.
#[derive(Debug, Clone, Copy, PartialEq, Eq, Structural, Default)]
pub struct TestFilePermissions {
    pub readonly: bool,
}

/// Resolves the maximum number of threads from the value of the
/// `DPRINT_MAX_THREADS` environment variable, as the real environment reads
/// it, and the machine's available parallelism (see
/// [`spec_resolve_max_threads`]).
pub fn resolve_max_threads_from_var(env_var: Option<String>, available_parallelism: Option<usize>) -> (r: usize)
    requires
        available_parallelism matches Some(n) ==> n > 0,
    ensures
        r == spec_resolve_max_threads(
            match env_var {
                Some(s) => Some(s@),
                None => None,
            },
            available_parallelism,
        ),
        r > 0,
        available_parallelism matches Some(n) ==> r <= n,
{
    match &env_var {
        Some(s) => resolve_max_threads(Some(s.as_str()), available_parallelism),
        None => resolve_max_threads(None, available_parallelism),
    }
}

/// Whether a character has the Unicode `White_Space` property, which is what
/// `char::is_whitespace` and `str::trim` go by.
pub open spec fn is_unicode_whitespace(c: char) -> bool {
    ||| '\u{9}' <= c <= '\u{d}'
    ||| c == ' '
    ||| c == '\u{85}'
    ||| c == '\u{a0}'
    ||| c == '\u{1680}'
    ||| '\u{2000}' <= c <= '\u{200a}'
    ||| c == '\u{2028}'
    ||| c == '\u{2029}'
    ||| c == '\u{202f}'
    ||| c == '\u{205f}'
    ||| c == '\u{3000}'
}

/// Whether a text is empty once its surrounding whitespace is trimmed, that
/// is, whether it holds nothing but whitespace.
pub open spec fn is_blank(s: Seq<char>) -> bool {
    forall|i: int| 0 <= i < s.len() ==> is_unicode_whitespace(#[trigger] s[i])
}

pub(crate) fn whitespace_char(c: char) -> (r: bool)
    ensures
        r == is_unicode_whitespace(c),
{
    ('\u{9}' <= c && c <= '\u{d}') || c == ' ' || c == '\u{85}' || c == '\u{a0}' || c == '\u{1680}' || ('\u{2000}'
        <= c && c <= '\u{200a}') || c == '\u{2028}' || c == '\u{2029}' || c == '\u{202f}' || c == '\u{205f}'
        || c == '\u{3000}'
}

/// Whether `s.trim()` would be empty.
pub fn trims_to_empty(s: &str) -> (r: bool)
    ensures
        r == is_blank(s@),
{
    let chars = chars_of(s);
    let mut i: usize = 0;
    while i < chars.len()
        invariant
            chars@ == s@,
            i <= chars@.len(),
            forall|j: int| 0 <= j < i ==> is_unicode_whitespace(#[trigger] chars@[j]),
        decreases chars@.len() - i,
    {
        if !whitespace_char(chars[i]) {
            return false;
        }
        i = i + 1;
    }
    true
}

/// Why the cache directory could not be determined.
#[derive(Debug)]
pub enum CacheDirError {
    /// `DPRINT_CACHE_DIR` holds a relative path.
    RelativePath,
    /// The system has no cache directory to fall back on.
    NoSystemCacheDir,
}

impl CacheDirError {
    /// The text that explains the error to the user.
    pub fn to_string(&self) -> (r: String)
        ensures
            r@ == match self {
                CacheDirError::RelativePath => "The DPRINT_CACHE_DIR environment variable must specify an absolute path."@,
                CacheDirError::NoSystemCacheDir => "Expected to find cache directory"@,
            },
    {
        match self {
            CacheDirError::RelativePath => copy_str(
                "The DPRINT_CACHE_DIR environment variable must specify an absolute path.",
            ),
            CacheDirError::NoSystemCacheDir => copy_str("Expected to find cache directory"),
        }
    }
}

/// The cache directory that the `DPRINT_CACHE_DIR` variable and the system's
/// cache directory give: the variable when it holds more than whitespace (and
/// then it must be absolute), else `dprint/cache` under the system's cache
/// directory.
pub open spec fn spec_cache_dir(env_value: Option<Seq<char>>, system_cache_dir: Option<Seq<char>>) -> Result<
    Seq<char>,
    bool,
> {
    match env_value {
        Some(v) if !is_blank(v) => if spec_is_absolute(v) {
            Ok(v)
        } else {
            Err(true)
        },
        _ => match system_cache_dir {
            Some(dir) => Ok(spec_path_join(spec_path_join(dir, "dprint"@), "cache"@)),
            None => Err(false),
        },
    }
}

/// Decides the cache directory from the value of `DPRINT_CACHE_DIR` and the
/// system's cache directory (see [`spec_cache_dir`]); an error is
/// `RelativePath` exactly when the variable is to blame.
pub fn resolve_cache_dir(env_value: Option<&str>, system_cache_dir: Option<&str>) -> (r: Result<String, CacheDirError>)
    ensures
        match spec_cache_dir(
            match env_value {
                Some(v) => Some(v@),
                None => None,
            },
            match system_cache_dir {
                Some(d) => Some(d@),
                None => None,
            },
        ) {
            Ok(dir) => r matches Ok(x) && x@ == dir,
            Err(relative) => r matches Err(e) && (e is RelativePath <==> relative),
        },
{
    if let Some(v) = env_value {
        if !trims_to_empty(v) {
            proof {
                reveal_strlit("/");
                assert("/"@ =~= seq!['/']);
                if v@.len() > 0 {
                    assert(v@.subrange(0, 1) =~= seq![v@[0]]);
                }
            }
            if crate::text::starts_with(v, "/") {
                assert(v@.subrange(0, 1)[0] == v@[0]);
                return Ok(copy_str(v));
            } else {
                return Err(CacheDirError::RelativePath);
            }
        }
    }
    match system_cache_dir {
        Some(dir) => {
            let base = path_join(dir, "dprint");
            Ok(path_join(base.as_str(), "cache"))
        },
        None => Err(CacheDirError::NoSystemCacheDir),
    }
}

/// The system's cache directory, as the `dirs` crate finds it.
///
/// Nothing is stated of the result: it depends on the platform and the
/// process's environment.
#[verifier::external_body]
fn system_cache_dir() -> (r: Option<String>) {
    dirs::cache_dir().map(|p| p.to_string_lossy().into_owned())
}

/// The cache directory for the value of `DPRINT_CACHE_DIR`: the variable
/// when it holds a usable path, else `dprint/cache` under whatever cache
/// directory the system reports (see [`resolve_cache_dir`]).
pub fn get_cache_dir(env_value: Option<&str>) -> (r: Result<String, CacheDirError>)
    ensures
        match env_value {
            Some(v) if !is_blank(v@) => if spec_is_absolute(v@) {
                r matches Ok(x) && x@ == v@
            } else {
                r matches Err(e) && e is RelativePath
            },
            _ => {
                &&& r matches Err(e) ==> e is NoSystemCacheDir
                &&& r matches Ok(x) ==> exists|d: Seq<char>| x@ == spec_path_join(spec_path_join(d, "dprint"@), "cache"@)
            },
        },
{
    if let Some(v) = env_value {
        if !trims_to_empty(v) {
            return resolve_cache_dir(Some(v), None);
        }
    }
    let system = system_cache_dir();
    match &system {
        Some(d) => resolve_cache_dir(env_value, Some(d.as_str())),
        None => resolve_cache_dir(env_value, None),
    }
}

/// Whether a failure to read a directory is the access denied error (code 5)
/// of Windows' "System Volume Information" directory, which is ignored.
pub fn is_system_volume_error(is_windows: bool, raw_os_error: Option<i32>, file_name: Option<&str>) -> (r: bool)
    ensures
        r == (is_windows && raw_os_error == Some(5i32) && (file_name matches Some(n) && n@
            == "System Volume Information"@)),
{
    is_windows && match raw_os_error {
        Some(code) => code == 5,
        None => false,
    } && match file_name {
        Some(n) => crate::text::str_eq(n, "System Volume Information"),
        None => false,
    }
}

/// How a progress bar is drawn.
#[derive(Debug, Clone, Copy, PartialEq, Eq, Structural)]
pub enum ProgressBarStyle {
    Download,
    Action,
}

/// The entries of a `;`-separated search path other than `dir`, in order.
pub open spec fn entries_without(entries: Seq<Seq<char>>, dir: Seq<char>) -> Seq<Seq<char>>
    decreases entries.len(),
{
    if entries.len() == 0 {
        Seq::empty()
    } else if entries.last() == dir {
        entries_without(entries.drop_last(), dir)
    } else {
        entries_without(entries.drop_last(), dir).push(entries.last())
    }
}

fn chars_equal(a: &Vec<char>, b: &Vec<char>) -> (r: bool)
    ensures
        r == (a@ == b@),
{
    if a.len() != b.len() {
        return false;
    }
    let mut i: usize = 0;
    while i < a.len()
        invariant
            a@.len() == b@.len(),
            i <= a@.len(),
            forall|j: int| 0 <= j < i ==> a@[j] == b@[j],
        decreases a@.len() - i,
    {
        if a[i] != b[i] {
            return false;
        }
        i = i + 1;
    }
    assert(a@ =~= b@);
    true
}

/// A search path with `dir` appended, after a `;` when the path is not
/// empty and does not end in one.
pub open spec fn appended_dir(path: Seq<char>, dir: Seq<char>) -> Seq<char> {
    if path.len() > 0 && path.last() != ';' {
        path + seq![';'] + dir
    } else {
        path + dir
    }
}

/// The user's search path with `dir` appended (see [`appended_dir`]);
/// nothing when one of its entries is `dir` already.
pub fn path_with_dir(path: &str, dir: &str) -> (r: Option<String>)
    ensures
        split_on(path@, ';').contains(dir@) <==> r is None,
        r matches Some(p) ==> p@ == appended_dir(path@, dir@),
{
    let chars = chars_of(path);
    let pieces = split_chars(&chars, ';');
    let dir_chars = chars_of(dir);
    let mut i: usize = 0;
    while i < pieces.len()
        invariant
            i <= pieces@.len(),
            views(pieces@) == split_on(path@, ';'),
            dir_chars@ == dir@,
            forall|j: int| 0 <= j < i ==> pieces@[j]@ != dir@,
        decreases pieces@.len() - i,
    {
        if chars_equal(&pieces[i], &dir_chars) {
            assert(split_on(path@, ';')[i as int] == dir@);
            return None;
        }
        i = i + 1;
    }
    assert(!split_on(path@, ';').contains(dir@)) by {
        if split_on(path@, ';').contains(dir@) {
            let k = choose|k: int| 0 <= k < split_on(path@, ';').len() && split_on(path@, ';')[k] == dir@;
            assert(views(pieces@)[k] == pieces@[k]@);
        }
    }
    let n = chars.len();
    if n > 0 && chars[n - 1] != ';' {
        proof {
            reveal_strlit(";");
            assert(";"@ =~= seq![';']);
        }
        Some(concat3(path, ";", dir))
    } else {
        Some(concat2(path, dir))
    }
}

/// The user's search path without its entries that are `dir`, joined by `;`
/// again; nothing when none is.
pub fn path_without_dir(path: &str, dir: &str) -> (r: Option<String>)
    ensures
        entries_without(split_on(path@, ';'), dir@).len() == split_on(path@, ';').len() <==> r is None,
        r matches Some(p) ==> p@ == join(entries_without(split_on(path@, ';'), dir@), seq![';']),
{
    let chars = chars_of(path);
    let pieces = split_chars(&chars, ';');
    let dir_chars = chars_of(dir);
    let ghost all = split_on(path@, ';');
    let mut kept: Vec<String> = Vec::new();
    let mut i: usize = 0;
    assert(all.take(0) =~= Seq::<Seq<char>>::empty());
    assert(kept.deep_view() =~= Seq::<Seq<char>>::empty());
    while i < pieces.len()
        invariant
            i <= pieces@.len(),
            views(pieces@) == all,
            all == split_on(path@, ';'),
            dir_chars@ == dir@,
            kept.deep_view() == entries_without(all.take(i as int), dir@),
            kept.deep_view().len() <= i,
        decreases pieces@.len() - i,
    {
        assert(all.take(i + 1).drop_last() =~= all.take(i as int));
        assert(all.take(i + 1).last() == pieces@[i as int]@);
        if !chars_equal(&pieces[i], &dir_chars) {
            let ghost before = kept.deep_view();
            kept.push(string_of(pieces[i].as_slice()));
            assert(kept.deep_view() =~= before.push(pieces@[i as int]@));
        }
        i = i + 1;
    }
    assert(all.take(i as int) =~= all);
    if kept.len() == pieces.len() {
        None
    } else {
        proof {
            reveal_strlit(";");
            assert(";"@ =~= seq![';']);
        }
        Some(join_strings(&kept, ";"))
    }
}


/// A directory that is added to the search path is on it afterwards, and
/// the entries that were there stay, in order (a directory with a `;` in its
/// name would be split, so it is left out).
pub proof fn law_appended_dir_is_entry(path: Seq<char>, dir: Seq<char>)
    requires
        forall|i: int| 0 <= i < dir.len() ==> dir[i] != ';',
    ensures
        split_on(appended_dir(path, dir), ';').contains(dir),
        path.len() > 0 && path.last() != ';' ==> split_on(appended_dir(path, dir), ';') == split_on(path, ';').push(
            dir,
        ),
{
    crate::canonicalized_path_buf::lemma_split_on_no_sep(dir, ';');
    if path.len() > 0 && path.last() != ';' {
        crate::canonicalized_path_buf::lemma_split_on_append(path, dir, ';');
        let s = split_on(path, ';') + seq![dir];
        assert(s =~= split_on(path, ';').push(dir));
        assert(s[s.len() - 1] == dir);
    } else if path.len() == 0 {
        assert(path + dir =~= dir);
        assert(split_on(dir, ';')[0] == dir);
    } else {
        let x = path.drop_last();
        assert(path + dir =~= x + seq![';'] + dir);
        crate::canonicalized_path_buf::lemma_split_on_append(x, dir, ';');
        let s = split_on(x, ';') + seq![dir];
        assert(s[s.len() - 1] == dir);
    }
}


proof fn lemma_split_entries_have_no_sep(s: Seq<char>, sep: char)
    ensures
        forall|k: int, i: int|
            0 <= k < split_on(s, sep).len() && 0 <= i < split_on(s, sep)[k].len() ==> #[trigger] split_on(s, sep)[k][i]
                != sep,
    decreases s.len(),
{
    if s.len() > 0 {
        lemma_split_entries_have_no_sep(s.drop_last(), sep);
        crate::path::lemma_split_on_nonempty(s.drop_last(), sep);
    }
}

proof fn lemma_entries_without(entries: Seq<Seq<char>>, dir: Seq<char>)
    ensures
        forall|k: int| 0 <= k < entries_without(entries, dir).len() ==> #[trigger] entries_without(entries, dir)[k] != dir,
        forall|k: int|
            0 <= k < entries_without(entries, dir).len() ==> exists|j: int|
                0 <= j < entries.len() && #[trigger] entries_without(entries, dir)[k] == entries[j],
    decreases entries.len(),
{
    if entries.len() > 0 {
        lemma_entries_without(entries.drop_last(), dir);
        let prev = entries_without(entries.drop_last(), dir);
        assert forall|k: int| 0 <= k < entries_without(entries, dir).len() implies exists|j: int|
            0 <= j < entries.len() && #[trigger] entries_without(entries, dir)[k] == entries[j] by {
            if k < prev.len() {
                let j = choose|j: int| 0 <= j < entries.drop_last().len() && prev[k] == entries.drop_last()[j];
                assert(entries_without(entries, dir)[k] == entries[j]);
            } else {
                assert(entries_without(entries, dir)[k] == entries[entries.len() - 1]);
            }
        }
    }
}

proof fn lemma_split_join(items: Seq<Seq<char>>, sep: char)
    requires
        items.len() > 0,
        forall|k: int, i: int| 0 <= k < items.len() && 0 <= i < items[k].len() ==> #[trigger] items[k][i] != sep,
    ensures
        split_on(join(items, seq![sep]), sep) == items,
    decreases items.len(),
{
    crate::canonicalized_path_buf::lemma_split_on_no_sep(items.last(), sep);
    if items.len() == 1 {
        assert(split_on(items[0], sep) =~= items);
    } else {
        let rest = items.drop_last();
        assert forall|k: int, i: int| 0 <= k < rest.len() && 0 <= i < rest[k].len() implies #[trigger] rest[k][i]
            != sep by {
            assert(rest[k] == items[k]);
        }
        lemma_split_join(rest, sep);
        crate::canonicalized_path_buf::lemma_split_on_append(join(rest, seq![sep]), items.last(), sep);
        assert(items =~= rest + seq![items.last()]);
    }
}

/// A directory that is taken off the search path is no longer on it: none
/// of the remaining entries is `dir` (when any entry remains).
pub proof fn law_removed_dir_is_gone(path: Seq<char>, dir: Seq<char>)
    requires
        entries_without(split_on(path, ';'), dir).len() > 0,
    ensures
        split_on(join(entries_without(split_on(path, ';'), dir), seq![';']), ';') == entries_without(
            split_on(path, ';'),
            dir,
        ),
        !split_on(join(entries_without(split_on(path, ';'), dir), seq![';']), ';').contains(dir),
{
    let entries = split_on(path, ';');
    let kept = entries_without(entries, dir);
    lemma_entries_without(entries, dir);
    lemma_split_entries_have_no_sep(path, ';');
    assert forall|k: int, i: int| 0 <= k < kept.len() && 0 <= i < kept[k].len() implies #[trigger] kept[k][i] != ';' by {
        let j = choose|j: int| 0 <= j < entries.len() && kept[k] == entries[j];
        assert(entries[j][i] != ';');
    }
    lemma_split_join(kept, ';');
}

} // verus!
