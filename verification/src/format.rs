//! How a formatting run shares its threads: how many threads to run, how the
//! groups of files are ordered and given permits, and how permits move
//! between groups when the CPU is busy or a group finishes.
use vstd::prelude::*;
use crate::text::{concat2, concat3, decimal, decimal_text};
use crate::environment::is_unicode_whitespace;
use crate::name_resolution::byte_len;

verus! {

/// Whether to format a file again until its text stops changing.
#[derive(Copy, Clone, PartialEq, Eq, Structural, Debug)]
pub struct EnsureStableFormat(pub bool);

/// The number of formatting threads: the maximum less one for this runtime
/// and one for each process plugin's runtime, but at least one.
pub open spec fn spec_thread_count(max_threads: int, process_plugin_count: int) -> int {
    let reduction = process_plugin_count + 1;
    if max_threads > reduction {
        max_threads - reduction
    } else {
        1
    }
}

/// The number of formatting threads (see [`spec_thread_count`]).
pub fn thread_count(max_threads: usize, process_plugin_count: usize) -> (r: usize)
    requires
        process_plugin_count < usize::MAX,
    ensures
        r == spec_thread_count(max_threads as int, process_plugin_count as int),
        r >= 1,
{
    let reduction = process_plugin_count + 1;
    if max_threads > reduction {
        max_threads - reduction
    } else {
        1
    }
}

/// The permits of the `i`th of `count` groups sharing `total` threads: an
/// equal share, with the remainder going one each to the first groups.
pub open spec fn permit_share(total: int, count: int, i: int) -> int {
    total / count + if i < total % count {
        1int
    } else {
        0int
    }
}

/// The sum of the first `k` entries.
pub open spec fn sum_prefix(s: Seq<usize>, k: int) -> int
    decreases k,
{
    if k <= 0 {
        0
    } else {
        sum_prefix(s, k - 1) + s[k - 1]
    }
}

/// The sum of all entries.
pub open spec fn sum(s: Seq<usize>) -> int {
    sum_prefix(s, s.len() as int)
}

/// Splits `total` threads over `count` groups (see [`permit_share`]).
pub fn distribute_permits(total: usize, count: usize) -> (r: Vec<usize>)
    ensures
        r@.len() == count,
        forall|i: int| 0 <= i < count ==> #[trigger] r@[i] == permit_share(total as int, count as int, i),
{
    let mut r: Vec<usize> = Vec::new();
    let mut i: usize = 0;
    while i < count
        invariant
            i <= count,
            r@.len() == i,
            forall|j: int| 0 <= j < i ==> #[trigger] r@[j] == permit_share(total as int, count as int, j),
        decreases count - i,
    {
        let extra: usize = if i < total % count {
            1
        } else {
            0
        };
        assert(total / count + extra <= total) by (nonlinear_arith)
            requires
                count > 0,
                extra <= 1,
                extra == 1 ==> total % count > 0,
        {
            assert(total == count * (total / count) + total % count);
            if count == 1 {
                assert(total % count == 0);
            } else {
                assert(count * (total / count) >= 2 * (total / count));
            }
        }
        r.push(total / count + extra);
        i = i + 1;
    }
    r
}

proof fn lemma_sum_shares(total: int, count: int, k: int, s: Seq<usize>)
    requires
        count > 0,
        total >= 0,
        0 <= k <= count,
        s.len() == count,
        forall|i: int| 0 <= i < count ==> #[trigger] s[i] == permit_share(total, count, i),
    ensures
        sum_prefix(s, k) == k * (total / count) + if k < total % count {
            k
        } else {
            total % count
        },
    decreases k,
{
    let q = total / count;
    let m = total % count;
    if k > 0 {
        lemma_sum_shares(total, count, k - 1, s);
        assert(s[k - 1] == permit_share(total, count, k - 1));
        assert(k * q == (k - 1) * q + q) by (nonlinear_arith);
        assert(sum_prefix(s, k) == sum_prefix(s, k - 1) + s[k - 1]);
        if k - 1 < m {
            assert(sum_prefix(s, k) == (k - 1) * q + (k - 1) + q + 1);
        } else {
            assert(sum_prefix(s, k) == (k - 1) * q + m + q);
        }
    } else {
        assert(k * q == 0) by (nonlinear_arith)
            requires
                k == 0,
        ;
    }
}

/// Law: the permits handed to the groups add up to the thread count, so no
/// thread is lost or invented when the work is split.
pub proof fn law_permits_sum_to_total(total: usize, count: usize, permits: Seq<usize>)
    requires
        count > 0,
        permits.len() == count,
        forall|i: int| 0 <= i < count ==> #[trigger] permits[i] == permit_share(total as int, count as int, i),
    ensures
        sum(permits) == total,
{
    lemma_sum_shares(total as int, count as int, count as int, permits);
    assert((total as int) % (count as int) < count);
    assert(count * (total / count) + total % count == total) by (nonlinear_arith)
        requires
            count > 0,
    {
    }
}

/// `r` lists each of `0..n` exactly once.
pub open spec fn is_index_permutation(r: Seq<usize>, n: int) -> bool {
    &&& r.len() == n
    &&& forall|i: int| 0 <= i < r.len() ==> #[trigger] r[i] < n
    &&& forall|i: int, j: int| 0 <= i < j < r.len() ==> #[trigger] r[i] != #[trigger] r[j]
}

/// The keys of the listed indexes never decrease.
pub open spec fn ordered_by_key(r: Seq<usize>, keys: Seq<i128>) -> bool {
    forall|p: int, q: int| 0 <= p < q < r.len() ==> keys[#[trigger] r[p] as int] <= keys[#[trigger] r[q] as int]
}

/// Indexes with equal keys keep their original order.
pub open spec fn stable_by_key(r: Seq<usize>, keys: Seq<i128>) -> bool {
    forall|p: int, q: int|
        0 <= p < q < r.len() && keys[#[trigger] r[p] as int] == keys[#[trigger] r[q] as int] ==> r[p] < r[q]
}

/// The indexes of `keys` in a stable order of increasing key, as
/// `sort_by_key` leaves them.
pub fn stable_order_by_key(keys: &Vec<i128>) -> (r: Vec<usize>)
    ensures
        is_index_permutation(r@, keys@.len() as int),
        ordered_by_key(r@, keys@),
        stable_by_key(r@, keys@),
{
    let n = keys.len();
    let mut r: Vec<usize> = Vec::new();
    let mut k: usize = 0;
    while k < n
        invariant
            n == keys@.len(),
            k <= n,
            is_index_permutation(r@, k as int),
            ordered_by_key(r@, keys@),
            stable_by_key(r@, keys@),
        decreases n - k,
    {
        let mut pos: usize = 0;
        while pos < r.len() && keys[r[pos]] <= keys[k]
            invariant
                n == keys@.len(),
                k < n,
                is_index_permutation(r@, k as int),
                pos <= r@.len(),
                forall|p: int| 0 <= p < pos ==> keys@[#[trigger] r@[p] as int] <= keys@[k as int],
            decreases r@.len() - pos,
        {
            pos = pos + 1;
        }
        proof {
            assert forall|p: int| pos <= p < r@.len() implies keys@[#[trigger] r@[p] as int] > keys@[k as int] by {
                if p > pos {
                    assert(keys@[r@[pos as int] as int] <= keys@[r@[p] as int]);
                }
            }
        }
        let ghost old_r = r@;
        r.insert(pos, k);
        assert(r@ =~= old_r.insert(pos as int, k));
        assert forall|i: int| 0 <= i < r@.len() implies #[trigger] r@[i] < k + 1 by {
            if i < pos {
                assert(r@[i] == old_r[i]);
            } else if i > pos {
                assert(r@[i] == old_r[i - 1]);
            }
        }
        assert forall|i: int, j: int| 0 <= i < j < r@.len() implies #[trigger] r@[i] != #[trigger] r@[j] by {
            if i < pos && j < pos {
                assert(old_r[i] != old_r[j]);
            } else if i < pos && j == pos {
                assert(old_r[i] < k);
            } else if i < pos && j > pos {
                assert(old_r[i] != old_r[j - 1]);
            } else if i == pos {
                assert(old_r[j - 1] < k);
            } else {
                assert(old_r[i - 1] != old_r[j - 1]);
            }
        }
        assert forall|p: int, q: int| 0 <= p < q < r@.len() implies keys@[#[trigger] r@[p] as int]
            <= keys@[#[trigger] r@[q] as int] by {
            if p < pos && q < pos {
                assert(keys@[old_r[p] as int] <= keys@[old_r[q] as int]);
            } else if p < pos && q == pos {
                assert(keys@[old_r[p] as int] <= keys@[k as int]);
            } else if p < pos && q > pos {
                assert(keys@[old_r[p] as int] <= keys@[old_r[q - 1] as int]);
            } else if p == pos {
                assert(keys@[old_r[q - 1] as int] > keys@[k as int]);
            } else {
                assert(keys@[old_r[p - 1] as int] <= keys@[old_r[q - 1] as int]);
            }
        }
        assert forall|p: int, q: int|
            0 <= p < q < r@.len() && keys@[#[trigger] r@[p] as int] == keys@[#[trigger] r@[q] as int] implies r@[p]
            < r@[q] by {
            if p < pos && q < pos {
                assert(old_r[p] < old_r[q]);
            } else if p < pos && q == pos {
                assert(old_r[p] < k);
            } else if p < pos && q > pos {
                assert(old_r[p] < old_r[q - 1]);
            } else if p == pos {
                assert(keys@[old_r[q - 1] as int] > keys@[k as int]);
            } else {
                assert(old_r[p - 1] < old_r[q - 1]);
            }
        }
        k = k + 1;
    }
    r
}

/// The order in which the groups of files are handed permits: those with
/// more files first, groups of equal size in their original order.
pub fn order_by_file_count(file_counts: &Vec<usize>) -> (r: Vec<usize>)
    requires
        forall|i: int| 0 <= i < file_counts@.len() ==> #[trigger] file_counts@[i] <= i32::MAX,
    ensures
        is_index_permutation(r@, file_counts@.len() as int),
        forall|p: int, q: int|
            0 <= p < q < r@.len() ==> file_counts@[#[trigger] r@[p] as int] >= file_counts@[#[trigger] r@[q] as int],
        forall|p: int, q: int|
            0 <= p < q < r@.len() && file_counts@[#[trigger] r@[p] as int] == file_counts@[#[trigger] r@[q] as int]
                ==> r@[p] < r@[q],
{
    let mut keys: Vec<i128> = Vec::new();
    let mut i: usize = 0;
    while i < file_counts.len()
        invariant
            i <= file_counts@.len(),
            keys@.len() == i,
            forall|j: int| 0 <= j < i ==> #[trigger] keys@[j] == -(file_counts@[j] as int),
        decreases file_counts@.len() - i,
    {
        keys.push(0i128 - file_counts[i] as i128);
        i = i + 1;
    }
    let r = stable_order_by_key(&keys);
    assert forall|p: int, q: int|
        0 <= p < q < r@.len() implies file_counts@[#[trigger] r@[p] as int] >= file_counts@[#[trigger] r@[q] as int] by {
        assert(keys@[r@[p] as int] <= keys@[r@[q] as int]);
    }
    assert forall|p: int, q: int|
        0 <= p < q < r@.len() && file_counts@[#[trigger] r@[p] as int] == file_counts@[#[trigger] r@[q] as int]
            implies r@[p] < r@[q] by {
        assert(keys@[r@[p] as int] == keys@[r@[q] as int]);
    }
    r
}


/// What the scheduler knows of one group's semaphore.
#[derive(Copy, Clone, PartialEq, Eq, Structural, Debug)]
pub struct SemaphoreState {
    /// The group finished or stopped, so its permits no longer count.
    pub closed: bool,
    /// The number of files of the group that may be formatted at once.
    pub max_permits: usize,
    /// The number of files of the group being formatted now.
    pub acquired_permits: usize,
}

/// The semaphore with `n` more permits (`n` may be negative).
pub open spec fn with_permits_added(s: SemaphoreState, n: int) -> SemaphoreState {
    SemaphoreState { max_permits: (s.max_permits + n) as usize, ..s }
}

/// A semaphore whose permits can be taken away: open and with permits.
pub open spec fn throttle_eligible(s: SemaphoreState) -> bool {
    !s.closed && s.max_permits > 0
}

/// An eligible semaphore that still runs more work than it now allows: an
/// earlier reduction has not taken effect yet.
pub open spec fn overloaded(s: SemaphoreState) -> bool {
    throttle_eligible(s) && s.acquired_permits > s.max_permits
}

/// The permits of an eligible semaphore, 0 for any other.
pub open spec fn eligible_permits(s: SemaphoreState) -> int {
    if throttle_eligible(s) {
        s.max_permits as int
    } else {
        0
    }
}

/// The permits of the eligible semaphores among the first `k`.
pub open spec fn eligible_total_prefix(s: Seq<SemaphoreState>, k: int) -> int
    decreases k,
{
    if k <= 0 {
        0
    } else {
        eligible_total_prefix(s, k - 1) + eligible_permits(s[k - 1])
    }
}

/// The permits of all eligible semaphores.
pub open spec fn eligible_total(s: Seq<SemaphoreState>) -> int {
    eligible_total_prefix(s, s.len() as int)
}

/// The semaphore to take a permit from: the first eligible one with the most
/// permits.
pub open spec fn is_throttle_target(s: Seq<SemaphoreState>, i: int) -> bool {
    &&& 0 <= i < s.len()
    &&& throttle_eligible(s[i])
    &&& forall|j: int| 0 <= j < s.len() && throttle_eligible(#[trigger] s[j]) ==> s[j].max_permits <= s[i].max_permits
    &&& forall|j: int| 0 <= j < i && throttle_eligible(#[trigger] s[j]) ==> s[j].max_permits < s[i].max_permits
}

/// Nothing may be throttled: a reduction is still pending, or at most one
/// permit is left running.
pub open spec fn throttle_blocked(s: Seq<SemaphoreState>) -> bool {
    (exists|i: int| 0 <= i < s.len() && overloaded(#[trigger] s[i])) || eligible_total(s) <= 1
}

proof fn lemma_eligible_total_nonneg(s: Seq<SemaphoreState>, k: int)
    ensures
        eligible_total_prefix(s, k) >= 0,
    decreases k,
{
    if k > 0 {
        lemma_eligible_total_nonneg(s, k - 1);
    }
}

proof fn lemma_eligible_total_mono(s: Seq<SemaphoreState>, a: int, b: int)
    requires
        0 <= a <= b,
    ensures
        eligible_total_prefix(s, a) <= eligible_total_prefix(s, b),
    decreases b,
{
    if b > a {
        lemma_eligible_total_mono(s, a, b - 1);
    }
}

/// Chooses the semaphore to take a permit from when the CPU is busy, or
/// `None` when nothing may be throttled (see [`throttle_blocked`]).
pub fn throttle_target(states: &Vec<SemaphoreState>) -> (r: Option<usize>)
    requires
        eligible_total(states@) <= usize::MAX,
    ensures
        r is None <==> throttle_blocked(states@),
        r matches Some(i) ==> is_throttle_target(states@, i as int),
{
    let n = states.len();
    let mut best: Option<usize> = None;
    let mut total: usize = 0;
    let mut i: usize = 0;
    while i < n
        invariant
            n == states@.len(),
            i <= n,
            eligible_total(states@) <= usize::MAX,
            total == eligible_total_prefix(states@, i as int),
            forall|j: int| 0 <= j < i ==> !overloaded(#[trigger] states@[j]),
            best is None ==> total == 0,
            match best {
                None => forall|j: int| 0 <= j < i ==> !throttle_eligible(#[trigger] states@[j]),
                Some(b) => b < i && throttle_eligible(states@[b as int]) && (forall|j: int|
                    0 <= j < i && throttle_eligible(#[trigger] states@[j]) ==> states@[j].max_permits
                        <= states@[b as int].max_permits) && (forall|j: int|
                    0 <= j < b && throttle_eligible(#[trigger] states@[j]) ==> states@[j].max_permits
                        < states@[b as int].max_permits),
            },
        decreases n - i,
    {
        let s = states[i];
        if s.closed || s.max_permits == 0 {
            i = i + 1;
            continue;
        }
        if s.acquired_permits > s.max_permits {
            assert(overloaded(states@[i as int]));
            return None;
        }
        proof {
            lemma_eligible_total_mono(states@, i + 1, n as int);
        }
        total = total + s.max_permits;
        match best {
            Some(b) => {
                if states[b].max_permits < s.max_permits {
                    best = Some(i);
                }
            },
            None => {
                best = Some(i);
            },
        }
        i = i + 1;
    }
    if total <= 1 {
        return None;
    }
    assert(!throttle_blocked(states@));
    best
}

proof fn lemma_eligible_total_update(s: Seq<SemaphoreState>, i: int, x: SemaphoreState, k: int)
    requires
        0 <= i < s.len(),
        0 <= k <= s.len(),
    ensures
        eligible_total_prefix(s.update(i, x), k) == eligible_total_prefix(s, k) + if i < k {
            eligible_permits(x) - eligible_permits(s[i])
        } else {
            0
        },
    decreases k,
{
    if k > 0 {
        lemma_eligible_total_update(s, i, x, k - 1);
    }
}

/// Takes a permit from the semaphore chosen by [`throttle_target`], when
/// there is one, and says whether it did.
pub fn throttle_cpu(states: &mut Vec<SemaphoreState>) -> (r: bool)
    requires
        eligible_total(old(states)@) <= usize::MAX,
    ensures
        r == !throttle_blocked(old(states)@),
        r ==> exists|i: int|
            is_throttle_target(old(states)@, i) && final(states)@ == old(states)@.update(
                i,
                with_permits_added(old(states)@[i], -1),
            ),
        !r ==> final(states)@ == old(states)@,
{
    match throttle_target(states) {
        Some(i) => {
            let s = states[i];
            states.set(i, SemaphoreState { max_permits: s.max_permits - 1, ..s });
            true
        },
        None => false,
    }
}

/// Law: a throttle takes away exactly one permit, and never the last one:
/// at least one permit keeps running.
pub proof fn law_throttle_keeps_one_permit(before: Seq<SemaphoreState>, i: int)
    requires
        !throttle_blocked(before),
        is_throttle_target(before, i),
    ensures
        ({
            let after = before.update(i, with_permits_added(before[i], -1));
            &&& eligible_total(after) == eligible_total(before) - 1
            &&& eligible_total(after) >= 1
        }),
{
    let x = with_permits_added(before[i], -1);
    lemma_eligible_total_update(before, i, x, before.len() as int);
}

/// The indexes of the open semaphores among the first `k`, in order.
pub open spec fn open_prefix(s: Seq<SemaphoreState>, k: int) -> Seq<usize>
    decreases k,
{
    if k <= 0 {
        Seq::empty()
    } else if !s[k - 1].closed {
        open_prefix(s, k - 1).push((k - 1) as usize)
    } else {
        open_prefix(s, k - 1)
    }
}

/// The indexes of the open semaphores, in order.
pub open spec fn open_indexes(s: Seq<SemaphoreState>) -> Seq<usize> {
    open_prefix(s, s.len() as int)
}

/// The permit counts of the listed semaphores, as sort keys.
pub open spec fn permit_keys(s: Seq<SemaphoreState>, idx: Seq<usize>) -> Seq<i128> {
    idx.map_values(|j: usize| s[j as int].max_permits as i128)
}

proof fn lemma_open_prefix(s: Seq<SemaphoreState>, k: int)
    requires
        0 <= k <= s.len(),
        s.len() <= usize::MAX,
    ensures
        forall|p: int| 0 <= p < open_prefix(s, k).len() ==> #[trigger] open_prefix(s, k)[p] < k && !s[open_prefix(s, k)[p] as int].closed,
        forall|p: int, q: int| 0 <= p < q < open_prefix(s, k).len() ==> #[trigger] open_prefix(s, k)[p] < #[trigger] open_prefix(s, k)[q],
        forall|j: int| 0 <= j < k && !s[j].closed ==> #[trigger] open_prefix(s, k).contains(j as usize),
    decreases k,
{
    if k > 0 {
        lemma_open_prefix(s, k - 1);
        let prev = open_prefix(s, k - 1);
        if !s[k - 1].closed {
            assert forall|j: int| 0 <= j < k && !s[j].closed implies #[trigger] open_prefix(s, k).contains(j as usize) by {
                if j < k - 1 {
                    assert(prev.contains(j as usize));
                    let p = choose|p: int| 0 <= p < prev.len() && prev[p] == j as usize;
                    assert(open_prefix(s, k)[p] == j as usize);
                } else {
                    assert(open_prefix(s, k)[prev.len() as int] == j as usize);
                }
            }
        }
    }
}

/// `after` is `before` with `amount` permits handed to the open semaphores,
/// which take turns in the stable order `order` of increasing permits.
pub open spec fn permits_added_in_order(
    before: Seq<SemaphoreState>,
    after: Seq<SemaphoreState>,
    amount: int,
    order: Seq<usize>,
) -> bool {
    let open = open_indexes(before);
    &&& is_index_permutation(order, open.len() as int)
    &&& ordered_by_key(order, permit_keys(before, open))
    &&& stable_by_key(order, permit_keys(before, open))
    &&& forall|p: int|
        0 <= p < open.len() ==> #[trigger] after[open[order[p] as int] as int] == with_permits_added(
            before[open[order[p] as int] as int],
            permit_share(amount, open.len() as int, p),
        )
}

/// Hands `amount` permits to the open semaphores: they take turns in
/// increasing order of their permits (equal ones in their original order),
/// each getting an equal share and the first ones one more of the remainder.
pub fn add_permits(states: &mut Vec<SemaphoreState>, amount: usize)
    requires
        forall|i: int|
            0 <= i < old(states)@.len() && !old(states)@[i].closed ==> #[trigger] old(states)@[i].max_permits
                + amount <= usize::MAX,
    ensures
        final(states)@.len() == old(states)@.len(),
        forall|i: int|
            0 <= i < old(states)@.len() && old(states)@[i].closed ==> #[trigger] final(states)@[i] == old(states)@[i],
        exists|order: Seq<usize>| #[trigger] permits_added_in_order(old(states)@, final(states)@, amount as int, order),
{
    let ghost old_states = states@;
    let mut open: Vec<usize> = Vec::new();
    let mut i: usize = 0;
    while i < states.len()
        invariant
            states@ == old_states,
            i <= states@.len(),
            open@ == open_prefix(old_states, i as int),
        decreases states@.len() - i,
    {
        if !states[i].closed {
            open.push(i);
        }
        i = i + 1;
    }
    proof {
        lemma_open_prefix(old_states, old_states.len() as int);
    }
    let ghost open_v = open@;
    let mut keys: Vec<i128> = Vec::new();
    let mut j: usize = 0;
    while j < open.len()
        invariant
            states@ == old_states,
            open@ == open_v,
            open_v == open_indexes(old_states),
            forall|p: int| 0 <= p < open_v.len() ==> #[trigger] open_v[p] < old_states.len(),
            j <= open@.len(),
            keys@.len() == j,
            forall|p: int| 0 <= p < j ==> #[trigger] keys@[p] == old_states[open_v[p] as int].max_permits as i128,
        decreases open@.len() - j,
    {
        keys.push(states[open[j]].max_permits as i128);
        j = j + 1;
    }
    assert(keys@ =~= permit_keys(old_states, open_v));
    let order = stable_order_by_key(&keys);
    let len = open.len();
    let mut p: usize = 0;
    while p < len
        invariant
            len == open_v.len(),
            open@ == open_v,
            open_v == open_indexes(old_states),
            is_index_permutation(order@, len as int),
            forall|a: int| 0 <= a < open_v.len() ==> #[trigger] open_v[a] < old_states.len() && !old_states[open_v[a] as int].closed,
            forall|a: int, b: int| 0 <= a < b < open_v.len() ==> #[trigger] open_v[a] < #[trigger] open_v[b],
            forall|a: int|
                0 <= a < old_states.len() && !old_states[a].closed ==> #[trigger] old_states[a].max_permits + amount
                    <= usize::MAX,
            p <= len,
            states@.len() == old_states.len(),
            forall|q: int|
                0 <= q < p ==> #[trigger] states@[open_v[order@[q] as int] as int] == with_permits_added(old_states[open_v[order@[q] as int] as int], permit_share(amount as int, len as int, q)),
            forall|x: int|
                0 <= x < old_states.len() && (forall|q: int| 0 <= q < p ==> open_v[#[trigger] order@[q] as int] != x)
                    ==> #[trigger] states@[x] == old_states[x],
        decreases len - p,
    {
        let idx = open[order[p]];
        let extra: usize = if p < amount % len {
            1
        } else {
            0
        };
        assert(amount / len + extra <= amount) by (nonlinear_arith)
            requires
                len > 0,
                extra <= 1,
                extra == 1 ==> amount % len > 0,
        {
            assert(amount == len * (amount / len) + amount % len);
            if len == 1 {
                assert(amount % len == 0);
            } else {
                assert(len * (amount / len) >= 2 * (amount / len));
            }
        }
        let share = amount / len + extra;
        assert(states@[idx as int] == old_states[idx as int]) by {
            assert forall|q: int| 0 <= q < p implies open_v[#[trigger] order@[q] as int] != idx as int by {
                assert(order@[q] != order@[p as int]);
                if order@[q] < order@[p as int] {
                    assert(open_v[order@[q] as int] < open_v[order@[p as int] as int]);
                } else {
                    assert(open_v[order@[p as int] as int] < open_v[order@[q] as int]);
                }
            }
        }
        let s = states[idx];
        if share > 0 {
            states.set(idx, SemaphoreState { max_permits: s.max_permits + share, ..s });
        }
        assert forall|q: int| 0 <= q < p + 1 implies #[trigger] states@[open_v[order@[q] as int] as int] == with_permits_added(old_states[open_v[order@[q] as int] as int], permit_share(amount as int, len as int, q)) by {
            if q < p {
                assert(order@[q] != order@[p as int]);
                if order@[q] < order@[p as int] {
                    assert(open_v[order@[q] as int] < open_v[order@[p as int] as int]);
                } else {
                    assert(open_v[order@[p as int] as int] < open_v[order@[q] as int]);
                }
            }
        }
        p = p + 1;
    }
    assert forall|x: int| 0 <= x < old_states.len() && old_states[x].closed implies #[trigger] states@[x] == old_states[x] by {
        assert forall|q: int| 0 <= q < len implies open_v[#[trigger] order@[q] as int] != x by {}
    }
    assert(permits_added_in_order(old_states, states@, amount as int, order@));
}


/// How a run shares its threads among its groups of files.
#[derive(Debug)]
pub struct WorkPlan {
    /// The number of formatting threads.
    pub number_threads: usize,
    /// The groups, as indexes into the original list, in the order their
    /// tasks are started: those with more files first.
    pub order: Vec<usize>,
    /// The permits of each group, by its position in `order`.
    pub permits: Vec<usize>,
}

/// Plans a run: the thread count from the machine's maximum and the number of
/// process plugins, the groups ordered by decreasing number of files, and the
/// threads split over them with the larger groups getting any remainder.
pub fn plan_work(max_threads: usize, process_plugin_count: usize, file_counts: &Vec<usize>) -> (r: WorkPlan)
    requires
        process_plugin_count < usize::MAX,
        forall|i: int| 0 <= i < file_counts@.len() ==> #[trigger] file_counts@[i] <= i32::MAX,
    ensures
        r.number_threads == spec_thread_count(max_threads as int, process_plugin_count as int),
        is_index_permutation(r.order@, file_counts@.len() as int),
        forall|p: int, q: int|
            0 <= p < q < r.order@.len() ==> file_counts@[#[trigger] r.order@[p] as int]
                >= file_counts@[#[trigger] r.order@[q] as int],
        forall|p: int, q: int|
            0 <= p < q < r.order@.len() && file_counts@[#[trigger] r.order@[p] as int]
                == file_counts@[#[trigger] r.order@[q] as int] ==> r.order@[p] < r.order@[q],
        r.permits@.len() == file_counts@.len(),
        forall|i: int|
            0 <= i < file_counts@.len() ==> #[trigger] r.permits@[i] == permit_share(
                r.number_threads as int,
                file_counts@.len() as int,
                i,
            ),
        file_counts@.len() > 0 ==> sum(r.permits@) == r.number_threads,
{
    let number_threads = thread_count(max_threads, process_plugin_count);
    let order = order_by_file_count(file_counts);
    let permits = distribute_permits(number_threads, file_counts.len());
    proof {
        if file_counts@.len() > 0 {
            law_permits_sum_to_total(number_threads, file_counts.len(), permits@);
        }
    }
    WorkPlan { number_threads, order, permits }
}

/// What the CPU watcher did after a reading.
#[derive(Debug, Clone, Copy, PartialEq, Eq, Structural)]
pub enum ThrottleAction {
    /// A permit was taken away: the machine was busy.
    Reduced,
    /// A permit was given back: the machine calmed down after a reduction.
    Increased,
    Unchanged,
}

/// The CPU watcher of a run: above the decrease bound it takes a permit
/// away; below the increase bound twice in a row, after a reduction, it
/// gives one back.
#[derive(Debug)]
pub struct CpuThrottle {
    pub decrease_bound: u8,
    pub increase_bound: u8,
    /// Reductions not yet given back.
    pub throttled_times: usize,
    pub last_cpu_usage: u8,
}

/// Whether every open semaphore can take `n` more permits.
pub open spec fn room_for_permits(states: Seq<SemaphoreState>, n: int) -> bool {
    forall|i: int| 0 <= i < states.len() && !states[i].closed ==> #[trigger] states[i].max_permits + n <= usize::MAX
}

impl CpuThrottle {
    /// A watcher with the bounds for the run's thread count.
    pub fn new(decrease_bound: u8, increase_bound: u8) -> (r: CpuThrottle)
        ensures
            r.decrease_bound == decrease_bound,
            r.increase_bound == increase_bound,
            r.throttled_times == 0,
            r.last_cpu_usage == 0,
    {
        CpuThrottle { decrease_bound, increase_bound, throttled_times: 0, last_cpu_usage: 0 }
    }

    /// Takes in a CPU reading (in percent) and adjusts the semaphores.
    pub fn on_cpu_usage(&mut self, cpu_usage: u8, states: &mut Vec<SemaphoreState>) -> (r: ThrottleAction)
        requires
            eligible_total(old(states)@) <= usize::MAX,
            room_for_permits(old(states)@, 1),
            old(self).throttled_times < usize::MAX,
        ensures
            final(self).decrease_bound == old(self).decrease_bound,
            final(self).increase_bound == old(self).increase_bound,
            final(self).last_cpu_usage == cpu_usage,
            cpu_usage > old(self).decrease_bound ==> if !throttle_blocked(old(states)@) {
                r == ThrottleAction::Reduced && final(self).throttled_times == old(self).throttled_times + 1
                    && exists|i: int|
                    is_throttle_target(old(states)@, i) && final(states)@ == old(states)@.update(
                        i,
                        with_permits_added(old(states)@[i], -1),
                    )
            } else {
                r == ThrottleAction::Unchanged && final(self).throttled_times == old(self).throttled_times
                    && final(states)@ == old(states)@
            },
            cpu_usage <= old(self).decrease_bound ==> if old(self).throttled_times > 0 && old(self).last_cpu_usage
                < old(self).increase_bound && cpu_usage < old(self).increase_bound {
                r == ThrottleAction::Increased && final(self).throttled_times == old(self).throttled_times - 1
                    && final(states)@.len() == old(states)@.len() && exists|order: Seq<usize>|
                    #[trigger] permits_added_in_order(old(states)@, final(states)@, 1, order)
            } else {
                r == ThrottleAction::Unchanged && final(self).throttled_times == old(self).throttled_times
                    && final(states)@ == old(states)@
            },
    {
        let action = if cpu_usage > self.decrease_bound {
            if throttle_cpu(states) {
                self.throttled_times = self.throttled_times + 1;
                ThrottleAction::Reduced
            } else {
                ThrottleAction::Unchanged
            }
        } else if self.throttled_times > 0 && self.last_cpu_usage < self.increase_bound && cpu_usage
            < self.increase_bound {
            add_permits(states, 1);
            self.throttled_times = self.throttled_times - 1;
            ThrottleAction::Increased
        } else {
            ThrottleAction::Unchanged
        };
        self.last_cpu_usage = cpu_usage;
        action
    }
}

/// The most passes made to get a stable format.
pub const MAX_STABILIZE_PASSES: usize = 5;

/// What to do after another formatting pass of text being stabilized.
#[derive(Debug)]
pub enum StabilizeOutcome {
    /// The pass changed nothing: the text is stable.
    Stable,
    /// The pass changed the text: format it again.
    Again,
    /// The pass failed although the first one succeeded.
    PassFailed,
    /// The text kept changing for [`MAX_STABILIZE_PASSES`] passes.
    NotStable,
}

/// Formatting again, pass after pass, until the text stops changing.
#[derive(Debug)]
pub struct StabilizeState {
    /// The text of the last pass.
    pub formatted: Vec<u8>,
    /// The passes that changed the text.
    pub count: usize,
}

impl StabilizeState {
    /// Starts from the text of the first formatting.
    pub fn new(formatted: Vec<u8>) -> (r: StabilizeState)
        ensures
            r.formatted@ == formatted@,
            r.count == 0,
    {
        StabilizeState { formatted, count: 0 }
    }

    /// Takes in the result of formatting [`StabilizeState::formatted`] once
    /// more (`None` when that pass failed).
    pub fn on_pass(&mut self, next: Option<Vec<u8>>) -> (r: StabilizeOutcome)
        requires
            old(self).count < MAX_STABILIZE_PASSES,
        ensures
            match next {
                None => r is PassFailed && final(self).formatted@ == old(self).formatted@ && final(self).count
                    == old(self).count,
                Some(t) => if t@ == old(self).formatted@ {
                    r is Stable && final(self).formatted@ == old(self).formatted@ && final(self).count == old(self).count
                } else {
                    final(self).formatted@ == t@ && final(self).count == old(self).count + 1 && if final(self).count
                        == MAX_STABILIZE_PASSES {
                        r is NotStable
                    } else {
                        r is Again
                    }
                },
            },
    {
        match next {
            None => StabilizeOutcome::PassFailed,
            Some(t) => {
                if bytes_equal(&t, &self.formatted) {
                    StabilizeOutcome::Stable
                } else {
                    self.formatted = t;
                    self.count = self.count + 1;
                    if self.count == MAX_STABILIZE_PASSES {
                        StabilizeOutcome::NotStable
                    } else {
                        StabilizeOutcome::Again
                    }
                }
            },
        }
    }
}

/// Whether two byte strings are equal.
pub fn bytes_equal(a: &Vec<u8>, b: &Vec<u8>) -> (r: bool)
    ensures
        r == (a@ == b@),
{
    if a.len() != b.len() {
        return false;
    }
    let mut i: usize = 0;
    while i < a.len()
        invariant
            a@.len() == b@.len(),
            i <= a@.len(),
            forall|j: int| 0 <= j < i ==> a@[j] == b@[j],
        decreases a@.len() - i,
    {
        if a[i] != b[i] {
            return false;
        }
        i = i + 1;
    }
    assert(a@ =~= b@);
    true
}

/// Whether text is to be formatted again until stable: when asked for, and
/// the first formatting changed it.
pub fn should_stabilize(ensure_stable_format: EnsureStableFormat, file_text: &Vec<u8>, formatted: &Vec<u8>) -> (r: bool)
    ensures
        r == (ensure_stable_format.0 && formatted@ != file_text@),
{
    ensure_stable_format.0 && !bytes_equal(formatted, file_text)
}

/// What `String::from_utf8_lossy` makes of bytes: their text, with each
/// invalid sequence replaced. It depends on the bytes alone.
pub uninterp spec fn lossy_text(bytes: Seq<u8>) -> Seq<char>;

/// `String::from_utf8_lossy`: the text of the bytes. The result is named
/// [`lossy_text`]; nothing more is stated of it.
#[verifier::external_body]
fn utf8_lossy(bytes: &[u8]) -> (r: String)
    ensures
        r@ == lossy_text(bytes@),
{
    String::from_utf8_lossy(bytes).into_owned()
}

/// The text without its leading whitespace.
pub open spec fn trim_start(s: Seq<char>) -> Seq<char>
    decreases s.len(),
{
    if s.len() > 0 && is_unicode_whitespace(s[0]) {
        trim_start(s.drop_first())
    } else {
        s
    }
}

/// The text without its trailing whitespace.
pub open spec fn trim_end(s: Seq<char>) -> Seq<char>
    decreases s.len(),
{
    if s.len() > 0 && is_unicode_whitespace(s.last()) {
        trim_end(s.drop_last())
    } else {
        s
    }
}

/// The text without its surrounding whitespace, as `str::trim` gives it.
pub open spec fn trimmed(s: Seq<char>) -> Seq<char> {
    trim_end(trim_start(s))
}

/// The fewest characters of a text that a plugin is trusted to format to
/// nothing.
pub const MIN_CHARS_TO_EMPTY: usize = 300;

/// Whether a formatting pass made a long text empty, which is taken for a
/// bug of the plugin: the formatted bytes are fewer than 100 while the
/// original ones are more than [`MIN_CHARS_TO_EMPTY`], the original text
/// without its surrounding whitespace still takes more than that many bytes,
/// and the formatted text is only whitespace.
pub open spec fn spec_formatted_to_empty(original: Seq<u8>, formatted: Seq<u8>) -> bool {
    &&& formatted.len() < 100
    &&& original.len() > MIN_CHARS_TO_EMPTY
    &&& byte_len(trimmed(lossy_text(original))) > MIN_CHARS_TO_EMPTY
    &&& trimmed(lossy_text(formatted)).len() == 0
}

fn trim_bounds(chars: &Vec<char>) -> (r: (usize, usize))
    ensures
        r.0 <= r.1 <= chars@.len(),
        trimmed(chars@) == chars@.subrange(r.0 as int, r.1 as int),
{
    let mut start: usize = 0;
    assert(chars@.skip(0) =~= chars@);
    while start < chars.len() && crate::environment::whitespace_char(chars[start])
        invariant
            start <= chars@.len(),
            trim_start(chars@) == trim_start(chars@.skip(start as int)),
        decreases chars@.len() - start,
    {
        assert(chars@.skip(start as int).drop_first() =~= chars@.skip(start + 1));
        start = start + 1;
    }
    let ghost ts = chars@.skip(start as int);
    assert(trim_start(chars@) == ts);
    let mut end: usize = chars.len();
    assert(ts =~= chars@.subrange(start as int, end as int));
    while end > start && crate::environment::whitespace_char(chars[end - 1])
        invariant
            start <= end <= chars@.len(),
            trim_end(ts) == trim_end(chars@.subrange(start as int, end as int)),
        decreases end,
    {
        assert(chars@.subrange(start as int, end as int).drop_last() =~= chars@.subrange(start as int, end - 1));
        end = end - 1;
    }
    (start, end)
}

fn utf8_len_of(chars: &Vec<char>, from: usize, to: usize) -> (r: u128)
    requires
        from <= to <= chars@.len(),
    ensures
        r == byte_len(chars@.subrange(from as int, to as int)),
{
    let mut total: u128 = 0;
    let mut i: usize = from;
    assert(chars@.subrange(from as int, from as int) =~= Seq::<char>::empty());
    while i < to
        invariant
            from <= i <= to <= chars@.len(),
            total == byte_len(chars@.subrange(from as int, i as int)),
            total <= 4 * (i - from),
        decreases to - i,
    {
        assert(chars@.subrange(from as int, i + 1).drop_last() =~= chars@.subrange(from as int, i as int));
        let c = chars[i] as u32;
        let w: u128 = if c < 0x80 {
            1
        } else if c < 0x800 {
            2
        } else if c < 0x10000 {
            3
        } else {
            4
        };
        total = total + w;
        i = i + 1;
    }
    total
}

/// Whether a formatting pass made a long text empty (see
/// [`spec_formatted_to_empty`]).
pub fn formatted_to_empty(original: &Vec<u8>, formatted: &Vec<u8>) -> (r: bool)
    ensures
        r == spec_formatted_to_empty(original@, formatted@),
{
    if !(formatted.len() < 100 && original.len() > MIN_CHARS_TO_EMPTY) {
        return false;
    }
    let original_text = utf8_lossy(original.as_slice());
    let oc = crate::text::chars_of(original_text.as_str());
    let (os, oe) = trim_bounds(&oc);
    let original_len = utf8_len_of(&oc, os, oe);
    let new_text = utf8_lossy(formatted.as_slice());
    let nc = crate::text::chars_of(new_text.as_str());
    let (ns, ne) = trim_bounds(&nc);
    original_len > 300 && ns == ne
}

/// The message of a run that had errors.
pub open spec fn error_count_message(count: nat) -> Seq<char> {
    "Had "@ + decimal(count) + (if count == 1 {
        " error formatting."@
    } else {
        " errors formatting."@
    })
}

/// The message of a run that had errors (see [`error_count_message`]).
pub fn error_count_text(count: usize) -> (r: String)
    ensures
        r@ == error_count_message(count as nat),
{
    let number = decimal_text(count);
    if count == 1 {
        concat3("Had ", number.as_str(), " error formatting.")
    } else {
        concat3("Had ", number.as_str(), " errors formatting.")
    }
}

/// How a run ends, from what failed: each plugin that could not be created,
/// each diagnostic of a plugin's configuration, and each file whose read,
/// formatting or handling failed counts as one error. The run succeeds
/// exactly when there was none; otherwise its error says how many.
pub fn run_outcome(creation_failures: usize, diagnostics: usize, file_failures: usize) -> (r: Result<(), String>)
    requires
        creation_failures + diagnostics + file_failures <= usize::MAX,
    ensures
        r is Ok <==> creation_failures + diagnostics + file_failures == 0,
        r matches Err(m) ==> m@ == error_count_message((creation_failures + diagnostics + file_failures) as nat),
{
    let count = creation_failures + diagnostics + file_failures;
    if count == 0 {
        Ok(())
    } else {
        Err(error_count_text(count))
    }
}

/// What is logged when a plugin could not be created; it counts as an error
/// of the run.
pub fn plugin_creation_failure_text(plugin_name: &str, message: &str) -> (r: String)
    ensures
        r@ == "Error creating plugin "@ + plugin_name@ + ". Message: "@ + message@,
{
    concat2(concat3("Error creating plugin ", plugin_name, ". Message: ").as_str(), message)
}

/// What is logged when a file failed, and whether formatting stops: a
/// critical failure stops the run, any other only this file. Either counts as
/// an error of the run.
pub fn file_failure(file_path: &str, message: &str, critical: bool) -> (r: (String, bool))
    ensures
        r.0@ == if critical {
            "Critical error formatting "@ + file_path@ + ". Cannot continue. Message: "@ + message@
        } else {
            "Error formatting "@ + file_path@ + ". Message: "@ + message@
        },
        r.1 == critical,
{
    if critical {
        (concat2(concat3("Critical error formatting ", file_path, ". Cannot continue. Message: ").as_str(), message), true)
    } else {
        (concat2(concat3("Error formatting ", file_path, ". Message: ").as_str(), message), false)
    }
}

/// The message of text that kept changing pass after pass.
pub fn not_stable_text(count: usize) -> (r: String)
    ensures
        r@ == "Formatting not stable. Bailed after "@ + decimal(count as nat)
            + " tries. This indicates a bug in the plugin where it formats the file differently each time."@,
{
    let number = decimal_text(count);
    concat3(
        "Formatting not stable. Bailed after ",
        number.as_str(),
        " tries. This indicates a bug in the plugin where it formats the file differently each time.",
    )
}

/// The message of a plugin that formatted a long text to nothing.
pub fn formatted_to_empty_text() -> (r: String)
    ensures
        r@ == "The original file text was greater than "@ + decimal(MIN_CHARS_TO_EMPTY as nat)
            + " characters, but the formatted text was empty. Most likely this is a bug in the plugin and the dprint CLI has prevented the plugin from formatting the file to an empty file. Please report this scenario."@,
{
    let number = decimal_text(MIN_CHARS_TO_EMPTY);
    concat3(
        "The original file text was greater than ",
        number.as_str(),
        " characters, but the formatted text was empty. Most likely this is a bug in the plugin and the dprint CLI has prevented the plugin from formatting the file to an empty file. Please report this scenario.",
    )
}

} // verus!
