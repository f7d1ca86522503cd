//! How fast a hand clicked, from the times of its clicks.
use vstd::prelude::*;

verus! {

/// Whether exactly `k` clicks, starting with click `i` and one after the other, come within
/// `window` of it.
pub open spec fn run(clicks: Seq<i64>, i: int, window: int, k: int) -> bool {
    &&& 0 <= i < clicks.len()
    &&& 0 <= k <= clicks.len() - i
    &&& forall|j: int| i <= j < i + k ==> #[trigger] clicks[j] - clicks[i] <= window
    &&& i + k < clicks.len() ==> clicks[i + k] - clicks[i] > window
}

fn run_at(clicks: &Vec<i64>, i: usize, window: i64) -> (r: usize)
    requires
        i < clicks.len(),
    ensures
        run(clicks@, i as int, window as int, r as int),
{
    let first: i128 = clicks[i] as i128;
    let mut k: usize = 0;
    while i + k < clicks.len() && clicks[i + k] as i128 - first <= window as i128
        invariant
            i < clicks.len(),
            i + k <= clicks.len(),
            first == clicks@[i as int],
            forall|j: int| i <= j < i + k ==> #[trigger] clicks@[j] - clicks@[i as int] <= window,
        decreases clicks.len() - i - k,
    {
        k += 1;
    }
    k
}

/// The most clicks that came within `window` of one of them.
pub fn best_second(clicks: &Vec<i64>, window: i64) -> (r: usize)
    ensures
        forall|i: int, k: int| run(clicks@, i, window as int, k) ==> k <= r,
        clicks@.len() == 0 ==> r == 0,
        clicks@.len() > 0 ==> exists|i: int| run(clicks@, i, window as int, r as int),
{
    let mut best: usize = 0;
    let mut at: usize = 0;
    let mut i: usize = 0;
    while i < clicks.len()
        invariant
            i <= clicks.len(),
            i == 0 ==> best == 0,
            i > 0 ==> run(clicks@, at as int, window as int, best as int),
            forall|j: int, k: int| j < i && run(clicks@, j, window as int, k) ==> k <= best,
        decreases clicks.len() - i,
    {
        let k: usize = run_at(clicks, i, window);
        proof {
            assert forall|m: int| run(clicks@, i as int, window as int, m) implies m == k by {
                lemma_run_unique(clicks@, i as int, window as int, m, k as int);
            }
        }
        if i == 0 || k > best {
            best = k;
            at = i;
        }
        i += 1;
    }
    best
}

proof fn lemma_run_unique(clicks: Seq<i64>, i: int, window: int, a: int, b: int)
    requires
        run(clicks, i, window, a),
        run(clicks, i, window, b),
    ensures
        a == b,
{
    if a < b {
        assert(clicks[i + a] - clicks[i] <= window);
    }
    if b < a {
        assert(clicks[i + b] - clicks[i] <= window);
    }
}

/// The shortest time between two clicks that follow each other.
pub open spec fn is_min_gap(clicks: Seq<i64>, gap: int) -> bool {
    &&& exists|i: int| 0 <= i < clicks.len() - 1 && #[trigger] gap_at(clicks, i) == gap
    &&& forall|i: int| 0 <= i < clicks.len() - 1 ==> gap <= #[trigger] gap_at(clicks, i)
}

/// The time from click `i` to the next.
pub open spec fn gap_at(clicks: Seq<i64>, i: int) -> int {
    clicks[i + 1] - clicks[i]
}

/// The shortest gap; none where there are fewer than two clicks.
pub fn min_gap(clicks: &Vec<i64>) -> (r: Option<i64>)
    requires
        forall|i: int|
            0 <= i < clicks@.len() - 1 ==> i64::MIN <= #[trigger] gap_at(clicks@, i) <= i64::MAX,
    ensures
        r is None <==> clicks@.len() < 2,
        r matches Some(gap) ==> is_min_gap(clicks@, gap as int),
{
    if clicks.len() < 2 {
        return None;
    }
    assert(i64::MIN <= gap_at(clicks@, 0) <= i64::MAX);
    let mut least: i64 = clicks[1] - clicks[0];
    let mut i: usize = 1;
    while i < clicks.len() - 1
        invariant
            1 <= i <= clicks.len() - 1,
            forall|j: int|
                0 <= j < clicks@.len() - 1 ==> i64::MIN <= #[trigger] gap_at(clicks@, j)
                    <= i64::MAX,
            exists|j: int| 0 <= j < i && #[trigger] gap_at(clicks@, j) == least,
            forall|j: int| 0 <= j < i ==> least <= #[trigger] gap_at(clicks@, j),
        decreases clicks.len() - i,
    {
        assert(i64::MIN <= gap_at(clicks@, i as int) <= i64::MAX);
        let gap: i64 = clicks[i + 1] - clicks[i];
        if gap < least {
            least = gap;
        }
        i += 1;
    }
    Some(least)
}

/// The clicks among the first `n` that lie between two times, both included.
pub open spec fn clicks_between(clicks: Seq<i64>, lo: int, hi: int, n: nat) -> nat
    decreases n,
{
    if n == 0 {
        0
    } else {
        clicks_between(clicks, lo, hi, (n - 1) as nat) + if lo <= clicks[n - 1] <= hi {
            1nat
        } else {
            0
        }
    }
}

/// Times in the order in which they came.
pub open spec fn sorted(clicks: Seq<i64>) -> bool {
    forall|i: int, j: int| 0 <= i <= j < clicks.len() ==> clicks[i] <= clicks[j]
}

proof fn lemma_none_before(clicks: Seq<i64>, lo: int, hi: int, n: nat)
    requires
        n <= clicks.len(),
        forall|j: int| 0 <= j < n ==> clicks[j] < lo,
    ensures
        clicks_between(clicks, lo, hi, n) == 0,
    decreases n,
{
    if n > 0 {
        lemma_none_before(clicks, lo, hi, (n - 1) as nat);
    }
}

proof fn lemma_between_grows_by_one(clicks: Seq<i64>, lo: int, hi: int, i: nat, n: nat)
    requires
        i <= n <= clicks.len(),
    ensures
        clicks_between(clicks, lo, hi, n) <= clicks_between(clicks, lo, hi, i) + (n - i),
    decreases n,
{
    if i < n {
        lemma_between_grows_by_one(clicks, lo, hi, i, (n - 1) as nat);
    }
}

proof fn lemma_none_after(clicks: Seq<i64>, lo: int, hi: int, m: nat, n: nat)
    requires
        m <= n <= clicks.len(),
        forall|j: int| m <= j < n ==> clicks[j] > hi,
    ensures
        clicks_between(clicks, lo, hi, n) == clicks_between(clicks, lo, hi, m),
    decreases n,
{
    if m < n {
        lemma_none_after(clicks, lo, hi, m, (n - 1) as nat);
    }
}

/// The best second is the best of all seconds, not only of those that start with a click: no
/// stretch of time as long as the window holds more clicks.
pub proof fn law_best_second_is_best(clicks: Seq<i64>, window: int, best: int, start: int)
    requires
        sorted(clicks),
        best >= 0,
        forall|i: int, k: int| run(clicks, i, window, k) ==> k <= best,
    ensures
        clicks_between(clicks, start, start + window, clicks.len()) <= best,
{
    let n = clicks.len();
    if forall|j: int| 0 <= j < n ==> clicks[j] < start {
        lemma_none_before(clicks, start, start + window, n);
    } else {
        let any = choose|j: int| 0 <= j < n && clicks[j] >= start;
        let i = first_from(clicks, start, any as nat);
        lemma_first_from(clicks, start, any as nat);
        let k = run_length(clicks, i as int, window, (n - i) as nat);
        lemma_run_length(clicks, i as int, window, (n - i) as nat);
        let m = (i + k) as nat;
        lemma_none_before(clicks, start, start + window, i);
        lemma_between_grows_by_one(clicks, start, start + window, i, m);
        assert forall|j: int| m <= j < n implies clicks[j] > start + window by {
            assert(clicks[m as int] <= clicks[j]);
        }
        lemma_none_after(clicks, start, start + window, m, n);
    }
}

/// How many of the `n` clicks from click `i` on come within `window` of it, up to the first that
/// does not.
spec fn run_length(clicks: Seq<i64>, i: int, window: int, n: nat) -> nat
    decreases n,
{
    if n == 0 {
        0
    } else {
        let before = run_length(clicks, i, window, (n - 1) as nat);
        if before == n - 1 && clicks[i + n - 1] - clicks[i] <= window {
            n
        } else {
            before
        }
    }
}

proof fn lemma_run_length(clicks: Seq<i64>, i: int, window: int, n: nat)
    requires
        0 <= i < clicks.len(),
        n <= clicks.len() - i,
    ensures
        ({
            let k = run_length(clicks, i, window, n);
            &&& k <= n
            &&& forall|j: int| i <= j < i + k ==> #[trigger] clicks[j] - clicks[i] <= window
            &&& k < n ==> clicks[i + k] - clicks[i] > window
            &&& n == clicks.len() - i ==> run(clicks, i, window, k as int)
        }),
    decreases n,
{
    if n > 0 {
        lemma_run_length(clicks, i, window, (n - 1) as nat);
    }
}

/// The first click at or after `start`, not later than click `n`.
spec fn first_from(clicks: Seq<i64>, start: int, n: nat) -> nat
    decreases n,
{
    if n == 0 || clicks[n - 1] < start {
        n
    } else {
        first_from(clicks, start, (n - 1) as nat)
    }
}

proof fn lemma_first_from(clicks: Seq<i64>, start: int, n: nat)
    requires
        sorted(clicks),
        n < clicks.len(),
        clicks[n as int] >= start,
    ensures
        ({
            let i = first_from(clicks, start, n);
            &&& i <= n
            &&& clicks[i as int] >= start
            &&& forall|j: int| 0 <= j < i ==> clicks[j] < start
        }),
    decreases n,
{
    if n > 0 && clicks[n - 1] >= start {
        lemma_first_from(clicks, start, (n - 1) as nat);
    }
}

/// The best second is one that there was: as many clicks as it counts lie in the stretch that starts
/// with the first of them.
pub proof fn law_best_second_is_met(clicks: Seq<i64>, window: int, i: int, k: int)
    requires
        sorted(clicks),
        window >= 0,
        run(clicks, i, window, k),
    ensures
        clicks_between(clicks, clicks[i] as int, clicks[i] + window, clicks.len()) >= k,
        k >= 1,
{
    let (lo, hi) = (clicks[i] as int, clicks[i] + window);
    assert forall|j: int| i <= j < i + k implies lo <= #[trigger] clicks[j] <= hi by {
        assert(clicks[i] <= clicks[j]);
    }
    lemma_all_between(clicks, lo, hi, i as nat, (i + k) as nat);
    lemma_between_never_falls(clicks, lo, hi, (i + k) as nat, clicks.len());
}

proof fn lemma_all_between(clicks: Seq<i64>, lo: int, hi: int, from: nat, n: nat)
    requires
        from <= n <= clicks.len(),
        forall|j: int| from <= j < n ==> lo <= #[trigger] clicks[j] <= hi,
    ensures
        clicks_between(clicks, lo, hi, n) >= n - from,
    decreases n,
{
    if from < n {
        lemma_all_between(clicks, lo, hi, from, (n - 1) as nat);
        assert(lo <= clicks[n - 1] <= hi);
    }
}

proof fn lemma_between_never_falls(clicks: Seq<i64>, lo: int, hi: int, m: nat, n: nat)
    requires
        m <= n <= clicks.len(),
    ensures
        clicks_between(clicks, lo, hi, m) <= clicks_between(clicks, lo, hi, n),
    decreases n,
{
    if m < n {
        lemma_between_never_falls(clicks, lo, hi, m, (n - 1) as nat);
    }
}

/// The shortest gap is one that there was between two clicks that follow each other, and no two
/// clicks of a test are closer.
pub proof fn law_no_two_clicks_are_closer(clicks: Seq<i64>, gap: int, a: int, b: int)
    requires
        sorted(clicks),
        is_min_gap(clicks, gap),
        0 <= a < b < clicks.len(),
    ensures
        clicks[b] - clicks[a] >= gap,
        exists|i: int, j: int|
            0 <= i < clicks.len() && j == i + 1 && j < clicks.len() && #[trigger] clicks[j]
                - #[trigger] clicks[i] == gap,
{
    assert(gap <= gap_at(clicks, a));
    assert(clicks[a + 1] <= clicks[b]);
    let i = choose|i: int| 0 <= i < clicks.len() - 1 && #[trigger] gap_at(clicks, i) == gap;
    let j = i + 1;
    assert(clicks[j] - clicks[i] == gap);
}

} // verus!
