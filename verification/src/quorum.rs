//! The index that a quorum of nodes has reached: of a collection of log
//! indices, the highest one that at least `k` of them are at or beyond.
//! For `1 <= k <= len` this is the `k`-th largest index.

use vstd::prelude::*;

verus! {

/// How many of the indices in `s` are at least `x`.
pub open spec fn count_at_least(s: Seq<usize>, x: usize) -> nat
    decreases s.len(),
{
    if s.len() == 0 {
        0
    } else {
        count_at_least(s.drop_last(), x) + (if s.last() >= x {
            1nat
        } else {
            0nat
        })
    }
}

/// The highest of `s[0..n]` that at least `k` indices of `s` reach, or 0
/// when none of them does.
pub open spec fn highest_reached_by(s: Seq<usize>, n: int, k: nat) -> usize
    decreases n,
{
    if n <= 0 {
        0
    } else {
        let prev = highest_reached_by(s, n - 1, k);
        if count_at_least(s, s[n - 1]) >= k && s[n - 1] > prev {
            s[n - 1]
        } else {
            prev
        }
    }
}

/// The highest index in `s` that at least `k` indices of `s` reach.
pub open spec fn quorum_index(s: Seq<usize>, k: nat) -> usize {
    highest_reached_by(s, s.len() as int, k)
}

proof fn lemma_count_all(s: Seq<usize>, x: usize)
    requires
        forall|i: int| 0 <= i < s.len() ==> s[i] >= x,
    ensures
        count_at_least(s, x) == s.len(),
    decreases s.len(),
{
    if s.len() > 0 {
        lemma_count_all(s.drop_last(), x);
    }
}

proof fn lemma_min_exists(s: Seq<usize>) -> (m: int)
    requires
        s.len() > 0,
    ensures
        0 <= m < s.len(),
        forall|j: int| 0 <= j < s.len() ==> s[j] >= s[m],
    decreases s.len(),
{
    if s.len() == 1 {
        0
    } else {
        let m0 = lemma_min_exists(s.drop_last());
        assert forall|j: int| 0 <= j < s.len() - 1 implies s[j] == s.drop_last()[j] by {}
        if s.last() < s[m0] {
            (s.len() - 1) as int
        } else {
            m0
        }
    }
}

proof fn lemma_highest_reached_by(s: Seq<usize>, n: int, k: nat)
    requires
        0 <= n <= s.len(),
    ensures
        forall|i: int|
            0 <= i < n && count_at_least(s, #[trigger] s[i]) >= k ==> s[i] <= highest_reached_by(
                s,
                n,
                k,
            ),
        (exists|i: int| 0 <= i < n && count_at_least(s, #[trigger] s[i]) >= k) ==> exists|i: int|
            0 <= i < n && count_at_least(s, #[trigger] s[i]) >= k && s[i] == highest_reached_by(
                s,
                n,
                k,
            ),
    decreases n,
{
    if n > 0 {
        lemma_highest_reached_by(s, n - 1, k);
        let prev = highest_reached_by(s, n - 1, k);
        if count_at_least(s, s[n - 1]) >= k && s[n - 1] > prev {
        } else {
            if count_at_least(s, s[n - 1]) >= k {
                let w = choose|i: int| 0 <= i < n && count_at_least(s, #[trigger] s[i]) >= k;
                if w == n - 1 {
                    if !(exists|i: int| 0 <= i < n - 1 && count_at_least(s, #[trigger] s[i]) >= k) {
                        assert(prev == 0) by {
                            lemma_highest_is_zero_without_candidates(s, n - 1, k);
                        }
                        assert(s[n - 1] == prev);
                    }
                }
            }
        }
    }
}

proof fn lemma_highest_is_zero_without_candidates(s: Seq<usize>, n: int, k: nat)
    requires
        0 <= n <= s.len(),
        !(exists|i: int| 0 <= i < n && count_at_least(s, #[trigger] s[i]) >= k),
    ensures
        highest_reached_by(s, n, k) == 0,
    decreases n,
{
    if n > 0 {
        assert(!(count_at_least(s, s[n - 1]) >= k));
        lemma_highest_is_zero_without_candidates(s, n - 1, k);
    }
}

/// The quorum index is one of the indices; at least `k` indices reach it;
/// and no index that `k` indices reach is higher.
pub proof fn lemma_quorum_index(s: Seq<usize>, k: nat)
    requires
        1 <= k <= s.len(),
    ensures
        s.contains(quorum_index(s, k)),
        count_at_least(s, quorum_index(s, k)) >= k,
        forall|v: usize| s.contains(v) && count_at_least(s, v) >= k ==> v <= quorum_index(s, k),
{
    let m = lemma_min_exists(s);
    lemma_count_all(s, s[m]);
    assert(count_at_least(s, s[m]) >= k);
    lemma_highest_reached_by(s, s.len() as int, k);
    let i = choose|i: int|
        0 <= i < s.len() && count_at_least(s, #[trigger] s[i]) >= k && s[i] == quorum_index(s, k);
    assert(s[i] == quorum_index(s, k));
    assert forall|v: usize| s.contains(v) && count_at_least(s, v) >= k implies v <= quorum_index(
        s,
        k,
    ) by {
        let j = choose|j: int| 0 <= j < s.len() && s[j] == v;
        assert(count_at_least(s, s[j]) >= k);
    }
}

/// How many of the indices in `s` are at least `x`.
pub fn count_at_least_exec(s: &Vec<usize>, x: usize) -> (c: usize)
    ensures
        c == count_at_least(s@, x),
{
    let mut c: usize = 0;
    let mut i: usize = 0;
    while i < s.len()
        invariant
            i <= s@.len(),
            c == count_at_least(s@.take(i as int), x),
            c <= i,
        decreases s@.len() - i,
    {
        assert(s@.take(i as int + 1).drop_last() == s@.take(i as int));
        if s[i] >= x {
            c = c + 1;
        }
        i = i + 1;
    }
    assert(s@.take(s@.len() as int) == s@);
    c
}

/// The highest index in `s` that at least `k` indices of `s` reach (0 when
/// none does).
pub fn quorum_index_exec(s: &Vec<usize>, k: usize) -> (r: usize)
    ensures
        r == quorum_index(s@, k as nat),
{
    let mut best: usize = 0;
    let mut i: usize = 0;
    while i < s.len()
        invariant
            i <= s@.len(),
            best == highest_reached_by(s@, i as int, k as nat),
        decreases s@.len() - i,
    {
        let c = count_at_least_exec(s, s[i]);
        if c >= k && s[i] > best {
            best = s[i];
        }
        i = i + 1;
    }
    best
}

} // verus!
