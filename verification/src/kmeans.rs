use vstd::prelude::*;
use vstd::arithmetic::div_mod::{lemma_add_mod_noop, lemma_small_mod};
use crate::error::AnalyzerError;

verus! {

/// The multiplier of the seeding generator (Knuth's MMIX constant).
pub const LCG_MULTIPLIER: u64 = 6364136223846793005;

/// The increment of the seeding generator.
pub const LCG_INCREMENT: u64 = 1442695040888963407;

/// Mixed into every seed before the first step.
pub const LCG_SEED_MIX: u64 = 0x6C62272E_07BB0142;

/// One step of the generator: state * multiplier + increment, modulo 2^64.
pub open spec fn lcg_step(state: u64) -> u64 {
    ((state as nat * LCG_MULTIPLIER as nat + LCG_INCREMENT as nat) % 0x1_0000_0000_0000_0000)
        as u64
}

/// A linear congruential generator: deterministic, so the same pixels
/// always give the same clusters.
pub struct SimpleLcg(u64);

impl SimpleLcg {
    /// The generator's state.
    pub closed spec fn state(self) -> u64 {
        self.0
    }

    /// A generator whose state is the seed mixed with `LCG_SEED_MIX`.
    pub fn new(seed: u64) -> (g: SimpleLcg)
        ensures
            g.state() == seed ^ LCG_SEED_MIX,
    {
        SimpleLcg(seed ^ LCG_SEED_MIX)
    }

    /// Steps the generator and returns its new state.
    pub fn next_u64(&mut self) -> (v: u64)
        ensures
            v == lcg_step(old(self).state()),
            final(self).state() == v,
    {
        let ghost s = self.0;
        self.0 = self.0.wrapping_mul(LCG_MULTIPLIER).wrapping_add(LCG_INCREMENT);
        proof {
            let m: int = 0x1_0000_0000_0000_0000;
            let product = s as int * LCG_MULTIPLIER as int;
            lemma_add_mod_noop(product, LCG_INCREMENT as int, m);
            lemma_small_mod(LCG_INCREMENT as nat, m as nat);
            assert((product % m + LCG_INCREMENT) % m == (product + LCG_INCREMENT) % m);
            assert(0 <= product % m < m);
            if product % m + LCG_INCREMENT >= m {
                assert((product % m + LCG_INCREMENT) % m == product % m + LCG_INCREMENT - m);
            } else {
                lemma_small_mod((product % m + LCG_INCREMENT) as nat, m as nat);
            }
        }
        self.0
    }

    /// Steps the generator and returns its new state as a `usize` (its low
    /// bits where `usize` is narrower).
    pub fn next_usize(&mut self) -> (v: usize)
        ensures
            v == lcg_step(old(self).state()) as usize,
            final(self).state() == lcg_step(old(self).state()),
    {
        self.next_u64() as usize
    }
}

/// How many of the first `n` assignments name cluster `c`.
pub open spec fn count_of(assignments: Seq<usize>, c: int, n: int) -> int
    decreases n,
{
    if n <= 0 {
        0
    } else {
        count_of(assignments, c, n - 1) + if assignments[n - 1] == c {
            1int
        } else {
            0
        }
    }
}

/// The sum of a sequence of counts.
pub open spec fn total(s: Seq<usize>) -> int
    decreases s.len(),
{
    if s.len() == 0 {
        0
    } else {
        total(s.drop_last()) + s.last()
    }
}

proof fn lemma_total_update(s: Seq<usize>, j: int, v: usize)
    requires
        0 <= j < s.len(),
    ensures
        total(s.update(j, v)) == total(s) - s[j] + v,
    decreases s.len(),
{
    let u = s.update(j, v);
    if j == s.len() - 1 {
        assert(u.drop_last() =~= s.drop_last());
    } else {
        lemma_total_update(s.drop_last(), j, v);
        assert(u.drop_last() =~= s.drop_last().update(j, v));
    }
}

proof fn lemma_count_bound(assignments: Seq<usize>, c: int, n: int)
    requires
        0 <= n,
    ensures
        0 <= count_of(assignments, c, n) <= n,
    decreases n,
{
    if n > 0 {
        lemma_count_bound(assignments, c, n - 1);
    }
}

/// Refuses to form `k` clusters out of fewer than `k` pixels, with
/// `InsufficientPixels`.
pub fn check_enough_pixels(pixel_count: usize, k: usize) -> (r: Result<(), AnalyzerError>)
    ensures
        r is Ok <==> pixel_count >= k,
        r is Err ==> r matches Err(AnalyzerError::InsufficientPixels),
{
    if pixel_count < k {
        return Err(AnalyzerError::InsufficientPixels);
    }
    Ok(())
}

/// Counts, for each of `k` clusters, the assignments that name it. Every
/// assignment is counted once: the counts add up to the number of
/// assignments, so no cluster holds more than all of them.
pub fn cluster_sizes(assignments: &[usize], k: usize) -> (sizes: Vec<usize>)
    requires
        forall|i: int| 0 <= i < assignments@.len() ==> assignments@[i] < k,
    ensures
        sizes@.len() == k,
        forall|c: int|
            0 <= c < k ==> sizes@[c] as int == count_of(
                assignments@,
                c,
                assignments@.len() as int,
            ),
        total(sizes@) == assignments@.len(),
        forall|c: int| 0 <= c < k ==> sizes@[c] <= assignments@.len(),
{
    let n = assignments.len();
    let mut sizes: Vec<usize> = vec![0usize; k];
    proof {
        lemma_total_zero(k as nat);
        assert(sizes@ =~= Seq::new(k as nat, |i: int| 0usize));
    }
    let mut i: usize = 0;
    while i < n
        invariant
            i <= n,
            n == assignments@.len(),
            sizes@.len() == k,
            forall|j: int| 0 <= j < assignments@.len() ==> assignments@[j] < k,
            forall|c: int|
                0 <= c < k ==> sizes@[c] as int == count_of(assignments@, c, i as int),
            total(sizes@) == i,
        decreases n - i,
    {
        let c = assignments[i];
        proof {
            lemma_count_bound(assignments@, c as int, i as int);
        }
        let ghost before = sizes@;
        let updated = sizes[c] + 1;
        sizes.set(c, updated);
        proof {
            lemma_total_update(before, c as int, updated);
            assert forall|d: int| 0 <= d < k implies sizes@[d] as int == count_of(
                assignments@,
                d,
                i + 1,
            ) by {}
        }
        i += 1;
    }
    proof {
        assert forall|c: int| 0 <= c < k implies sizes@[c] <= assignments@.len() by {
            lemma_count_bound(assignments@, c, n as int);
        }
    }
    sizes
}

proof fn lemma_total_zero(m: nat)
    ensures
        total(Seq::new(m, |i: int| 0usize)) == 0,
    decreases m,
{
    if m > 0 {
        lemma_total_zero((m - 1) as nat);
        assert(Seq::new(m, |i: int| 0usize).drop_last() =~= Seq::new(
            (m - 1) as nat,
            |i: int| 0usize,
        ));
    }
}

/// `order` lists cluster indices from the most populous down; clusters of
/// equal size keep their index order.
pub open spec fn is_population_order(counts: Seq<usize>, order: Seq<usize>) -> bool {
    &&& forall|i: int, j: int|
        0 <= i < j < order.len() ==> counts[order[i] as int] >= counts[order[j] as int]
    &&& forall|i: int, j: int|
        0 <= i < j < order.len() && counts[order[i] as int] == counts[order[j] as int]
            ==> order[i] < order[j]
}

/// `order` holds each index below `n` exactly once.
pub open spec fn is_permutation(order: Seq<usize>, n: int) -> bool {
    &&& order.len() == n
    &&& forall|i: int| 0 <= i < order.len() ==> order[i] < n
    &&& forall|i: int, j: int| 0 <= i < j < order.len() ==> order[i] != order[j]
    &&& forall|x: usize| x < n ==> #[trigger] order.contains(x)
}

/// The cluster indices sorted by population, largest first; ties keep
/// index order (a stable sort).
pub fn population_order(counts: &[usize]) -> (order: Vec<usize>)
    ensures
        is_permutation(order@, counts@.len() as int),
        is_population_order(counts@, order@),
{
    let k = counts.len();
    let mut order: Vec<usize> = Vec::new();
    let mut i: usize = 0;
    while i < k
        invariant
            i <= k,
            k == counts@.len(),
            is_permutation(order@, i as int),
            is_population_order(counts@, order@),
        decreases k - i,
    {
        let c = counts[i];
        let mut pos: usize = 0;
        while pos < order.len() && counts[order[pos]] >= c
            invariant
                pos <= order@.len(),
                i < k,
                k == counts@.len(),
                c == counts@[i as int],
                is_permutation(order@, i as int),
                forall|j: int| 0 <= j < pos ==> counts@[order@[j] as int] >= c,
            decreases order@.len() - pos,
        {
            pos += 1;
        }
        let ghost before = order@;
        proof {
            assert forall|j: int| pos <= j < before.len() implies counts@[before[j] as int] < c by {
                if pos < before.len() {
                    assert(counts@[before[pos as int] as int] < c);
                    if j > pos {
                        assert(counts@[before[pos as int] as int] >= counts@[before[j] as int]);
                    }
                }
            }
        }
        order.insert(pos, i);
        proof {
            let after = order@;
            assert forall|x: usize| x < i + 1 implies #[trigger] after.contains(x) by {
                if x == i {
                    assert(after[pos as int] == i);
                } else {
                    assert(before.contains(x));
                    let j = choose|j: int| 0 <= j < before.len() && before[j] == x;
                    if j < pos {
                        assert(after[j] == x);
                    } else {
                        assert(after[j + 1] == x);
                    }
                }
            }
            assert forall|a: int, b: int| 0 <= a < b < after.len() implies after[a] != after[b] by {
                if a < pos && b > pos {
                    assert(after[b] == before[b - 1]);
                } else if a > pos {
                    assert(after[a] == before[a - 1] && after[b] == before[b - 1]);
                }
            }
            assert forall|a: int, b: int| 0 <= a < b < after.len() implies counts@[after[a] as int]
                >= counts@[after[b] as int] by {
                if b > pos && a > pos {
                    assert(after[a] == before[a - 1] && after[b] == before[b - 1]);
                } else if b > pos && a < pos {
                    assert(after[b] == before[b - 1]);
                }
            }
            assert forall|a: int, b: int|
                0 <= a < b < after.len() && counts@[after[a] as int] == counts@[after[b] as int]
                    implies after[a] < after[b] by {
                if b > pos && a > pos {
                    assert(after[a] == before[a - 1] && after[b] == before[b - 1]);
                } else if b > pos && a < pos {
                    assert(after[b] == before[b - 1]);
                } else if b == pos {
                    assert(after[a] == before[a]);
                }
            }
        }
        i += 1;
    }
    order
}

/// The first cluster of a population order is a most populous one: it is
/// the dominant colour.
pub proof fn lemma_first_is_most_populous(counts: Seq<usize>, order: Seq<usize>)
    requires
        is_permutation(order, counts.len() as int),
        is_population_order(counts, order),
        counts.len() > 0,
    ensures
        forall|c: usize| c < counts.len() ==> counts[order[0] as int] >= #[trigger] counts[c as int],
{
    assert forall|c: usize| c < counts.len() implies counts[order[0] as int]
        >= #[trigger] counts[c as int] by {
        assert(order.contains(c));
        let j = choose|j: int| 0 <= j < order.len() && order[j] == c;
        if j > 0 {
            assert(counts[order[0] as int] >= counts[order[j] as int]);
        }
    }
}

} // verus!
