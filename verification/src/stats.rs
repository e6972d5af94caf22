//! Per-hue-bucket statistics: how many active particles each bucket holds
//! (rebuilt from scratch every tick) and how many collisions each bucket's
//! particles have taken part in (monotonically non-decreasing).

use vstd::prelude::*;
use crate::particle::{bucket_of, Particle, BUCKET_COUNT};

verus! {

/// Number of particles of `s` that are active and fall in bucket `k`.
pub open spec fn bucket_tally(s: Seq<Particle>, k: int) -> nat
    decreases s.len(),
{
    if s.len() == 0 {
        0
    } else {
        bucket_tally(s.drop_last(), k) + if s.last().active && bucket_of(
            s.last().hue as int,
        ) == k {
            1nat
        } else {
            0nat
        }
    }
}

/// A tally never exceeds the number of particles.
pub proof fn lemma_tally_le_len(s: Seq<Particle>, k: int)
    ensures
        bucket_tally(s, k) <= s.len(),
    decreases s.len(),
{
    if s.len() > 0 {
        lemma_tally_le_len(s.drop_last(), k);
    }
}

/// Extending the counted prefix by one particle raises exactly the tallies
/// that particle contributes to.
pub proof fn lemma_tally_snoc(s: Seq<Particle>, i: int, k: int)
    requires
        0 <= i < s.len(),
    ensures
        bucket_tally(s.take(i + 1), k) == bucket_tally(s.take(i), k) + if s[i].active
            && bucket_of(s[i].hue as int) == k {
            1int
        } else {
            0int
        },
{
    assert(s.take(i + 1).drop_last() =~= s.take(i));
    assert(s.take(i + 1).last() == s[i]);
}

/// A counter increment that sticks at the top of the `u64` range.
pub open spec fn sat_inc(c: int) -> int {
    if c < u64::MAX {
        c + 1
    } else {
        c
    }
}

/// The collision counters after recording one collision of buckets
/// `ka` and `kb`: both are incremented, twice the same one if they agree.
pub open spec fn record_s(s: Seq<u64>, ka: int, kb: int) -> Seq<u64> {
    let s1 = s.update(ka, sat_inc(s[ka] as int) as u64);
    s1.update(kb, sat_inc(s1[kb] as int) as u64)
}

pub struct ColorStatsTracker {
    /// Active particles per bucket, recomputed every tick.
    pub active_count_by_bucket: Vec<u64>,
    /// Cumulative collision participations per bucket, never decreasing.
    pub collision_count_by_bucket: Vec<u64>,
}

impl ColorStatsTracker {
    pub open spec fn wf(self) -> bool {
        &&& self.active_count_by_bucket.len() == BUCKET_COUNT
        &&& self.collision_count_by_bucket.len() == BUCKET_COUNT
    }

    /// A tracker with every counter at zero.
    pub fn new() -> (t: ColorStatsTracker)
        ensures
            t.wf(),
            forall|k: int| 0 <= k < BUCKET_COUNT ==> t.active_count_by_bucket@[k] == 0,
            forall|k: int| 0 <= k < BUCKET_COUNT ==> t.collision_count_by_bucket@[k] == 0,
    {
        let mut active: Vec<u64> = Vec::new();
        let mut collisions: Vec<u64> = Vec::new();
        while active.len() < BUCKET_COUNT
            invariant
                active.len() <= BUCKET_COUNT,
                collisions.len() == active.len(),
                forall|k: int| 0 <= k < active.len() ==> active@[k] == 0,
                forall|k: int| 0 <= k < collisions.len() ==> collisions@[k] == 0,
            decreases BUCKET_COUNT - active.len(),
        {
            active.push(0);
            collisions.push(0);
        }
        ColorStatsTracker { active_count_by_bucket: active, collision_count_by_bucket: collisions }
    }

    /// Rebuild the active counts from the current particles, discarding the
    /// previous values; the collision counters are untouched.
    pub fn recount(&mut self, particles: &Vec<Particle>)
        requires
            old(self).wf(),
            forall|i: int| 0 <= i < particles@.len() ==> (#[trigger] particles@[i]).wf(),
        ensures
            final(self).wf(),
            final(self).collision_count_by_bucket == old(self).collision_count_by_bucket,
            forall|k: int|
                0 <= k < BUCKET_COUNT ==> final(self).active_count_by_bucket@[k]
                    == bucket_tally(particles@, k),
    {
        let mut counts: Vec<u64> = Vec::new();
        while counts.len() < BUCKET_COUNT
            invariant
                counts.len() <= BUCKET_COUNT,
                forall|k: int| 0 <= k < counts.len() ==> counts@[k] == 0,
            decreases BUCKET_COUNT - counts.len(),
        {
            counts.push(0);
        }
        let n: usize = particles.len();
        let mut i: usize = 0;
        while i < n
            invariant
                n == particles@.len(),
                i <= n,
                counts.len() == BUCKET_COUNT,
                forall|j: int| 0 <= j < particles@.len() ==> (#[trigger] particles@[j]).wf(),
                forall|k: int|
                    0 <= k < BUCKET_COUNT ==> counts@[k] == bucket_tally(
                        particles@.take(i as int),
                        k,
                    ),
            decreases n - i,
        {
            let p: Particle = particles[i];
            if p.active {
                let k: usize = p.bucket();
                proof {
                    lemma_tally_le_len(particles@.take(i as int), k as int);
                }
                let c: u64 = counts[k];
                counts[k] = c + 1;
            }
            proof {
                let ghost s = particles@;
                let ghost ii = i as int;
                assert forall|k: int| 0 <= k < BUCKET_COUNT implies bucket_tally(
                    s.take(ii + 1),
                    k,
                ) == bucket_tally(s.take(ii), k) + (if s[ii].active && bucket_of(
                    s[ii].hue as int,
                ) == k {
                    1int
                } else {
                    0int
                }) by {
                    lemma_tally_snoc(s, ii, k);
                }
            }
            i = i + 1;
        }
        proof {
            assert(particles@.take(n as int) =~= particles@);
        }
        self.active_count_by_bucket = counts;
    }

    /// Record one resolved collision between a particle of bucket `ka` and a
    /// particle of bucket `kb`: both counters rise (the same one twice when
    /// the buckets agree), and no counter ever falls.
    pub fn record_collision(&mut self, ka: usize, kb: usize)
        requires
            old(self).wf(),
            ka < BUCKET_COUNT,
            kb < BUCKET_COUNT,
        ensures
            final(self).wf(),
            final(self).active_count_by_bucket == old(self).active_count_by_bucket,
            final(self).collision_count_by_bucket@ == record_s(
                old(self).collision_count_by_bucket@,
                ka as int,
                kb as int,
            ),
            forall|k: int|
                0 <= k < BUCKET_COUNT ==> old(self).collision_count_by_bucket@[k]
                    <= final(self).collision_count_by_bucket@[k],
    {
        let ca: u64 = self.collision_count_by_bucket[ka];
        if ca < u64::MAX {
            self.collision_count_by_bucket[ka] = ca + 1;
        } else {
            self.collision_count_by_bucket[ka] = ca;
        }
        let cb: u64 = self.collision_count_by_bucket[kb];
        if cb < u64::MAX {
            self.collision_count_by_bucket[kb] = cb + 1;
        } else {
            self.collision_count_by_bucket[kb] = cb;
        }
        proof {
            assert(self.collision_count_by_bucket@ =~= record_s(
                old(self).collision_count_by_bucket@,
                ka as int,
                kb as int,
            ));
        }
    }

    /// All bucket indices sharing the minimum collision count, ascending.
    pub fn min_buckets(&self) -> (r: Vec<usize>)
        requires
            self.wf(),
        ensures
            min_buckets_post(self.collision_count_by_bucket@, r@),
    {
        min_buckets_of(&self.collision_count_by_bucket)
    }
}

/// What a minimum-bucket query returns: the ascending list of exactly those
/// bucket indices whose collision count no other bucket undercuts.
pub open spec fn min_buckets_post(counts: Seq<u64>, r: Seq<usize>) -> bool {
    &&& r.len() >= 1
    &&& forall|j: int, l: int| 0 <= j < l < r.len() ==> r[j] < r[l]
    &&& forall|j: int|
        0 <= j < r.len() ==> r[j] < BUCKET_COUNT && is_min_at(counts, r[j] as int)
    &&& forall|k: int| 0 <= k < BUCKET_COUNT && is_min_at(counts, k) ==> r.contains(k as usize)
}

/// Bucket `k` holds a minimal value of `counts`.
pub open spec fn is_min_at(counts: Seq<u64>, k: int) -> bool {
    forall|i: int| 0 <= i < counts.len() ==> counts[k] <= #[trigger] counts[i]
}

/// All bucket indices of `counts` sharing the minimum value, ascending.
pub fn min_buckets_of(counts: &Vec<u64>) -> (r: Vec<usize>)
    requires
        counts.len() == BUCKET_COUNT,
    ensures
        min_buckets_post(counts@, r@),
{
    let mut m: u64 = counts[0];
    let mut i: usize = 1;
    while i < BUCKET_COUNT
        invariant
            counts.len() == BUCKET_COUNT,
            1 <= i <= BUCKET_COUNT,
            forall|j: int| 0 <= j < i ==> m <= #[trigger] counts@[j],
            exists|j: int| 0 <= j < i && m == counts@[j],
        decreases BUCKET_COUNT - i,
    {
        let c: u64 = counts[i];
        if c < m {
            m = c;
        }
        i = i + 1;
    }
    let mut r: Vec<usize> = Vec::new();
    let mut k: usize = 0;
    while k < BUCKET_COUNT
        invariant
            counts.len() == BUCKET_COUNT,
            k <= BUCKET_COUNT,
            forall|j: int| 0 <= j < counts@.len() ==> m <= #[trigger] counts@[j],
            exists|j: int| 0 <= j < counts@.len() && m == counts@[j],
            forall|j: int, l: int| 0 <= j < l < r@.len() ==> r@[j] < r@[l],
            forall|j: int| 0 <= j < r@.len() ==> r@[j] < k,
            forall|j: int| 0 <= j < r@.len() ==> counts@[r@[j] as int] == m,
            forall|kk: int| 0 <= kk < k && counts@[kk] == m ==> r@.contains(kk as usize),
        decreases BUCKET_COUNT - k,
    {
        let ghost r_before = r@;
        if counts[k] == m {
            r.push(k);
            assert(r@.contains(k as usize)) by {
                assert(r@[r@.len() - 1] == k as usize);
            }
        }
        proof {
            assert forall|kk: int| 0 <= kk < k + 1 && counts@[kk] == m implies r@.contains(
                kk as usize,
            ) by {
                if kk < k {
                    let w = choose|j: int| 0 <= j < r_before.len() && r_before[j] == kk as usize;
                    assert(r@[w] == kk as usize);
                }
            }
        }
        k = k + 1;
    }
    proof {
        let ghost w = choose|j: int| 0 <= j < counts@.len() && m == counts@[j];
        assert(is_min_at(counts@, w));
        assert(r@.contains(w as usize));
        assert(r@.len() >= 1);
        assert forall|j: int|
            0 <= j < r@.len() implies r@[j] < BUCKET_COUNT && is_min_at(
            counts@,
            r@[j] as int,
        ) by {
            assert(counts@[r@[j] as int] == m);
        }
        assert forall|kk: int|
            0 <= kk < BUCKET_COUNT && is_min_at(counts@, kk) implies r@.contains(
            kk as usize,
        ) by {
            assert(counts@[kk] <= m);
            assert(m <= counts@[kk]);
        }
    }
    r
}

} // verus!
