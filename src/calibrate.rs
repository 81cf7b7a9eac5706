//! Choosing the low time for an unknown capacitor.
//!
//! For each candidate low time the embedding program takes a run of samples;
//! the first few warm the source up and are dropped, the rest fill a
//! histogram. The candidate whose fullest bucket is smallest wins: its most
//! likely sample is least likely, which is what min-entropy measures.
use vstd::prelude::*;

use crate::error::RngError;

verus! {

/// Samples dropped at the start of each candidate's run.
pub const CALIBRATION_WARMUP: usize = 10;

/// Samples a candidate's run should hold after the warm-up.
pub const CALIBRATION_TRIALS: usize = 200;

/// How often `v` occurs in `s`.
pub open spec fn occurrences(s: Seq<u8>, v: u8) -> nat
    decreases s.len(),
{
    if s.len() == 0 {
        0
    } else {
        occurrences(s.drop_last(), v) + if s.last() == v {
            1nat
        } else {
            0nat
        }
    }
}

/// The largest count among the buckets for the values below `n`.
pub open spec fn max_count_below(s: Seq<u8>, n: nat) -> nat
    decreases n,
{
    if n == 0 {
        0
    } else {
        let m = max_count_below(s, (n - 1) as nat);
        let c = occurrences(s, (n - 1) as u8);
        if c > m {
            c
        } else {
            m
        }
    }
}

/// The count of the fullest bucket of the histogram of `s`.
pub open spec fn max_bucket_spec(s: Seq<u8>) -> nat {
    max_count_below(s, 256)
}

/// The part of a run that counts: what follows the warm-up.
pub open spec fn trials_of(run: Seq<u8>) -> Seq<u8> {
    if run.len() <= CALIBRATION_WARMUP {
        Seq::empty()
    } else {
        run.subrange(CALIBRATION_WARMUP as int, run.len() as int)
    }
}

/// A candidate's score: its fullest bucket; smaller is better.
pub open spec fn score(run: Seq<u8>) -> nat {
    max_bucket_spec(trials_of(run))
}

/// The first index among the first `n` of `scores` with the smallest score.
pub open spec fn best_below(scores: Seq<nat>, n: nat) -> nat
    decreases n,
{
    if n <= 1 {
        0
    } else {
        let b = best_below(scores, (n - 1) as nat);
        if scores[n - 1] < scores[b as int] {
            (n - 1) as nat
        } else {
            b
        }
    }
}

/// The first index with the smallest score.
pub open spec fn best_index(scores: Seq<nat>) -> nat {
    best_below(scores, scores.len())
}

/// A value occurs no more often than the sequence is long.
pub proof fn lemma_occurrences_bound(s: Seq<u8>, v: u8)
    ensures
        occurrences(s, v) <= s.len(),
    decreases s.len(),
{
    if s.len() > 0 {
        lemma_occurrences_bound(s.drop_last(), v);
    }
}

/// The count of the fullest bucket of the histogram of `samples[skip..]`
/// (of nothing, when `skip` is past the end).
fn max_bucket_after(samples: &[u8], skip: usize) -> (r: usize)
    ensures
        r == max_bucket_spec(
            if skip >= samples@.len() {
                Seq::<u8>::empty()
            } else {
                samples@.subrange(skip as int, samples@.len() as int)
            },
        ),
{
    let ghost s = if skip >= samples@.len() {
        Seq::<u8>::empty()
    } else {
        samples@.subrange(skip as int, samples@.len() as int)
    };
    let start: usize = if skip >= samples.len() {
        samples.len()
    } else {
        skip
    };
    assert(s == samples@.subrange(start as int, samples@.len() as int));
    let mut hist: Vec<usize> = vec![0usize; 256];
    let mut i: usize = start;
    while i < samples.len()
        invariant
            start <= i <= samples@.len(),
            hist@.len() == 256,
            forall|v: u8| hist@[v as int] == occurrences(samples@.subrange(start as int, i as int), v),
        decreases samples@.len() - i,
    {
        let ghost before = samples@.subrange(start as int, i as int);
        let ghost after = samples@.subrange(start as int, i + 1);
        assert(after.drop_last() == before);
        proof {
            lemma_occurrences_bound(before, samples@[i as int]);
        }
        let b = samples[i] as usize;
        hist.set(b, hist[b] + 1);
        i = i + 1;
        assert forall|v: u8| hist@[v as int] == occurrences(after, v) by {
            if v as usize != b {
                assert(hist@[v as int] == occurrences(before, v));
            }
        }
    }
    assert(samples@.subrange(start as int, i as int) == s);
    let mut m: usize = 0;
    let mut n: usize = 0;
    while n < 256
        invariant
            n <= 256,
            hist@.len() == 256,
            forall|v: u8| hist@[v as int] == occurrences(s, v),
            m == max_count_below(s, n as nat),
        decreases 256 - n,
    {
        assert(hist@[n as int] == occurrences(s, n as u8));
        if hist[n] > m {
            m = hist[n];
        }
        n = n + 1;
    }
    m
}

/// The count of the fullest bucket of the histogram of `samples`.
pub fn max_bucket(samples: &[u8]) -> (r: usize)
    ensures
        r == max_bucket_spec(samples@),
{
    let r = max_bucket_after(samples, 0);
    assert(samples@.len() == 0 ==> samples@ == Seq::<u8>::empty());
    assert(samples@.subrange(0, samples@.len() as int) == samples@);
    r
}

/// The scores of a sweep's runs, in order.
pub open spec fn scores_of(runs: Seq<Vec<u8>>) -> Seq<nat> {
    Seq::new(runs.len(), |k: int| score(runs[k]@))
}

proof fn lemma_best_below(scores: Seq<nat>, n: nat)
    requires
        1 <= n <= scores.len(),
    ensures
        best_below(scores, n) < n,
        forall|j: int| 0 <= j < n ==> scores[best_below(scores, n) as int] <= #[trigger] scores[j],
        forall|j: int| 0 <= j < best_below(scores, n) ==> scores[best_below(scores, n) as int] < #[trigger] scores[j],
    decreases n,
{
    if n > 1 {
        lemma_best_below(scores, (n - 1) as nat);
    }
}

/// The first index with the smallest score is no worse than any other and
/// strictly better than every one before it.
pub proof fn lemma_best_index(scores: Seq<nat>)
    requires
        scores.len() >= 1,
    ensures
        best_index(scores) < scores.len(),
        forall|j: int| 0 <= j < scores.len() ==> scores[best_index(scores) as int] <= #[trigger] scores[j],
        forall|j: int| 0 <= j < best_index(scores) ==> scores[best_index(scores) as int] < #[trigger] scores[j],
{
    lemma_best_below(scores, scores.len());
}

/// Picks the low time whose run shows the most min-entropy: the candidate
/// whose fullest histogram bucket is smallest, the first on ties.
///
/// `runs[k]` holds the samples taken with `candidates[k]`, warm-up included.
/// Fails with `CapacitorOutOfRange` only when there is no candidate to
/// measure.
pub fn best_low_time(candidates: &Vec<u32>, runs: &Vec<Vec<u8>>) -> (r: Result<u32, RngError>)
    requires
        candidates@.len() == runs@.len(),
    ensures
        candidates@.len() == 0 ==> r == Err::<u32, RngError>(RngError::CapacitorOutOfRange),
        candidates@.len() > 0 ==> ({
            let k = best_index(scores_of(runs@)) as int;
            &&& 0 <= k < candidates@.len()
            &&& r == Ok::<u32, RngError>(candidates@[k])
            &&& forall|j: int| 0 <= j < runs@.len() ==> score(runs@[k]@) <= score(#[trigger] runs@[j]@)
            &&& forall|j: int| 0 <= j < k ==> score(runs@[k]@) < score(#[trigger] runs@[j]@)
        }),
{
    if candidates.len() == 0 {
        return Err(RngError::CapacitorOutOfRange);
    }
    let ghost scores = scores_of(runs@);
    let mut best: usize = 0;
    let mut best_score: usize = max_bucket_after(runs[0].as_slice(), CALIBRATION_WARMUP);
    let mut k: usize = 1;
    while k < runs.len()
        invariant
            1 <= k <= runs@.len(),
            candidates@.len() == runs@.len(),
            scores == scores_of(runs@),
            best == best_below(scores, k as nat),
            best < k,
            best_score == scores[best as int],
        decreases runs@.len() - k,
    {
        proof {
            lemma_best_below(scores, (k + 1) as nat);
        }
        let sc = max_bucket_after(runs[k].as_slice(), CALIBRATION_WARMUP);
        if sc < best_score {
            best = k;
            best_score = sc;
        }
        k = k + 1;
    }
    proof {
        lemma_best_index(scores);
        assert(forall|j: int| 0 <= j < runs@.len() ==> scores[j] == score(#[trigger] runs@[j]@));
    }
    Ok(candidates[best])
}

} // verus!
