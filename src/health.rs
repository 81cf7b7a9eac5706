//! Online health tests for the raw noise stream.
//!
//! Both follow NIST SP 800-90B section 4.4: the repetition count test catches
//! a source stuck on one value, the adaptive proportion test catches a value
//! that recurs far too often within a window.
use vstd::prelude::*;

use crate::calibrate::{lemma_occurrences_bound, occurrences};

verus! {

/// Window size of the adaptive proportion test used by [`TotalHealth`].
pub const PROPORTION_WINDOW: usize = 512;

/// Cutoff of the adaptive proportion test used by [`TotalHealth`].
pub const PROPORTION_CUTOFF: usize = 410;

/// Cutoff of the repetition count test used by [`TotalHealth`]:
/// 201 for a min-entropy of 0.1 bits per sample and a false positive
/// probability of 2^-20.
pub const REPETITION_CUTOFF: usize = 201;

/// One more, unless the count already stands at `usize::MAX`.
pub open spec fn saturating_inc(n: nat) -> nat {
    if n < usize::MAX {
        n + 1
    } else {
        n
    }
}

/// Abstract state of a [`RepetitionTest`].
pub ghost struct RepetitionState {
    /// The value of the current run.
    pub prev: u8,
    /// The length of the current run.
    pub count: nat,
    /// A run this long fails the test.
    pub cutoff: nat,
}

impl RepetitionState {
    pub open spec fn fresh(cutoff: nat) -> RepetitionState {
        RepetitionState { prev: 0, count: 0, cutoff }
    }

    /// Length of the run once `v` is fed.
    pub open spec fn run_length(self, v: u8) -> nat {
        if v == self.prev {
            saturating_inc(self.count)
        } else {
            1
        }
    }

    pub open spec fn passes(self, v: u8) -> bool {
        self.run_length(v) < self.cutoff
    }

    pub open spec fn step(self, v: u8) -> RepetitionState {
        RepetitionState { prev: v, count: self.run_length(v), cutoff: self.cutoff }
    }

    /// The state once each of `vals` has been fed, in order.
    pub open spec fn after(self, vals: Seq<u8>) -> RepetitionState
        decreases vals.len(),
    {
        if vals.len() == 0 {
            self
        } else {
            self.after(vals.drop_last()).step(vals.last())
        }
    }
}

/// Run-length counter behind [`RepetitionTest`].
struct Repetition {
    prev: u8,
    count: usize,
}

impl Repetition {
    fn new() -> (r: Self)
        ensures
            r.prev == 0,
            r.count == 0,
    {
        // With a count of zero the initial `prev` plays no part.
        Repetition { prev: 0u8, count: 0 }
    }

    /// Returns the running repetition count for the given value.
    fn feed(&mut self, val: u8) -> (r: usize)
        ensures
            final(self).prev == val,
            final(self).count as nat == (if val == old(self).prev {
                saturating_inc(old(self).count as nat)
            } else {
                1
            }),
            r == final(self).count,
    {
        if val == self.prev {
            self.count = self.count.saturating_add(1);
        } else {
            self.count = 1;
            self.prev = val;
        }
        self.count
    }
}

/// Repetition count test (NIST SP 800-90B 4.4.1).
///
/// Fails as soon as one value has been fed `cutoff` times in a row.
pub struct RepetitionTest {
    r: Repetition,
    cutoff: usize,
}

impl View for RepetitionTest {
    type V = RepetitionState;

    closed spec fn view(&self) -> RepetitionState {
        RepetitionState { prev: self.r.prev, count: self.r.count as nat, cutoff: self.cutoff as nat }
    }
}

impl RepetitionTest {
    pub fn new(cutoff: usize) -> (r: Self)
        ensures
            r@ == RepetitionState::fresh(cutoff as nat),
    {
        RepetitionTest { r: Repetition::new(), cutoff }
    }

    pub fn test(&mut self, val: u8) -> (r: Result<(), ()>)
        ensures
            final(self)@ == old(self)@.step(val),
            r is Ok <==> old(self)@.passes(val),
    {
        if self.r.feed(val) < self.cutoff {
            Ok(())
        } else {
            Err(())
        }
    }
}

/// Abstract state of an [`AdaptiveProportionTest`].
pub ghost struct ProportionState {
    /// The first value of the current window.
    pub val: u8,
    /// How often `val` has recurred in the window so far.
    pub matches: nat,
    /// Position in the window; 0 when a new window starts with the next value.
    pub i: nat,
    pub window: nat,
    pub cutoff: nat,
}

impl ProportionState {
    pub open spec fn fresh(window: nat, cutoff: nat) -> ProportionState {
        ProportionState { val: 0, matches: 0, i: 0, window, cutoff }
    }

    /// Recurrences of the window's first value once `v` is fed.
    pub open spec fn matches_with(self, v: u8) -> nat {
        if self.val == v {
            saturating_inc(self.matches)
        } else {
            self.matches
        }
    }

    /// Whether feeding `v` brings the count of recurrences up to the cutoff
    /// for the first time in this window: the one feed of a window that fails.
    pub open spec fn reaches_cutoff(self, v: u8) -> bool {
        self.i != 0 && self.val == v && self.matches != self.cutoff && saturating_inc(self.matches)
            == self.cutoff
    }

    pub open spec fn passes(self, v: u8) -> bool {
        !self.reaches_cutoff(v)
    }

    pub open spec fn step(self, v: u8) -> ProportionState {
        if self.i == 0 {
            ProportionState { val: v, matches: 0, i: 1, ..self }
        } else if saturating_inc(self.i) == self.window {
            ProportionState { matches: 0, i: 0, ..self }
        } else {
            ProportionState { matches: self.matches_with(v), i: saturating_inc(self.i), ..self }
        }
    }

    /// The state once each of `vals` has been fed, in order.
    pub open spec fn after(self, vals: Seq<u8>) -> ProportionState
        decreases vals.len(),
    {
        if vals.len() == 0 {
            self
        } else {
            self.after(vals.drop_last()).step(vals.last())
        }
    }
}

/// Adaptive proportion test (NIST SP 800-90B 4.4.2).
///
/// The first value of each window of `window` samples is compared with the
/// rest of the window; the test fails on the feed where it has recurred
/// `cutoff` times, once per window.
pub struct AdaptiveProportionTest {
    // A, value to compare
    val: u8,
    // B, count of matches in the window
    matches: usize,
    // i, position in the window
    i: usize,
    // W, window size
    window: usize,
    // C, cutoff: failure occurs if matches >= cutoff
    cutoff: usize,
}

impl View for AdaptiveProportionTest {
    type V = ProportionState;

    closed spec fn view(&self) -> ProportionState {
        ProportionState {
            val: self.val,
            matches: self.matches as nat,
            i: self.i as nat,
            window: self.window as nat,
            cutoff: self.cutoff as nat,
        }
    }
}

impl AdaptiveProportionTest {
    pub fn new(window: usize, cutoff: usize) -> (r: Self)
        ensures
            r@ == ProportionState::fresh(window as nat, cutoff as nat),
    {
        AdaptiveProportionTest { val: 0, matches: 0, i: 0, window, cutoff }
    }

    pub fn test(&mut self, val: u8) -> (r: Result<(), ()>)
        ensures
            final(self)@ == old(self)@.step(val),
            r is Ok <==> old(self)@.passes(val),
    {
        if self.i == 0 {
            // a new window starts
            self.val = val;
            self.matches = 0;
            self.i = 1;
            Ok(())
        } else {
            let mut result = true;
            if self.val == val {
                let before = self.matches;
                self.matches = self.matches.saturating_add(1);
                result = !(before != self.cutoff && self.matches == self.cutoff);
            }
            self.i = self.i.saturating_add(1);
            if self.i == self.window {
                self.i = 0;
                self.matches = 0;
            }
            if result {
                Ok(())
            } else {
                Err(())
            }
        }
    }
}

/// Abstract state of a [`TotalHealth`].
pub ghost struct HealthState {
    pub adaptive: ProportionState,
    pub repetition: RepetitionState,
}

impl HealthState {
    pub open spec fn fresh() -> HealthState {
        HealthState {
            adaptive: ProportionState::fresh(PROPORTION_WINDOW as nat, PROPORTION_CUTOFF as nat),
            repetition: RepetitionState::fresh(REPETITION_CUTOFF as nat),
        }
    }

    pub open spec fn passes(self, v: u8) -> bool {
        self.adaptive.passes(v) && self.repetition.passes(v)
    }

    /// Both tests see every value.
    pub open spec fn step(self, v: u8) -> HealthState {
        HealthState { adaptive: self.adaptive.step(v), repetition: self.repetition.step(v) }
    }
}

/// Both health tests, with the parameters used for seeding.
pub struct TotalHealth {
    adaptive: AdaptiveProportionTest,
    repetition: RepetitionTest,
}

impl View for TotalHealth {
    type V = HealthState;

    closed spec fn view(&self) -> HealthState {
        HealthState { adaptive: self.adaptive@, repetition: self.repetition@ }
    }
}

impl TotalHealth {
    pub fn new() -> (r: Self)
        ensures
            r@ == HealthState::fresh(),
    {
        TotalHealth {
            adaptive: AdaptiveProportionTest::new(PROPORTION_WINDOW, PROPORTION_CUTOFF),
            repetition: RepetitionTest::new(REPETITION_CUTOFF),
        }
    }

    pub fn test(&mut self, val: u8) -> (r: Result<(), ()>)
        ensures
            final(self)@ == old(self)@.step(val),
            r is Ok <==> old(self)@.passes(val),
    {
        let adaptive = self.adaptive.test(val);
        let repetition = self.repetition.test(val);
        if adaptive.is_ok() && repetition.is_ok() {
            Ok(())
        } else {
            Err(())
        }
    }
}

/// `n` copies of `v`.
pub open spec fn run_of(v: u8, n: nat) -> Seq<u8> {
    Seq::new(n, |_i: int| v)
}

proof fn lemma_run_count(t: RepetitionState, v: u8, n: nat)
    requires
        n <= usize::MAX,
        t.prev != v || t.count == 0,
    ensures
        n > 0 ==> t.after(run_of(v, n)).count == n && t.after(run_of(v, n)).prev == v,
        t.after(run_of(v, n)).cutoff == t.cutoff,
    decreases n,
{
    if n > 0 {
        assert(run_of(v, n).drop_last() == run_of(v, (n - 1) as nat));
        lemma_run_count(t, v, (n - 1) as nat);
        if n == 1 {
            assert(run_of(v, 0) == Seq::<u8>::empty());
        }
    }
}

/// In a run of one value that starts a new run, the `n`-th copy passes the
/// repetition test exactly when `n` is below the cutoff: it fails first at
/// `n == cutoff`.
pub proof fn lemma_repetition_run(t: RepetitionState, v: u8, n: nat)
    requires
        1 <= n <= usize::MAX,
        t.prev != v || t.count == 0,
    ensures
        t.after(run_of(v, (n - 1) as nat)).passes(v) <==> n < t.cutoff,
{
    lemma_run_count(t, v, (n - 1) as nat);
    if n == 1 {
        assert(run_of(v, 0) == Seq::<u8>::empty());
    }
}

/// Whether no two neighbours in `vals` are equal.
pub open spec fn alternating(vals: Seq<u8>) -> bool {
    forall|i: int| 0 < i < vals.len() ==> vals[i] != #[trigger] vals[i - 1]
}

proof fn lemma_alternating_count(cutoff: nat, vals: Seq<u8>)
    requires
        alternating(vals),
    ensures
        RepetitionState::fresh(cutoff).after(vals).count <= 1,
        vals.len() > 0 ==> RepetitionState::fresh(cutoff).after(vals).prev == vals.last(),
        RepetitionState::fresh(cutoff).after(vals).cutoff == cutoff,
    decreases vals.len(),
{
    if vals.len() > 0 {
        let init = vals.drop_last();
        assert(alternating(init)) by {
            assert forall|i: int| 0 < i < init.len() implies init[i] != #[trigger] init[i - 1] by {
                assert(vals[i] != vals[i - 1]);
            }
        }
        lemma_alternating_count(cutoff, init);
        if vals.len() > 1 {
            assert(vals[vals.len() - 1] != vals[vals.len() - 2]);
        }
    }
}

/// A sequence in which no value follows itself never fails the repetition
/// test, however long, for any cutoff of at least 2.
pub proof fn lemma_alternating_passes(cutoff: nat, vals: Seq<u8>)
    requires
        cutoff >= 2,
        alternating(vals),
    ensures
        forall|i: int| 0 <= i < vals.len() ==> #[trigger] RepetitionState::fresh(cutoff).after(vals.take(i)).passes(vals[i]),
{
    assert forall|i: int| 0 <= i < vals.len() implies #[trigger] RepetitionState::fresh(cutoff).after(vals.take(i)).passes(vals[i]) by {
        let pre = vals.take(i);
        assert(alternating(pre)) by {
            assert forall|k: int| 0 < k < pre.len() implies pre[k] != #[trigger] pre[k - 1] by {
                assert(vals[k] != vals[k - 1]);
            }
        }
        lemma_alternating_count(cutoff, pre);
        if i > 0 {
            assert(vals[i] != vals[i - 1]);
        }
    }
}

/// Within one window of the adaptive proportion test, which starts afresh
/// with `w[0]`: the feed of `w[j]` fails exactly when it is a recurrence of
/// `w[0]` that brings the count of recurrences among `w[1..=j]` to the
/// cutoff. Position and count go back to 0 once the window is full.
pub proof fn lemma_proportion_window(t: ProportionState, w: Seq<u8>)
    requires
        t.i == 0,
        2 <= t.window <= usize::MAX,
        1 <= w.len() <= t.window,
    ensures
        forall|j: int| 1 <= j < w.len() ==> (!(#[trigger] t.after(w.take(j)).passes(w[j])) <==> (w[j] == w[0]
            && occurrences(w.subrange(1, j + 1), w[0]) == t.cutoff)),
        w.len() < t.window ==> t.after(w).i == w.len() && t.after(w).val == w[0]
            && t.after(w).matches == occurrences(w.subrange(1, w.len() as int), w[0]),
        w.len() == t.window ==> t.after(w).i == 0 && t.after(w).matches == 0,
        t.after(w).window == t.window && t.after(w).cutoff == t.cutoff,
    decreases w.len(),
{
    if w.len() == 1 {
        assert(w.drop_last() == Seq::<u8>::empty());
        assert(t.after(Seq::<u8>::empty()) == t);
        assert(t.after(w) == t.step(w[0]));
        assert(w.subrange(1, 1) == Seq::<u8>::empty());
    } else {
        let init = w.drop_last();
        lemma_proportion_window(t, init);
        let j = init.len() as int;
        assert(w.take(j) == init);
        assert(init[0] == w[0]);
        assert(w.subrange(1, j + 1).drop_last() == init.subrange(1, j));
        assert forall|k: int| 1 <= k < w.len() implies (!(#[trigger] t.after(w.take(k)).passes(w[k])) <==> (w[k]
            == w[0] && occurrences(w.subrange(1, k + 1), w[0]) == t.cutoff)) by {
            if k < j {
                assert(w.take(k) == init.take(k));
                assert(w.subrange(1, k + 1) == init.subrange(1, k + 1));
                assert(init[k] == w[k]);
            } else {
                let st = t.after(init);
                lemma_occurrences_bound(init.subrange(1, j), w[0]);
                assert(w.subrange(1, j + 1).last() == w[j]);
                assert(st.i == j && st.val == w[0]);
                assert(st.matches == occurrences(init.subrange(1, j), w[0]));
                assert(occurrences(w.subrange(1, j + 1), w[0]) == st.matches + if w[j] == w[0] { 1nat } else { 0nat });
                assert(st.matches < usize::MAX);
            }
        }
        lemma_occurrences_bound(init.subrange(1, j), w[0]);
        assert(w.subrange(1, j + 1).last() == w[j]);
    }
}

proof fn lemma_occurrences_take_step(s: Seq<u8>, v: u8, m: int)
    requires
        0 <= m < s.len(),
    ensures
        occurrences(s.take(m + 1), v) == occurrences(s.take(m), v) + if s[m] == v {
            1nat
        } else {
            0nat
        },
{
    assert(s.take(m + 1).drop_last() == s.take(m));
}

proof fn lemma_occurrences_take_mono(s: Seq<u8>, v: u8, a: int, b: int)
    requires
        0 <= a <= b <= s.len(),
    ensures
        occurrences(s.take(a), v) <= occurrences(s.take(b), v),
    decreases b - a,
{
    if a < b {
        lemma_occurrences_take_mono(s, v, a, b - 1);
        lemma_occurrences_take_step(s, v, b - 1);
    }
}

proof fn lemma_occurrences_reach(s: Seq<u8>, v: u8, c: nat)
    requires
        1 <= c <= occurrences(s, v),
    ensures
        exists|m: int| 0 <= m < s.len() && s[m] == v && #[trigger] occurrences(s.take(m + 1), v) == c,
    decreases s.len(),
{
    let init = s.drop_last();
    let m = s.len() - 1;
    assert(s.take(m) == init);
    assert(s.take(m + 1) == s);
    if occurrences(init, v) >= c {
        lemma_occurrences_reach(init, v, c);
        let k = choose|k: int| 0 <= k < init.len() && init[k] == v && #[trigger] occurrences(init.take(k + 1), v) == c;
        assert(init.take(k + 1) == s.take(k + 1));
    } else {
        lemma_occurrences_take_step(s, v, m);
    }
}

/// The adaptive proportion test fails at most once per window, and exactly
/// once when the window's first value `w[0]` recurs at least `cutoff` times
/// among the rest of the window.
pub proof fn lemma_proportion_fails_once(t: ProportionState, w: Seq<u8>)
    requires
        t.i == 0,
        2 <= t.window <= usize::MAX,
        1 <= w.len() <= t.window,
        t.cutoff >= 1,
    ensures
        forall|j1: int, j2: int|
            0 <= j1 < w.len() && 0 <= j2 < w.len() && !(#[trigger] t.after(w.take(j1)).passes(w[j1]))
                && !(#[trigger] t.after(w.take(j2)).passes(w[j2])) ==> j1 == j2,
        occurrences(w.subrange(1, w.len() as int), w[0]) >= t.cutoff ==> exists|j: int|
            1 <= j < w.len() && !(#[trigger] t.after(w.take(j)).passes(w[j])),
{
    lemma_proportion_window(t, w);
    let u = w.subrange(1, w.len() as int);
    assert(t.after(w.take(0)).passes(w[0])) by {
        assert(w.take(0) == Seq::<u8>::empty());
        assert(t.after(Seq::<u8>::empty()) == t);
    }
    assert forall|j: int| 1 <= j < w.len() implies w.subrange(1, j + 1) == #[trigger] u.take(j) by {}
    assert forall|j1: int, j2: int|
        0 <= j1 < w.len() && 0 <= j2 < w.len() && !(#[trigger] t.after(w.take(j1)).passes(w[j1]))
            && !(#[trigger] t.after(w.take(j2)).passes(w[j2])) implies j1 == j2 by {
        if j1 != j2 {
            let (a, b) = if j1 < j2 {
                (j1, j2)
            } else {
                (j2, j1)
            };
            assert(w.subrange(1, a + 1) == u.take(a));
            assert(w.subrange(1, b + 1) == u.take(b));
            lemma_occurrences_take_mono(u, w[0], a, b - 1);
            lemma_occurrences_take_step(u, w[0], b - 1);
            assert(u[b - 1] == w[b]);
        }
    }
    if occurrences(u, w[0]) >= t.cutoff {
        lemma_occurrences_reach(u, w[0], t.cutoff);
        let m = choose|m: int| 0 <= m < u.len() && u[m] == w[0] && #[trigger] occurrences(u.take(m + 1), w[0]) == t.cutoff;
        assert(w.subrange(1, m + 2) == u.take(m + 1));
        assert(!t.after(w.take(m + 1)).passes(w[m + 1]));
    }
}

/// The adaptive proportion test starts a new window every `window` feeds,
/// whatever the values and outcomes: from a fresh start, after `n` feeds the
/// position in the window is `n % window`, with the count back at 0 when it
/// is 0.
pub proof fn lemma_proportion_resets(t: ProportionState, vals: Seq<u8>)
    requires
        t.i == 0,
        t.matches == 0,
        2 <= t.window <= usize::MAX,
    ensures
        t.after(vals).i == vals.len() % t.window,
        t.after(vals).i == 0 ==> t.after(vals).matches == 0,
        t.after(vals).i <= t.after(vals).window,
        t.after(vals).window == t.window,
    decreases vals.len(),
{
    if vals.len() > 0 {
        lemma_proportion_resets(t, vals.drop_last());
        let prev = t.after(vals.drop_last());
        let n: int = vals.len() - 1;
        let w: int = t.window as int;
        assert(prev.i == n % w);
        if prev.i + 1 == w {
            assert((n + 1) % w == 0) by (nonlinear_arith)
                requires
                    prev.i == n % w,
                    prev.i + 1 == w,
                    w >= 2,
            ;
        } else {
            assert((n + 1) % w == prev.i + 1) by (nonlinear_arith)
                requires
                    prev.i == n % w,
                    prev.i + 1 < w,
                    w >= 2,
            ;
        }
    }
}

} // verus!
