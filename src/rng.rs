//! Seed extraction and the seeded generator.
use vstd::prelude::*;

use crate::error::RngError;
use crate::health::{
    HealthState, ProportionState, RepetitionState, TotalHealth, PROPORTION_CUTOFF, PROPORTION_WINDOW,
    REPETITION_CUTOFF,
};

verus! {

/// A running SHA-256 hasher.
///
/// `sha2::Sha256` is a generic digest wrapper whose bounds Verus cannot
/// declare, so it is held here out of Verus's sight; [`absorbed`] names what
/// it has taken in.
#[verifier::external_body]
pub struct Hasher {
    inner: sha2::Sha256,
}

/// The SHA-256 digest of `data`.
pub uninterp spec fn sha256(data: Seq<u8>) -> Seq<u8>;

/// The bytes a running SHA-256 hasher has absorbed since it was created or last reset.
pub uninterp spec fn absorbed(h: Hasher) -> Seq<u8>;

/// Relies on `sha2::Sha256::new` (`Digest::new`): a hasher that has absorbed nothing.
#[verifier::external_body]
fn hasher_new() -> (h: Hasher)
    ensures
        absorbed(h) == Seq::<u8>::empty(),
{
    Hasher { inner: <sha2::Sha256 as sha2::Digest>::new() }
}

/// Relies on `Digest::update`: the hasher absorbs `b` after what it already holds.
#[verifier::external_body]
fn hasher_update(h: &mut Hasher, b: u8)
    ensures
        absorbed(*final(h)) == absorbed(*old(h)).push(b),
{
    sha2::Digest::update(&mut h.inner, [b]);
}

/// Relies on `Digest::finalize_reset`: the digest of everything absorbed,
/// after which the hasher starts afresh.
#[verifier::external_body]
fn hasher_finalize_reset(h: &mut Hasher) -> (r: [u8; 32])
    ensures
        r@ == sha256(absorbed(*old(h))),
        absorbed(*final(h)) == Seq::<u8>::empty(),
{
    sha2::Digest::finalize_reset(&mut h.inner).into()
}

/// Word positions of the ChaCha20 stream wrap at 2^68: a 64-bit block
/// counter over blocks of sixteen 32-bit words.
pub const STREAM_WORDS: u128 = 0x1_0000_0000_0000_0000_0;

/// The `len` bytes of the ChaCha20 keystream (20 rounds, stream 0) under
/// `key` that start at 32-bit word `word_pos`, each word little endian.
pub uninterp spec fn chacha20_keystream(key: Seq<u8>, word_pos: int, len: nat) -> Seq<u8>;

/// Number of 32-bit words that `len` bytes take from the stream: a word that
/// is only partly used is still spent.
pub open spec fn words_for(len: nat) -> nat {
    (len + 3) / 4
}

/// Word position `p` within the stream's period.
pub open spec fn stream_pos(p: int) -> int {
    p % (STREAM_WORDS as int)
}

/// Where a request for `len` bytes that starts at word `p` leaves the stream.
pub open spec fn advance(p: int, len: nat) -> int {
    stream_pos(stream_pos(p) + words_for(len))
}

/// Relies on `rand_chacha::ChaCha20Rng`: `from_seed(key)` with `set_word_pos`
/// stands at `word_pos` (taken modulo 2^68), `fill_bytes` writes the keystream
/// from there, spending whole words, and `get_word_pos` reports where it ends.
#[verifier::external_body]
fn chacha20_fill(key: &[u8; 32], word_pos: u128, buf: &mut [u8]) -> (next: u128)
    ensures
        final(buf)@.len() == old(buf)@.len(),
        final(buf)@ == chacha20_keystream(key@, stream_pos(word_pos as int), old(buf)@.len()),
        next == advance(word_pos as int, old(buf)@.len()),
{
    let mut rng = <rand_chacha::ChaCha20Rng as rand_chacha::rand_core::SeedableRng>::from_seed(*key);
    rng.set_word_pos(word_pos);
    rand_chacha::rand_core::RngCore::fill_bytes(&mut rng, buf);
    rng.get_word_pos()
}

/// The unsigned number that `b` encodes, least significant byte first.
pub open spec fn le_value(b: Seq<u8>) -> int
    decreases b.len(),
{
    if b.len() == 0 {
        0
    } else {
        b[0] + 256 * le_value(b.drop_first())
    }
}

/// 256 to the power `n`.
pub open spec fn pow256(n: nat) -> int
    decreases n,
{
    if n == 0 {
        1
    } else {
        256 * pow256((n - 1) as nat)
    }
}

/// A cryptographic generator seeded by the capacitor noise source.
///
/// It is the ChaCha20 keystream under the seed, handed out in order: each
/// request takes the next bytes of the stream.
pub struct CapRng {
    key: [u8; 32],
    word_pos: u128,
}

/// Abstract state of a [`CapRng`]: the key, and where in its stream the next
/// request starts, in 32-bit words.
pub ghost struct CapRngState {
    pub key: Seq<u8>,
    pub word_pos: int,
}

impl View for CapRng {
    type V = CapRngState;

    closed spec fn view(&self) -> CapRngState {
        CapRngState { key: self.key@, word_pos: self.word_pos as int }
    }
}

impl CapRng {
    /// A generator at the start of the keystream under `seed`.
    pub fn from_seed(seed: [u8; 32]) -> (r: CapRng)
        ensures
            r@.key == seed@,
            r@.word_pos == 0,
    {
        CapRng { key: seed, word_pos: 0 }
    }

    /// Fills `dest` with the next bytes of the stream.
    pub fn fill_bytes(&mut self, dest: &mut [u8])
        ensures
            final(dest)@.len() == old(dest)@.len(),
            final(dest)@ == chacha20_keystream(old(self)@.key, stream_pos(old(self)@.word_pos), old(dest)@.len()),
            final(self)@.key == old(self)@.key,
            final(self)@.word_pos == advance(old(self)@.word_pos, old(dest)@.len()),
    {
        self.word_pos = chacha20_fill(&self.key, self.word_pos, dest);
    }

    /// The next 32-bit word of the stream.
    pub fn next_u32(&mut self) -> (r: u32)
        ensures
            r as int == le_value(chacha20_keystream(old(self)@.key, stream_pos(old(self)@.word_pos), 4)),
            final(self)@.key == old(self)@.key,
            final(self)@.word_pos == advance(old(self)@.word_pos, 4),
    {
        let mut buf = [0u8; 4];
        self.fill_bytes(&mut buf);
        proof {
            reveal_with_fuel(le_value, 5);
        }
        buf[0] as u32 + 0x100 * (buf[1] as u32 + 0x100 * (buf[2] as u32 + 0x100 * (buf[3] as u32)))
    }

    /// The next two 32-bit words of the stream, the first as the low half.
    pub fn next_u64(&mut self) -> (r: u64)
        ensures
            r as int == le_value(chacha20_keystream(old(self)@.key, stream_pos(old(self)@.word_pos), 8)),
            final(self)@.key == old(self)@.key,
            final(self)@.word_pos == advance(old(self)@.word_pos, 8),
    {
        let mut buf = [0u8; 8];
        self.fill_bytes(&mut buf);
        proof {
            reveal_with_fuel(le_value, 9);
        }
        let mut r: u64 = 0;
        let mut i: usize = 8;
        while i > 0
            invariant
                i <= 8,
                buf@.len() == 8,
                r as int == le_value(buf@.subrange(i as int, 8)),
                r < pow256((8 - i) as nat),
                pow256((8 - i) as nat) <= 0x1_0000_0000_0000_0000,
            decreases i,
        {
            i = i - 1;
            proof {
                assert(buf@.subrange(i as int, 8).drop_first() == buf@.subrange(i + 1, 8));
                assert(pow256((8 - i) as nat) == 256 * pow256((8 - i - 1) as nat));
                reveal_with_fuel(pow256, 9);
            }
            r = buf[i] as u64 + 0x100 * r;
        }
        assert(buf@.subrange(0, 8) == buf@);
        r
    }
}

/// Number of health-checked samples that make a seed.
///
/// Assuming a conservative 0.01 bits of min-entropy per sample, 25600 samples
/// carry the 256 bits of the seed.
pub const SEED_SAMPLES: usize = 256 * 100;

/// Health test failures tolerated while seeding; one more is fatal.
pub const MAX_FAILURES: usize = 3;

/// Abstract state of an [`Extractor`].
pub ghost struct ExtractorState {
    /// Every sample value hashed since the last seed was drawn.
    pub absorbed: Seq<u8>,
    pub health: HealthState,
    /// Valid samples that passed the health tests since the last failure.
    pub valid_samples: nat,
    /// Health test failures so far.
    pub failures: nat,
}

impl ExtractorState {
    pub open spec fn fresh() -> ExtractorState {
        ExtractorState {
            absorbed: Seq::empty(),
            health: HealthState::fresh(),
            valid_samples: 0,
            failures: 0,
        }
    }

    /// Still gathering: neither seeded nor failed.
    pub open spec fn collecting(self) -> bool {
        self.valid_samples < SEED_SAMPLES && self.failures <= MAX_FAILURES
    }

    /// A valid sample is health-checked; an invalid one is only hashed.
    pub open spec fn step(self, v: u8, valid: bool) -> ExtractorState {
        let fails = valid && !self.health.passes(v);
        ExtractorState {
            absorbed: self.absorbed.push(v),
            health: if valid {
                self.health.step(v)
            } else {
                self.health
            },
            valid_samples: if !valid {
                self.valid_samples
            } else if fails {
                0
            } else {
                self.valid_samples + 1
            },
            failures: if fails {
                self.failures + 1
            } else {
                self.failures
            },
        }
    }

    /// The state once each of `samples` has been fed, in order.
    pub open spec fn after(self, samples: Seq<(u8, bool)>) -> ExtractorState
        decreases samples.len(),
    {
        if samples.len() == 0 {
            self
        } else {
            self.after(samples.drop_last()).step(samples.last().0, samples.last().1)
        }
    }
}

/// Turns a stream of raw samples into a seeded [`CapRng`].
///
/// Every sample is hashed, valid or not. Valid samples are also run through
/// the health tests: a failure restarts the count of good samples (the hash
/// keeps what it has) and too many failures abandon the attempt.
pub struct Extractor {
    hasher: Hasher,
    health: TotalHealth,
    valid_samples: usize,
    failures: usize,
}

impl View for Extractor {
    type V = ExtractorState;

    closed spec fn view(&self) -> ExtractorState {
        ExtractorState {
            absorbed: absorbed(self.hasher),
            health: self.health@,
            valid_samples: self.valid_samples as nat,
            failures: self.failures as nat,
        }
    }
}

impl Extractor {
    pub fn new() -> (r: Extractor)
        ensures
            r@ == ExtractorState::fresh(),
    {
        Extractor { hasher: hasher_new(), health: TotalHealth::new(), valid_samples: 0, failures: 0 }
    }

    /// Whether the extractor still takes samples.
    pub fn collecting(&self) -> (r: bool)
        ensures
            r == self@.collecting(),
    {
        self.valid_samples < SEED_SAMPLES && self.failures <= MAX_FAILURES
    }

    /// Takes one sample; `valid` is false for a sample whose timing is not
    /// to be trusted, which is hashed but not health-checked.
    ///
    /// Returns the generator once enough good samples were seen, and
    /// `HealthTestExhausted` once the health tests failed too often.
    pub fn feed(&mut self, v: u8, valid: bool) -> (r: Result<Option<CapRng>, RngError>)
        requires
            old(self)@.collecting(),
        ensures
            ({
                let s = old(self)@.step(v, valid);
                match r {
                    Err(e) => {
                        &&& e == RngError::HealthTestExhausted
                        &&& s.failures > MAX_FAILURES
                        &&& final(self)@ == s
                    },
                    Ok(None) => {
                        &&& s.collecting()
                        &&& final(self)@ == s
                    },
                    Ok(Some(g)) => {
                        &&& s.failures <= MAX_FAILURES
                        &&& s.valid_samples >= SEED_SAMPLES
                        &&& g@ == (CapRngState { key: sha256(s.absorbed), word_pos: 0 })
                        &&& final(self)@ == (ExtractorState { absorbed: Seq::empty(), ..s })
                    },
                }
            }),
    {
        // even invalid samples are included in the hash
        hasher_update(&mut self.hasher, v);
        if valid {
            if self.health.test(v).is_err() {
                self.valid_samples = 0;
                self.failures = self.failures + 1;
                if self.failures > MAX_FAILURES {
                    return Err(RngError::HealthTestExhausted);
                }
            } else {
                self.valid_samples = self.valid_samples + 1;
            }
        }
        if self.valid_samples < SEED_SAMPLES {
            Ok(None)
        } else {
            let seed = hasher_finalize_reset(&mut self.hasher);
            Ok(Some(CapRng::from_seed(seed)))
        }
    }
}

/// The error code this library reports through `getrandom`: getrandom's
/// first custom code (`0xC000_0000`) plus an arbitrary offset.
pub const CAPRAND_ERR: u32 = 0xC000_0000 + 510132368;

#[verifier::external_type_specification]
#[verifier::external_body]
pub struct ExGetrandomError(getrandom::Error);

/// Relies on getrandom's `From<NonZeroU32> for Error`: an error that carries
/// `code`.
#[verifier::external_body]
fn getrandom_error(code: u32) -> (e: getrandom::Error)
    requires
        code != 0,
{
    getrandom::Error::from(core::num::NonZeroU32::new(code).unwrap())
}

/// The `getrandom` error for every failure of this library.
pub fn error() -> getrandom::Error {
    getrandom_error(CAPRAND_ERR)
}

/// The single slot that holds the installed generator, if any.
pub struct Registry {
    rng: Option<CapRng>,
}

impl View for Registry {
    type V = Option<CapRngState>;

    closed spec fn view(&self) -> Option<CapRngState> {
        match self.rng {
            Some(g) => Some(g@),
            None => None,
        }
    }
}

impl Registry {
    /// An empty slot.
    pub fn new() -> (r: Registry)
        ensures
            r@ is None,
    {
        Registry { rng: None }
    }

    /// Installs `rng`, dropping any generator installed before.
    pub fn setup(&mut self, rng: CapRng)
        ensures
            final(self)@ == Some(rng@),
    {
        self.rng = Some(rng);
    }

    /// Fills `buf` from the installed generator; `NotSeeded`, with `buf`
    /// untouched, when there is none.
    pub fn fill(&mut self, buf: &mut [u8]) -> (r: Result<(), RngError>)
        ensures
            match old(self)@ {
                None => {
                    &&& r == Err::<(), RngError>(RngError::NotSeeded)
                    &&& final(self)@ is None
                    &&& final(buf)@ == old(buf)@
                },
                Some(g) => {
                    &&& r is Ok
                    &&& final(buf)@.len() == old(buf)@.len()
                    &&& final(buf)@ == chacha20_keystream(g.key, stream_pos(g.word_pos), old(buf)@.len())
                    &&& final(self)@ == Some(CapRngState { key: g.key, word_pos: advance(g.word_pos, old(buf)@.len()) })
                },
            },
    {
        match &mut self.rng {
            Some(g) => {
                g.fill_bytes(buf);
                Ok(())
            },
            None => Err(RngError::NotSeeded),
        }
    }
}

/// The values of `samples`, without their valid flags.
pub open spec fn sample_values(samples: Seq<(u8, bool)>) -> Seq<u8> {
    samples.map_values(|x: (u8, bool)| x.0)
}

/// Extraction is deterministic: from a given state, what the extractor
/// hashes is what it held followed by the values of the samples fed, valid
/// or not, so the seed [`Extractor::feed`] draws is a function of the sample
/// sequence alone; the counters and health state after the samples are a
/// function of that state and the samples too.
pub proof fn lemma_extraction_deterministic(e: ExtractorState, samples: Seq<(u8, bool)>)
    ensures
        e.after(samples).absorbed == e.absorbed + sample_values(samples),
    decreases samples.len(),
{
    if samples.len() > 0 {
        lemma_extraction_deterministic(e, samples.drop_last());
        assert(sample_values(samples) == sample_values(samples.drop_last()).push(samples.last().0));
    } else {
        assert(sample_values(samples) == Seq::<u8>::empty());
    }
}

/// Successive requests take successive stretches of the keystream: while the
/// stream's period is not exhausted, a request for `b` bytes that follows one
/// for `a` bytes from word `p` starts at the first word after the first
/// request's last word, so the two never share a word.
pub proof fn lemma_successive_fills_disjoint(p: int, a: nat, b: nat)
    requires
        0 <= p,
        p + words_for(a) + words_for(b) < STREAM_WORDS,
    ensures
        advance(p, a) == p + words_for(a),
        advance(advance(p, a), b) == p + words_for(a) + words_for(b),
        a > 0 ==> p + (a - 1) / 4 < advance(p, a),
{
    let s = STREAM_WORDS as int;
    assert(stream_pos(p) == p) by {
        vstd::arithmetic::div_mod::lemma_small_mod(p as nat, s as nat);
    }
    assert(stream_pos(p + words_for(a)) == p + words_for(a)) by {
        vstd::arithmetic::div_mod::lemma_small_mod((p + words_for(a)) as nat, s as nat);
    }
    assert(stream_pos(p + words_for(a) + words_for(b)) == p + words_for(a) + words_for(b)) by {
        vstd::arithmetic::div_mod::lemma_small_mod((p + words_for(a) + words_for(b)) as nat, s as nat);
    }
}

/// A session's first, invalid sample `first`, then `k` valid copies of `c`:
/// what a pin stuck at one level produces.
pub open spec fn constant_samples(first: u8, c: u8, k: nat) -> Seq<(u8, bool)> {
    seq![(first, false)] + Seq::new(k, |_i: int| (c, true))
}

proof fn lemma_constant_state(first: u8, c: u8, k: nat)
    requires
        k <= 204,
    ensures
        ({
            let st = ExtractorState::fresh().after(constant_samples(first, c, k));
            &&& st.health.repetition == (RepetitionState {
                prev: if k == 0 { 0u8 } else { c },
                count: k,
                cutoff: REPETITION_CUTOFF as nat,
            })
            &&& st.health.adaptive == if k == 0 {
                ProportionState::fresh(PROPORTION_WINDOW as nat, PROPORTION_CUTOFF as nat)
            } else {
                ProportionState {
                    val: c,
                    matches: (k - 1) as nat,
                    i: k,
                    window: PROPORTION_WINDOW as nat,
                    cutoff: PROPORTION_CUTOFF as nat,
                }
            }
            &&& st.valid_samples == if k <= 200 { k } else { 0 }
            &&& st.failures == if k <= 200 { 0 } else { (k - 200) as nat }
        }),
    decreases k,
{
    let e = ExtractorState::fresh();
    if k == 0 {
        let s = constant_samples(first, c, 0);
        assert(s.drop_last() == Seq::<(u8, bool)>::empty());
        assert(e.after(Seq::<(u8, bool)>::empty()) == e);
    } else {
        lemma_constant_state(first, c, (k - 1) as nat);
        let s = constant_samples(first, c, k);
        assert(s.drop_last() == constant_samples(first, c, (k - 1) as nat));
        assert(s.last() == (c, true));
    }
}

/// A pin that gives the same sample every time cannot seed the generator:
/// after its first, invalid sample, the extractor takes 203 valid copies of
/// the value (the repetition test fails from the 201st on, three failures
/// tolerated), and the 204th gives [`Extractor::feed`] its
/// `HealthTestExhausted` error.
pub proof fn lemma_constant_source_exhausts(first: u8, c: u8)
    ensures
        forall|k: nat| k <= 203 ==> (#[trigger] ExtractorState::fresh().after(constant_samples(first, c, k))).collecting(),
        ExtractorState::fresh().after(constant_samples(first, c, 204)).failures > MAX_FAILURES,
{
    assert forall|k: nat| k <= 203 implies (#[trigger] ExtractorState::fresh().after(constant_samples(first, c, k))).collecting() by {
        lemma_constant_state(first, c, k);
    }
    lemma_constant_state(first, c, 204);
}

} // verus!
