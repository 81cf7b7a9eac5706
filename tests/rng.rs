use caprand::error::RngError;
use caprand::rng::{error, CapRng, Extractor, Registry, CAPRAND_ERR, MAX_FAILURES, SEED_SAMPLES};
use rand_chacha::rand_core::{RngCore, SeedableRng};
use rand_chacha::ChaCha20Rng;
use sha2::{Digest, Sha256};

#[test]
fn error_code() {
    assert_eq!(error().code().get(), CAPRAND_ERR);
    assert_eq!(CAPRAND_ERR, getrandom::Error::CUSTOM_START + 510132368);
    assert!(error().raw_os_error().is_none());
}

#[test]
fn cap_rng_is_chacha20_keystream() {
    let seed = [0x5au8; 32];
    let mut ours = CapRng::from_seed(seed);
    let mut theirs = ChaCha20Rng::from_seed(seed);
    // odd lengths spend whole words
    for len in [0usize, 1, 3, 4, 5, 64, 100, 257, 1000] {
        let mut a = vec![0u8; len];
        let mut b = vec![0u8; len];
        ours.fill_bytes(&mut a);
        theirs.fill_bytes(&mut b);
        assert_eq!(a, b, "len {}", len);
    }
    assert_eq!(ours.next_u32(), theirs.next_u32());
    assert_eq!(ours.next_u64(), theirs.next_u64());
    assert_eq!(ours.next_u32(), theirs.next_u32());
    assert_eq!(ours.next_u64(), theirs.next_u64());
}

#[test]
fn cap_rng_known_output() {
    // ChaCha20 with an all-zero key and nonce: RFC 7539 test vector
    let mut g = CapRng::from_seed([0; 32]);
    let mut buf = [0u8; 8];
    g.fill_bytes(&mut buf);
    assert_eq!(buf, [0x76, 0xb8, 0xe0, 0xad, 0xa0, 0xf1, 0x3d, 0x90]);
    let mut g = CapRng::from_seed([0; 32]);
    assert_eq!(g.next_u32(), 0xade0b876);
    assert_eq!(g.next_u64(), 0xe56a5d40_903df1a0);
}

#[test]
fn fill_before_setup_is_not_seeded() {
    let mut reg = Registry::new();
    let mut buf = [0xaau8; 16];
    assert_eq!(reg.fill(&mut buf), Err(RngError::NotSeeded));
    assert_eq!(buf, [0xaa; 16]);
}

#[test]
fn fill_after_setup_populates_and_differs() {
    let mut reg = Registry::new();
    reg.setup(CapRng::from_seed([3; 32]));
    let mut prev: Vec<u8> = Vec::new();
    for len in [1usize, 16, 16, 33, 4096] {
        let mut buf = vec![0u8; len];
        assert_eq!(reg.fill(&mut buf), Ok(()));
        if len >= 16 {
            assert!(buf.iter().any(|&b| b != 0));
            assert_ne!(buf, prev);
        }
        prev = buf;
    }
}

#[test]
fn setup_replaces_previous_generator() {
    let mut reg = Registry::new();
    reg.setup(CapRng::from_seed([1; 32]));
    let mut a = [0u8; 32];
    reg.fill(&mut a).unwrap();
    reg.setup(CapRng::from_seed([2; 32]));
    let mut b = [0u8; 32];
    reg.fill(&mut b).unwrap();
    let mut expect = [0u8; 32];
    ChaCha20Rng::from_seed([2; 32]).fill_bytes(&mut expect);
    assert_eq!(b, expect);
}

#[test]
fn fill_output_looks_uniform() {
    let mut reg = Registry::new();
    reg.setup(CapRng::from_seed([0x42; 32]));
    let mut buf = vec![0u8; 1 << 20];
    reg.fill(&mut buf).unwrap();
    let mut hist = [0u64; 256];
    for &b in &buf {
        hist[b as usize] += 1;
    }
    let expect = buf.len() as f64 / 256.0;
    let chi2: f64 = hist.iter().map(|&c| (c as f64 - expect).powi(2) / expect).sum();
    // 255 degrees of freedom; 400 is far in the tail
    assert!(chi2 < 400.0, "chi-square {}", chi2);
}

/// Feeds `samples` until the extractor finishes.
fn extract(samples: &[(u8, bool)]) -> Result<Option<CapRng>, RngError> {
    let mut e = Extractor::new();
    for &(v, valid) in samples {
        assert!(e.collecting());
        match e.feed(v, valid)? {
            Some(g) => return Ok(Some(g)),
            None => {}
        }
    }
    Ok(None)
}

fn varied_samples(n: usize, seed: u8) -> Vec<(u8, bool)> {
    let mut r = ChaCha20Rng::from_seed([seed; 32]);
    let mut s = vec![(0x3f, false)];
    for _ in 0..n {
        s.push(((r.next_u32() % 64) as u8, true));
    }
    s
}

#[test]
fn extractor_seed_is_digest_of_all_values() {
    let samples = varied_samples(SEED_SAMPLES, 1);
    let mut g = extract(&samples).unwrap().expect("seeded");
    let mut h = Sha256::new();
    for &(v, _) in &samples {
        h.update([v]);
    }
    let seed: [u8; 32] = h.finalize().into();
    let mut expect = ChaCha20Rng::from_seed(seed);
    let mut a = [0u8; 64];
    let mut b = [0u8; 64];
    g.fill_bytes(&mut a);
    expect.fill_bytes(&mut b);
    assert_eq!(a, b);
}

#[test]
fn extractor_is_deterministic() {
    let samples = varied_samples(SEED_SAMPLES + 10, 9);
    let mut g1 = extract(&samples).unwrap().unwrap();
    let mut g2 = extract(&samples).unwrap().unwrap();
    let mut a = vec![0u8; 1000];
    let mut b = vec![0u8; 1000];
    g1.fill_bytes(&mut a);
    g2.fill_bytes(&mut b);
    assert_eq!(a, b);
    // a different sequence gives a different stream
    let mut g3 = extract(&varied_samples(SEED_SAMPLES, 10)).unwrap().unwrap();
    let mut c = vec![0u8; 1000];
    g3.fill_bytes(&mut c);
    assert_ne!(a, c);
}

#[test]
fn extractor_needs_seed_samples_valid_values() {
    let samples = varied_samples(SEED_SAMPLES - 1, 4);
    assert!(matches!(extract(&samples), Ok(None)));
    // invalid samples do not count
    let mut e = Extractor::new();
    for i in 0..(2 * SEED_SAMPLES) {
        assert!(matches!(e.feed(i as u8, false), Ok(None)));
    }
}

#[test]
fn extractor_gives_up_after_repeated_health_failures() {
    let mut e = Extractor::new();
    let mut failures_seen = 0;
    let mut fed = 0usize;
    loop {
        fed += 1;
        match e.feed(7, true) {
            Ok(None) => {}
            Ok(Some(_)) => panic!("seeded from a constant source"),
            Err(err) => {
                assert_eq!(err, RngError::HealthTestExhausted);
                break;
            }
        }
        failures_seen = fed;
    }
    assert!(!e.collecting());
    // the repetition test fails on the 201st copy and on each one after it
    assert_eq!(fed, 201 + MAX_FAILURES);
    assert_eq!(failures_seen, 200 + MAX_FAILURES);
}
