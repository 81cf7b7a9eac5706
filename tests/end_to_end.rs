use caprand::cap::RawNoise;
use caprand::error::RngError;
use caprand::rng::{CapRng, Extractor, Registry};
use rand_chacha::rand_core::{RngCore, SeedableRng};
use rand_chacha::ChaCha20Rng;

const PIN: u8 = 12;

/// The reads of the burst that ends the wait, for a pin that reads high from
/// cycle `rise` on. Each turn of the polling loop takes 9 cycles and reads
/// the input on its first six.
fn burst_for_rise(rise: u32) -> [u32; 5] {
    let hi = 1u32 << PIN;
    // unrelated pins toggle too
    let noise = 0x0550_0a0a & !hi;
    let mut turn = 0u32;
    while 9 * turn + 5 < rise {
        turn += 1;
    }
    let mut reads = [noise; 5];
    for (j, r) in reads.iter_mut().enumerate() {
        if 9 * turn + j as u32 >= rise {
            *r |= hi;
        }
    }
    reads
}

/// Seeds a registry from a simulated pin whose rise times `rise` gives.
fn setup_with(reg: &mut Registry, mut rise: impl FnMut() -> u32) -> Result<(), RngError> {
    let mut noise = RawNoise::new(PIN, 1, 0x56, 0x1f);
    let mut e = Extractor::new();
    loop {
        let (v, valid) = noise.next(burst_for_rise(rise()));
        if let Some(g) = e.feed(v, valid)? {
            reg.setup(g);
            return Ok(());
        }
    }
}

#[test]
fn simulated_pin_with_jitter_seeds() {
    let mut source = ChaCha20Rng::from_seed([0x11; 32]);
    let mut reg = Registry::new();
    let r = setup_with(&mut reg, || 300 + source.next_u32() % 27);
    assert_eq!(r, Ok(()));
    let mut a = [0u8; 64];
    let mut b = [0u8; 64];
    assert_eq!(reg.fill(&mut a), Ok(()));
    assert_eq!(reg.fill(&mut b), Ok(()));
    assert_ne!(a, b);
}

#[test]
fn simulated_pin_same_bias_same_stream() {
    let mut out = Vec::new();
    for _ in 0..2 {
        let mut source = ChaCha20Rng::from_seed([0x22; 32]);
        let mut reg = Registry::new();
        setup_with(&mut reg, || 120 + source.next_u32() % 40).unwrap();
        let mut buf = [0u8; 128];
        reg.fill(&mut buf).unwrap();
        out.push(buf);
    }
    assert_eq!(out[0], out[1]);
}

#[test]
fn simulated_constant_pin_exhausts_health_tests() {
    let mut reg = Registry::new();
    let r = setup_with(&mut reg, || 0);
    assert_eq!(r, Err(RngError::HealthTestExhausted));
    let mut buf = [0u8; 8];
    assert_eq!(reg.fill(&mut buf), Err(RngError::NotSeeded));
}

#[test]
fn simulated_constant_slow_pin_exhausts_health_tests() {
    let mut reg = Registry::new();
    let r = setup_with(&mut reg, || 1000);
    assert_eq!(r, Err(RngError::HealthTestExhausted));
}

#[test]
fn generator_from_seed_serves_registry() {
    let mut reg = Registry::new();
    reg.setup(CapRng::from_seed([9; 32]));
    let mut buf = [0u8; 3];
    assert_eq!(reg.fill(&mut buf), Ok(()));
}
