use nraps::Prn32;

/// Plain re-computation of the generator's step, kept alongside the tests
/// as the reference for exact expected outputs.
struct Reference {
    state: u64,
    inc: u64,
}

impl Reference {
    fn new_seeded(seed: u64, stream_id: u64) -> Self {
        let inc = (stream_id << 1) | 1;
        let mut r = Reference { state: 0, inc };
        r.next();
        r.state = seed.wrapping_add(r.inc);
        r.next();
        r
    }

    fn next(&mut self) -> u32 {
        let old = self.state;
        self.state = old.wrapping_mul(6364136223846793005).wrapping_add(self.inc);
        let xorshifted = (((old >> 18) ^ old) >> 27) as u32;
        xorshifted.rotate_right((old >> 59) as u32)
    }
}

#[test]
fn seeded_stream_matches_reference_step() {
    let mut rng = Prn32::new_seeded(42, 54);
    let mut reference = Reference::new_seeded(42, 54);
    for _ in 0..64 {
        assert_eq!(rng.next_u32(), reference.next());
    }
}

#[test]
fn seeded_stream_known_values() {
    // Worked out by hand from the multiplier, the stream increment
    // (54 << 1) | 1 and the two warm-up advances of the constructor.
    let mut rng = Prn32::new_seeded(42, 54);
    assert_eq!(rng.next_u32(), 2707161783);
    assert_eq!(rng.next_u32(), 2068313097);
    assert_eq!(rng.next_u32(), 3122475824);
    assert_eq!(rng.next_u32(), 2211639955);
    assert_eq!(rng.next_u32(), 3215226955);
}

#[test]
fn seeded_stream_is_reproducible() {
    let mut a = Prn32::new_seeded(987654321, 7);
    let mut b = Prn32::new_seeded(987654321, 7);
    let first: Vec<u32> = (0..8).map(|_| a.next_u32()).collect();
    let second: Vec<u32> = (0..8).map(|_| b.next_u32()).collect();
    assert_eq!(first, second);
}

#[test]
fn distinct_streams_diverge() {
    // Same seed, different stream ids: the two streams never reproduce an
    // identical length-8 subsequence in a short window (spot check).
    let mut a = Prn32::new_seeded(123456789, 1);
    let mut b = Prn32::new_seeded(123456789, 2);
    let from_a: Vec<u32> = (0..64).map(|_| a.next_u32()).collect();
    let from_b: Vec<u32> = (0..64).map(|_| b.next_u32()).collect();
    for wa in from_a.windows(8) {
        for wb in from_b.windows(8) {
            assert_ne!(wa, wb);
        }
    }
}

#[test]
fn unit_interval_draws() {
    // nextFloat = next_u32 scaled by 2^-32 stays in [0, 1) for a million
    // consecutive draws from a fixed seed and stream. The scaling by the
    // exact power of two is lossless in f64, so the bound is exact.
    let mut rng = Prn32::new_seeded(20231111, 3);
    for _ in 0..1_000_000u32 {
        let f = (rng.next_u32() as f64) / 4294967296.0;
        assert!(0.0 <= f && f < 1.0);
    }
}

#[test]
fn wall_clock_streams_run() {
    let mut a = Prn32::new(0);
    let mut b = Prn32::new(1);
    for _ in 0..100 {
        a.next_u32();
        b.next_u32();
    }
}
