//! Permuted linear-congruential pseudo-random generator with 64-bit state
//! and 32-bit output. The stream id selects the generator's odd additive
//! increment, so distinct ids yield independent streams; each worker thread
//! owns one instance and no state is shared.
use vstd::prelude::*;

verus! {

/// The fixed multiplier of the linear-congruential step.
pub const MULTIPLIER: u64 = 6364136223846793005;

/// 64-bit-state generator; all state values are possible, while the
/// increment selects the stream and is always odd.
pub struct PCG32 {
    state: u64,
    inc: u64,
}

pub type Prn32 = PCG32;

/// The odd per-stream additive increment selected by a stream id.
pub open spec fn stream_increment(stream_id: u64) -> u64 {
    (stream_id << 1) | 1
}

/// One linear-congruential advance of the 64-bit state, wrapping modulo 2^64.
pub open spec fn lcg_advance(state: u64, inc: u64) -> u64 {
    state.wrapping_mul(MULTIPLIER).wrapping_add(inc)
}

/// Right rotation of a 32-bit word by `r` places, `r < 32`.
pub open spec fn rotr32(x: u32, r: u32) -> u32 {
    if r == 0 {
        x
    } else {
        (x >> r) | (x << ((32 - r) as u32))
    }
}

/// The output permutation: an xor-shift folds the high state bits into the
/// middle, and the topmost five state bits pick a rotation of the result.
pub open spec fn pcg_output(state: u64) -> u32 {
    rotr32((((state >> 18) ^ state) >> 27) as u32, (state >> 59) as u32)
}

/// Distinct stream ids below 2^63 select distinct increments, and every
/// selected increment is odd; streams therefore never share an increment.
pub proof fn lemma_distinct_streams(a: u64, b: u64)
    requires
        a < 0x8000_0000_0000_0000,
        b < 0x8000_0000_0000_0000,
        a != b,
    ensures
        stream_increment(a) != stream_increment(b),
        stream_increment(a) & 1 == 1,
{
    assert(((a << 1) | 1) != ((b << 1) | 1) && ((a << 1) | 1) & 1 == 1) by (bit_vector)
        requires
            a < 0x8000_0000_0000_0000,
            b < 0x8000_0000_0000_0000,
            a != b,
    ;
}

impl Prn32 {
    /// The current 64-bit state.
    pub closed spec fn spec_state(&self) -> u64 {
        self.state
    }

    /// The stream increment this generator was built with.
    pub closed spec fn spec_inc(&self) -> u64 {
        self.inc
    }

    /// Creates the stream selected by `thread_id`, seeded from the wall
    /// clock xor-ed with the id. Only the increment is promised: the seed
    /// depends on the moment of the call.
    pub fn new(thread_id: u64) -> (r: Self)
        ensures
            r.spec_inc() == stream_increment(thread_id),
    {
        let seed = now_nanos() ^ thread_id;
        Self::new_seeded(seed, thread_id)
    }

    /// Creates the stream selected by `thread_id` from a caller-chosen seed,
    /// for reproducible runs: the state is fully determined by the arguments.
    pub fn new_seeded(seed: u64, thread_id: u64) -> (r: Self)
        ensures
            r.spec_inc() == stream_increment(thread_id),
            r.spec_state() == lcg_advance(
                seed.wrapping_add(stream_increment(thread_id)),
                stream_increment(thread_id),
            ),
    {
        // Start in the zero state with the stream increment, step once away
        // from zero, mix the seed into the state, and step once more to
        // decorrelate the first output from the raw seed.
        let mut rng = PCG32 { state: 0, inc: (thread_id << 1) | 1 };
        rng.next_u32();
        rng.state = seed.wrapping_add(rng.inc);
        rng.next_u32();
        rng
    }

    /// Advances the state by one linear-congruential step and returns the
    /// permuted output of the state before the advance.
    pub fn next_u32(&mut self) -> (r: u32)
        ensures
            final(self).spec_state() == lcg_advance(old(self).spec_state(), old(self).spec_inc()),
            final(self).spec_inc() == old(self).spec_inc(),
            r == pcg_output(old(self).spec_state()),
    {
        let old_state = self.state;
        self.state = old_state.wrapping_mul(MULTIPLIER).wrapping_add(self.inc);

        let xorshifted: u32 = (((old_state >> 18) ^ old_state) >> 27) as u32;
        let rot: u32 = (old_state >> 59) as u32;
        proof {
            assert((old_state >> 59) < 32) by (bit_vector);
        }
        if rot == 0 {
            xorshifted
        } else {
            (xorshifted >> rot) | (xorshifted << (32 - rot))
        }
    }
}

/// Relies on std::time::SystemTime::now to read the wall clock as a
/// nanosecond count; the value depends on the moment of the call, so
/// nothing is promised of it.
#[verifier::external_body]
fn now_nanos() -> u64 {
    std::time::SystemTime::now()
        .duration_since(std::time::UNIX_EPOCH)
        .map(|d| d.as_nanos() as u64)
        .unwrap_or(0)
}

} // verus!
