//! A small deterministic xorshift generator: the injected source of
//! randomness. Seeding it identically reproduces a run exactly, which keeps
//! population resets testable.

use vstd::prelude::*;

verus! {

/// One xorshift advance of the generator state.
pub open spec fn next_state(x: u64) -> u64 {
    let a = x ^ (x << 13u64);
    let b = a ^ (a >> 7u64);
    b ^ (b << 17u64)
}

/// The state actually stored for a requested seed: zero (the fixed point of
/// xorshift) is replaced by an arbitrary odd constant.
pub open spec fn seed_spec(seed: u64) -> u64 {
    if seed == 0 {
        0x9E3779B97F4A7C15u64
    } else {
        seed
    }
}

/// The value drawn from state `s` for the inclusive range `[lo, hi]`.
pub open spec fn draw_spec(s: u64, lo: int, hi: int) -> int {
    lo + (next_state(s) as int) % (hi - lo + 1)
}

/// The generator state after `k` draws.
pub open spec fn state_after(s: u64, k: nat) -> u64
    decreases k,
{
    if k == 0 {
        s
    } else {
        next_state(state_after(s, (k - 1) as nat))
    }
}

/// Draw counts compose: `a + b` draws take the state where `b` draws take
/// the state after `a` draws.
pub proof fn lemma_state_after_add(s: u64, a: nat, b: nat)
    ensures
        state_after(s, a + b) == state_after(state_after(s, a), b),
    decreases b,
{
    if b > 0 {
        lemma_state_after_add(s, a, (b - 1) as nat);
        assert(state_after(s, a + b) == next_state(state_after(s, (a + b - 1) as nat)));
        assert(state_after(state_after(s, a), b) == next_state(
            state_after(state_after(s, a), (b - 1) as nat),
        ));
    }
}

/// A seedable xorshift generator.
pub struct SeededRng {
    pub state: u64,
}

impl SeededRng {
    /// Create a generator from a seed.
    pub fn new(seed: u64) -> (r: SeededRng)
        ensures
            r.state == seed_spec(seed),
    {
        SeededRng { state: if seed == 0 { 0x9E3779B97F4A7C15 } else { seed } }
    }

    /// Draw the next value in `[lo, hi]` (both ends included) and advance.
    pub fn gen_range(&mut self, lo: i64, hi: i64) -> (r: i64)
        requires
            -0x2000000000000000 <= lo <= hi <= 0x2000000000000000,
        ensures
            final(self).state == next_state(old(self).state),
            r == draw_spec(old(self).state, lo as int, hi as int),
            lo <= r <= hi,
    {
        let s = self.state;
        let a = s ^ (s << 13);
        let b = a ^ (a >> 7);
        let ns = b ^ (b << 17);
        proof {
            assert(ns == next_state(s));
        }
        self.state = ns;
        let span: u64 = ((hi - lo) as u64) + 1;
        let off: u64 = ns % span;
        proof {
            assert(off == (ns as int) % (span as int));
            assert(off < span);
        }
        lo + (off as i64)
    }
}

} // verus!
