//! Deterministic generators and the formulas of simulated feeds.

use vstd::prelude::*;

verus! {

/// 2^64.
pub open spec fn modulus() -> int {
    0x1_0000_0000_0000_0000
}

/// The successor of a splitmix64 state.
pub open spec fn split_state(s: u64) -> u64 {
    ((s + 0x9E37_79B9_7F4A_7C15) % modulus()) as u64
}

/// The output of a splitmix64 state.
pub open spec fn split_output(s: u64) -> u64 {
    let z1 = ((s ^ (s >> 30u64)) * 0xBF58_476D_1CE4_E5B9 % modulus()) as u64;
    let z2 = ((z1 ^ (z1 >> 27u64)) * 0x94D0_49BB_1331_11EB % modulus()) as u64;
    z2 ^ (z2 >> 31u64)
}

/// The splitmix64 generator.
pub struct Rng(pub u64);

impl Rng {
    /// The next number.
    pub fn u64(&mut self) -> (r: u64)
        ensures
            final(self).0 == split_state(old(self).0),
            r == split_output(split_state(old(self).0)),
    {
        self.0 = self.0.wrapping_add(0x9E37_79B9_7F4A_7C15);
        let s: u64 = self.0;
        let z1: u64 = (s ^ (s >> 30u64)).wrapping_mul(0xBF58_476D_1CE4_E5B9);
        let z2: u64 = (z1 ^ (z1 >> 27u64)).wrapping_mul(0x94D0_49BB_1331_11EB);
        z2 ^ (z2 >> 31u64)
    }

    /// The 53 high bits of the next number.
    pub fn high53(&mut self) -> (r: u64)
        ensures
            final(self).0 == split_state(old(self).0),
            r == split_output(split_state(old(self).0)) / 2048,
            r < 0x20_0000_0000_0000,
    {
        self.u64() / 2048
    }
}

/// The successor of a state of the linear congruential generator.
pub open spec fn lcg_state(s: u64) -> u64 {
    ((s * 6364136223846793005 + 1442695040888963407) % modulus()) as u64
}

/// The state after `n` steps.
pub open spec fn lcg_after(s: u64, n: nat) -> u64
    decreases n,
{
    if n == 0 {
        s
    } else {
        lcg_state(lcg_after(s, (n - 1) as nat))
    }
}

/// The next state of the linear congruential generator.
pub fn lcg_next(s: u64) -> (r: u64)
    ensures
        r == lcg_state(s),
{
    proof {
        vstd::arithmetic::div_mod::lemma_add_mod_noop_right(
            1442695040888963407,
            s * 6364136223846793005,
            modulus(),
        );
    }
    s.wrapping_mul(6364136223846793005).wrapping_add(1442695040888963407)
}

/// The 48 high bits of a state.
pub fn lcg_high48(s: u64) -> (r: u64)
    ensures
        r == s / 65536,
        r < 0x1_0000_0000_0000,
{
    s / 65536
}

/// `n` bytes drawn from a seed: bits 33 to 40 of each state.
pub fn lcg_bytes(seed: u64, n: usize) -> (out: Vec<u8>)
    ensures
        out@.len() == n,
        forall|i: int|
            0 <= i < n ==> out@[i] == (lcg_after(seed, (i + 1) as nat) / 0x2_0000_0000) % 256,
{
    let mut out: Vec<u8> = Vec::new();
    let mut s: u64 = seed;
    let mut i: usize = 0;
    while i < n
        invariant
            i <= n,
            out@.len() == i,
            s == lcg_after(seed, i as nat),
            forall|k: int|
                0 <= k < i ==> out@[k] == (lcg_after(seed, (k + 1) as nat) / 0x2_0000_0000) % 256,
        decreases n - i,
    {
        s = lcg_next(s);
        out.push(((s / 0x2_0000_0000) % 256) as u8);
        i = i + 1;
    }
    out
}

/// The transit estimate of a simulated tick: 30 ms and up to 6 ms of jitter.
pub fn sim_transit_ns(seq: u64) -> (ns: u64)
    ensures
        ns == 30_000_000 + (seq * 1_618_033 % modulus()) % 6_000_000,
        30_000_000 <= ns < 36_000_000,
{
    30_000_000 + seq.wrapping_mul(1_618_033) % 6_000_000
}

/// The transit estimate of a synthetic tick: 33 ms and up to 8 ms of jitter.
pub open spec fn synth_transit(seq: u64) -> u64 {
    (33_000_000 + (seq * 2_654_435 % modulus()) % 8_000_000) as u64
}

/// The origin time of a synthetic tick: 5 ms apart, from a fixed day on.
pub open spec fn synth_origin(seq: u64) -> u64 {
    ((1_700_000_000_000_000_000 + seq * 5_000_000) % modulus()) as u64
}

/// The transit estimate of a synthetic tick.
pub fn synth_transit_ns(seq: u64) -> (ns: u64)
    ensures
        ns == synth_transit(seq),
        33_000_000 <= ns < 41_000_000,
{
    33_000_000 + seq.wrapping_mul(2_654_435) % 8_000_000
}

/// The origin time of a synthetic tick.
pub fn synth_origin_ns(seq: u64) -> (ns: u64)
    ensures
        ns == synth_origin(seq),
{
    proof {
        vstd::arithmetic::div_mod::lemma_add_mod_noop_right(
            1_700_000_000_000_000_000,
            seq * 5_000_000,
            modulus(),
        );
    }
    1_700_000_000_000_000_000u64.wrapping_add(seq.wrapping_mul(5_000_000))
}

/// A generator never gives up a state: two states that differ lead to two that differ, so a
/// sequence of numbers comes back to its start only after all states.
pub proof fn law_states_differ(a: u64, b: u64)
    ensures
        split_state(a) == split_state(b) ==> a == b,
{
}

/// The same seed gives the same states however the steps are counted.
pub proof fn law_lcg_steps(s: u64, m: nat, n: nat)
    ensures
        lcg_after(s, m + n) == lcg_after(lcg_after(s, m), n),
        lcg_after(s, 0) == s,
        lcg_after(s, 1) == lcg_state(s),
    decreases n,
{
    assert(lcg_after(s, 1) == lcg_state(lcg_after(s, 0)));
    if n > 0 {
        law_lcg_steps(s, m, (n - 1) as nat);
    }
}

/// Synthetic ticks are five milliseconds apart.
pub proof fn law_synth_origins(seq: u64)
    requires
        seq < 1_000_000_000_000,
    ensures
        synth_origin((seq + 1) as u64) == synth_origin(seq) + 5_000_000,
        synth_origin(0) == 1_700_000_000_000_000_000,
        33_000_000 <= synth_transit(seq) < 41_000_000,
{
}

} // verus!
