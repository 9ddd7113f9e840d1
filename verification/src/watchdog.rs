//! The watchdog's decisions: when to look at the clock, and when to shut down.

use vstd::prelude::*;

verus! {

/// Spins between two looks at the clock.
pub const SPINS_PER_CHECK: u64 = 0x0100_0000;

/// Least time between two checks.
pub const CHECK_INTERVAL_NS: u64 = 500_000_000;

/// Time without any packet after which the engine gives up.
pub const NO_FEED_TIMEOUT_NS: u64 = 30_000_000_000;

/// Time since the last packet after which the engine shuts down.
pub const IDLE_SHUTDOWN_NS: u64 = 10_000_000_000;

/// What the watchdog orders.
#[derive(Clone, Copy, Debug, PartialEq, Eq, Structural)]
pub enum Verdict {
    /// Go on.
    Wait,
    /// No market data came: give up.
    NoFeed,
    /// The feed has ended: report and shut down.
    Shutdown,
}

/// The watchdog's counters.
#[derive(Clone, Copy, Debug, PartialEq, Eq, Structural)]
pub struct Watchdog {
    /// Time of the last check.
    pub last_check_ns: u64,
    /// Spins so far, modulo 2^64.
    pub spins: u64,
}

/// What a check at `now_ns` finds, with the last packet at `last_packet_ns` (0 for none).
pub open spec fn found(now_ns: u64, last_packet_ns: u64) -> Verdict {
    if last_packet_ns == 0 {
        if now_ns >= NO_FEED_TIMEOUT_NS {
            Verdict::NoFeed
        } else {
            Verdict::Wait
        }
    } else if now_ns - last_packet_ns >= IDLE_SHUTDOWN_NS {
        Verdict::Shutdown
    } else {
        Verdict::Wait
    }
}

/// The clock is looked at on a spin.
pub open spec fn looks(spins: u64) -> bool {
    spins % SPINS_PER_CHECK == 0
}

/// The clock is looked at on every 2^24th spin: from one look to the next there are as many.
pub proof fn law_looks(spins: u64, k: u64)
    requires
        looks(spins),
        spins + 0x0100_0000 <= u64::MAX,
        0 < k < 0x0100_0000,
    ensures
        looks((spins + 0x0100_0000) as u64),
        !looks((spins + k) as u64),
{
}

impl Watchdog {
    /// A check is due.
    pub open spec fn due(self, now_ns: u64) -> bool {
        now_ns - self.last_check_ns >= CHECK_INTERVAL_NS
    }

    /// What a look at the clock gives, and the watchdog after it: between checks it waits.
    pub open spec fn checked(self, now_ns: u64, last_packet_ns: u64) -> (Verdict, Watchdog) {
        if self.due(now_ns) {
            (found(now_ns, last_packet_ns), Watchdog { last_check_ns: now_ns, ..self })
        } else {
            (Verdict::Wait, self)
        }
    }

    /// A watchdog before the first spin.
    pub fn new() -> (w: Watchdog)
        ensures
            w == (Watchdog { last_check_ns: 0, spins: 0 }),
    {
        Watchdog { last_check_ns: 0, spins: 0 }
    }

    /// Counts a spin; tells whether to look at the clock.
    pub fn spin(&mut self) -> (look: bool)
        ensures
            *final(self) == (Watchdog { spins: crate::wrap::next(old(self).spins), ..*old(self) }),
            look == looks(final(self).spins),
    {
        self.spins = crate::wrap::increment(self.spins);
        self.spins % SPINS_PER_CHECK == 0
    }

    /// Looks at the clock. Between checks the watchdog waits.
    pub fn check(&mut self, now_ns: u64, last_packet_ns: u64) -> (v: Verdict)
        ensures
            (v, *final(self)) == old(self).checked(now_ns, last_packet_ns),
    {
        if now_ns.saturating_sub(self.last_check_ns) < CHECK_INTERVAL_NS {
            return Verdict::Wait;
        }
        self.last_check_ns = now_ns;
        if last_packet_ns == 0 {
            if now_ns >= NO_FEED_TIMEOUT_NS {
                Verdict::NoFeed
            } else {
                Verdict::Wait
            }
        } else if now_ns.saturating_sub(last_packet_ns) < IDLE_SHUTDOWN_NS {
            Verdict::Wait
        } else {
            Verdict::Shutdown
        }
    }
}

/// A check shuts the engine down exactly from ten seconds after the last packet on, and
/// gives up exactly if no packet came within thirty seconds.
pub proof fn law_shutdown_times(now_ns: u64, last_packet_ns: u64)
    ensures
        found(now_ns, last_packet_ns) == Verdict::Shutdown <==> last_packet_ns > 0 && now_ns
            >= last_packet_ns + IDLE_SHUTDOWN_NS,
        found(now_ns, last_packet_ns) == Verdict::NoFeed <==> last_packet_ns == 0 && now_ns
            >= NO_FEED_TIMEOUT_NS,
{
}

/// A check is due half a second after the last one, and not before. What it finds does not
/// change back: a feed that has ended stays so until a packet comes.
pub proof fn law_checks_are_due(w: Watchdog, now_ns: u64, later_ns: u64, last_packet_ns: u64)
    requires
        now_ns <= later_ns,
    ensures
        w.due(now_ns) <==> w.last_check_ns + 500_000_000 <= now_ns,
        found(now_ns, last_packet_ns) != Verdict::Wait ==> found(later_ns, last_packet_ns) == found(
            now_ns,
            last_packet_ns,
        ),
        found(now_ns, last_packet_ns) == Verdict::Shutdown <==> last_packet_ns > 0
            && last_packet_ns + 10_000_000_000 <= now_ns,
        found(now_ns, last_packet_ns) == Verdict::NoFeed <==> last_packet_ns == 0
            && 30_000_000_000 <= now_ns,
{
}

/// The engine is shut down at the first check that finds the feed ended: within half a second
/// of the last check nothing happens, and from then on the verdict is that of the clock and
/// the last packet. Two checks are never less than half a second apart.
pub proof fn law_verdicts_of_checks(w: Watchdog, now_ns: u64, last_packet_ns: u64)
    ensures
        ({
            let (v, after) = w.checked(now_ns, last_packet_ns);
            &&& now_ns < w.last_check_ns + 500_000_000 ==> v == Verdict::Wait && after == w
            &&& now_ns >= w.last_check_ns + 500_000_000 ==> after.last_check_ns == now_ns
            &&& v == Verdict::Shutdown <==> now_ns >= w.last_check_ns + 500_000_000
                && last_packet_ns > 0 && now_ns >= last_packet_ns + 10_000_000_000
            &&& v == Verdict::NoFeed <==> now_ns >= w.last_check_ns + 500_000_000
                && last_packet_ns == 0 && now_ns >= 30_000_000_000
            &&& after.spins == w.spins
        }),
{
}

} // verus!
