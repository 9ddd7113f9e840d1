//! Which core each of the engine's threads is pinned to.

use vstd::prelude::*;

verus! {

/// The core of a thread: the strategy, the ingestor and the exchange have one each, and
/// cores 0 and 1 are left to everything else.
pub open spec fn core_of(tag: i32) -> Option<usize> {
    if tag == 1 {
        Some(2)
    } else if tag == 2 {
        Some(3)
    } else if tag == 3 {
        Some(4)
    } else {
        None
    }
}

/// The core of the thread with a tag; nothing if threads with that tag are not pinned.
pub fn core_for_tag(tag: i32) -> (core: Option<usize>)
    ensures
        core == core_of(tag),
{
    match tag {
        1 => Some(2),
        2 => Some(3),
        3 => Some(4),
        _ => None,
    }
}

/// The set of cores that holds one core alone: bit `core` is set.
pub fn core_mask(core: usize) -> (mask: u64)
    requires
        core < 64,
    ensures
        mask == 1u64 << (core as u64),
{
    1u64 << (core as u64)
}

/// No two pinned threads share a core, and none has core 0 or 1.
pub proof fn law_cores_not_shared(a: i32, b: i32)
    requires
        core_of(a) is Some,
        core_of(b) is Some,
    ensures
        a != b ==> core_of(a) != core_of(b),
        core_of(a)->0 >= 2,
{
}

/// Three threads are pinned, each to the core behind its tag.
pub proof fn law_pinned_threads(tag: i32)
    ensures
        core_of(tag) is Some <==> 1 <= tag <= 3,
        core_of(tag) matches Some(core) ==> core == tag + 1,
{
}

} // verus!
