//! Port allocation for probe processes.
//!
//! Every probe needs two ports (one for the spawned node's metrics endpoint,
//! one for peer-to-peer traffic).  Ports are drawn from a fixed ephemeral
//! range by a monotonically increasing counter that wraps around at the
//! range ceiling.  There is no uniqueness guarantee beyond the range size:
//! the range must be sized at least twice the concurrency ceiling.

use vstd::prelude::*;

verus! {

/// Lowest port of the default ephemeral range.
pub const MIN_PORT: u16 = 49152;

/// Highest port of the default ephemeral range.
pub const MAX_PORT: u16 = 65535;

/// A counter over an inclusive port range `[floor, ceiling]`.
///
/// `get_next_port` returns the current counter value and advances it,
/// wrapping to `floor` once the counter has reached `ceiling`.
pub struct PortAllocator {
    pub floor: u16,
    pub ceiling: u16,
    pub current: u16,
}

impl PortAllocator {
    /// The allocator is well-formed when its counter lies inside the range.
    pub open spec fn wf(&self) -> bool {
        self.floor <= self.current <= self.ceiling
    }

    /// A fresh allocator over `[floor, ceiling]` whose first issued port is
    /// `start`.
    pub fn new(floor: u16, ceiling: u16, start: u16) -> (alloc: PortAllocator)
        requires
            floor <= start <= ceiling,
        ensures
            alloc.wf(),
            alloc.floor == floor,
            alloc.ceiling == ceiling,
            alloc.current == start,
    {
        PortAllocator { floor, ceiling, current: start }
    }
}

/// The counter value after one allocation: one past `cur`, wrapping to
/// `floor` once `cur` has reached `ceiling`.
pub open spec fn port_after(floor: u16, ceiling: u16, cur: u16) -> u16 {
    if cur >= ceiling {
        floor
    } else {
        (cur + 1) as u16
    }
}

/// The counter value after `k` allocations starting from `cur`.
pub open spec fn port_iter(floor: u16, ceiling: u16, cur: u16, k: nat) -> u16
    decreases k,
{
    if k == 0 {
        cur
    } else {
        port_iter(floor, ceiling, port_after(floor, ceiling, cur), (k - 1) as nat)
    }
}

/// Returns the current counter value and advances the counter, wrapping at
/// the ceiling.  The returned port always lies in `[floor, ceiling]`.
pub fn get_next_port(alloc: &mut PortAllocator) -> (port: u16)
    requires
        old(alloc).wf(),
    ensures
        final(alloc).wf(),
        port == old(alloc).current,
        old(alloc).floor <= port <= old(alloc).ceiling,
        final(alloc).floor == old(alloc).floor,
        final(alloc).ceiling == old(alloc).ceiling,
        final(alloc).current == port_after(
            old(alloc).floor,
            old(alloc).ceiling,
            old(alloc).current,
        ),
{
    let current = alloc.current;
    let next: u16 = if current >= alloc.ceiling {
        alloc.floor
    } else {
        current + 1
    };
    alloc.current = next;
    current
}

/// Iterating one more allocation applies `port_after` to the final state.
proof fn lemma_port_iter_step(floor: u16, ceiling: u16, cur: u16, k: nat)
    ensures
        port_iter(floor, ceiling, cur, k + 1) == port_after(
            floor,
            ceiling,
            port_iter(floor, ceiling, cur, k),
        ),
    decreases k,
{
    let stepped = port_after(floor, ceiling, cur);
    assert(port_iter(floor, ceiling, cur, k + 1) == port_iter(floor, ceiling, stepped, k));
    if k == 0 {
        assert(port_iter(floor, ceiling, stepped, 0) == stepped);
    } else {
        lemma_port_iter_step(floor, ceiling, stepped, (k - 1) as nat);
        assert(port_iter(floor, ceiling, cur, k) == port_iter(
            floor,
            ceiling,
            stepped,
            (k - 1) as nat,
        ));
    }
}

/// While the counter stays below the ceiling it advances by exactly one per
/// allocation.
proof fn lemma_port_iter_linear(floor: u16, ceiling: u16, cur: u16, k: nat)
    requires
        floor <= cur,
        cur + k <= ceiling,
    ensures
        port_iter(floor, ceiling, cur, k) == cur + k,
    decreases k,
{
    if k > 0 {
        lemma_port_iter_linear(floor, ceiling, (cur + 1) as u16, (k - 1) as nat);
    }
}

/// Law: starting from `floor`, the counter returns to `floor` after
/// `ceiling - floor + 1` allocations, so the next call of `get_next_port`
/// issues `floor` again.
pub proof fn lemma_port_cycle(floor: u16, ceiling: u16)
    requires
        floor <= ceiling,
    ensures
        port_iter(floor, ceiling, floor, (ceiling - floor + 1) as nat) == floor,
{
    let span = (ceiling - floor) as nat;
    lemma_port_iter_linear(floor, ceiling, floor, span);
    lemma_port_iter_step(floor, ceiling, floor, span);
}

} // verus!
