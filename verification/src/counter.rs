//! The identifier counter: a persisted scalar cell interpreted as "next
//! identifier to allocate", incremented on every allocation. The ghost
//! history of handed-out identifiers carries the uniqueness argument.

use vstd::prelude::*;
use crate::stable::{cell_get, cell_set, cell_value, RawCell};

verus! {

/// Produces a strictly increasing sequence of identifiers, starting at the
/// value its cell held when the counter was built.
pub struct IdCounter {
    cell: RawCell,
    origin: Ghost<u64>,
    issued: Ghost<Seq<u64>>,
}

impl IdCounter {
    /// The next identifier this counter will allocate.
    pub closed spec fn value(self) -> u64 {
        cell_value(self.cell)
    }

    /// The first identifier this counter allocates.
    pub closed spec fn origin(self) -> u64 {
        self.origin@
    }

    /// Every identifier this counter has allocated, in allocation order.
    pub closed spec fn issued(self) -> Seq<u64> {
        self.issued@
    }

    /// The counter has allocated `origin, origin + 1, ...` in order, and the
    /// persisted cell holds the next identifier.
    pub closed spec fn wf(self) -> bool {
        &&& self.value() as int == self.origin() as int + self.issued().len()
        &&& forall|i: int|
            0 <= i < self.issued().len() ==> self.issued()[i] as int == self.origin() as int + i
    }

    /// Interprets a persisted cell as an identifier counter; allocation
    /// starts at the value the cell holds.
    pub fn new(cell: RawCell) -> (c: IdCounter)
        ensures
            c.wf(),
            c.origin() == cell_value(cell),
            c.value() == cell_value(cell),
            c.issued() == Seq::<u64>::empty(),
    {
        IdCounter { origin: Ghost(cell_value(cell)), issued: Ghost(Seq::empty()), cell }
    }

    /// The identifier the next allocation will return.
    pub fn current(&self) -> (r: u64)
        ensures
            r == self.value(),
    {
        cell_get(&self.cell)
    }

    /// Allocates the next identifier: reads the current value, persists its
    /// successor, and returns the pre-increment value.
    pub fn next(&mut self) -> (id: u64)
        requires
            old(self).wf(),
            old(self).value() < u64::MAX,
        ensures
            final(self).wf(),
            id == old(self).value(),
            final(self).value() == old(self).value() + 1,
            final(self).origin() == old(self).origin(),
            final(self).issued() == old(self).issued().push(id),
    {
        let current: u64 = cell_get(&self.cell);
        cell_set(&mut self.cell, current + 1);
        self.issued = Ghost(self.issued@.push(current));
        current
    }
}

/// Identifier uniqueness: over all allocations one counter has made, no
/// identifier is returned twice, and identifiers strictly increase.
pub proof fn lemma_identifier_uniqueness(c: IdCounter)
    requires
        c.wf(),
    ensures
        forall|i: int, j: int| 0 <= i < j < c.issued().len() ==> c.issued()[i] < c.issued()[j],
{
}

/// Counter isolation: two counters that both start at zero allocate
/// `0 .. n - 1` each, independently; the sequences never interleave or alias
/// because each counter reads and writes its own cell only.
pub proof fn lemma_counter_isolation(tasks: IdCounter, members: IdCounter)
    requires
        tasks.wf(),
        members.wf(),
        tasks.origin() == 0,
        members.origin() == 0,
    ensures
        forall|i: int| 0 <= i < tasks.issued().len() ==> tasks.issued()[i] as int == i,
        forall|i: int| 0 <= i < members.issued().len() ==> members.issued()[i] as int == i,
{
}

} // verus!
