//! Results that background tasks deliver and the studio picks up. A task and the
//! studio each hold a handle of the same slot; what the slots hold is kept in one
//! place, to which one of them has access at a time.

use vstd::prelude::*;

verus! {

/// What the slots of a program hold.
#[derive(Debug)]
pub struct Slots<T> {
    cells: Vec<Option<T>>,
}

/// A handle of a slot: a result that a task delivers once and the studio picks up
/// once. Clones are handles of the same slot.
#[derive(Debug)]
pub struct Slot {
    at: usize,
}

impl<T> View for Slots<T> {
    type V = Seq<Option<T>>;

    closed spec fn view(&self) -> Seq<Option<T>> {
        self.cells@
    }
}

impl Clone for Slot {
    fn clone(&self) -> (out: Self)
        ensures
            out == *self,
    {
        Slot { at: self.at }
    }
}

impl<T> Slots<T> {
    /// No slots.
    pub fn new() -> (out: Slots<T>)
        ensures
            out@ == Seq::<Option<T>>::empty(),
    {
        Slots { cells: Vec::new() }
    }

    /// A new slot that nothing was delivered to.
    pub fn slot(&mut self) -> (out: Slot)
        ensures
            final(self)@ == old(self)@.push(None),
            out.place() == old(self)@.len(),
    {
        let at = self.cells.len();
        self.cells.push(None);
        Slot { at }
    }
}

impl Slot {
    /// Which slot this is.
    pub closed spec fn place(&self) -> int {
        self.at as int
    }

    /// Deliver a result; it replaces one that was not picked up.
    pub fn put<T>(&self, slots: &mut Slots<T>, v: T)
        requires
            self.place() < old(slots)@.len(),
        ensures
            final(slots)@ == after_put(old(slots)@, *self, v),
    {
        slots.cells.set(self.at, Some(v));
    }

    /// Pick the result up, if there is one; the slot is empty afterwards.
    pub fn take<T>(&self, slots: &mut Slots<T>) -> (out: Option<T>)
        requires
            self.place() < old(slots)@.len(),
        ensures
            out == old(slots)@[self.place()],
            final(slots)@ == after_take(old(slots)@, *self),
    {
        let mut out: Option<T> = None;
        std::mem::swap(&mut slots.cells[self.at], &mut out);
        out
    }
}

/// What the slots hold after a result was delivered.
pub open spec fn after_put<T>(cells: Seq<Option<T>>, slot: Slot, v: T) -> Seq<Option<T>> {
    cells.update(slot.place(), Some(v))
}

/// What the slots hold after a result was picked up.
pub open spec fn after_take<T>(cells: Seq<Option<T>>, slot: Slot) -> Seq<Option<T>> {
    cells.update(slot.place(), None)
}

/// Handles of one slot share it: what is delivered last through one of them is
/// picked up through the other, once, and no other slot is touched.
pub proof fn handles_share_their_slot<T>(
    cells: Seq<Option<T>>,
    slot: Slot,
    other: Slot,
    first: T,
    last: T,
)
    requires
        0 <= slot.place() < cells.len(),
        other == slot,
    ensures
        ({
            let full = after_put(after_put(cells, other, first), other, last);
            let emptied = after_take(full, slot);
            &&& full[slot.place()] == Some(last)
            &&& emptied[slot.place()] is None
            &&& emptied[other.place()] is None
            &&& forall|i: int|
                0 <= i < cells.len() && i != slot.place() ==> #[trigger] emptied[i] == cells[i]
        }),
{
}

} // verus!
