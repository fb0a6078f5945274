//! Short vectors that live inline in their owner until they outgrow it.
//!
//! Most wires have one or two drivers and most components a handful of ports,
//! so the per-wire and per-component lists are `smallvec::SmallVec`s. Verus
//! does not look inside them: each list type here wraps one `SmallVec`, names
//! its contents as a `Seq`, and offers the few operations the simulator needs.
//! The contracts of those operations are taken on trust from the `smallvec`
//! sources; everything built on them is proved.
use vstd::prelude::*;
use smallvec::SmallVec;
use crate::voltage::VoltageInput;

verus! {

/// One driver position on one wire: slot `input_id` of wire `wire_id`.
///
/// A pin whose `wire_id` is `usize::MAX` is not connected.
#[derive(Copy, Clone, Debug, PartialEq, Eq, Structural)]
pub struct Pin {
    pub wire_id: usize,
    pub input_id: usize,
}

impl Pin {
    /// Whether the pin addresses a wire at all.
    pub open spec fn connected(self) -> bool {
        self.wire_id != usize::MAX
    }
}

/// The driver slots of one wire, a `SmallVec<[VoltageInput; 2]>`.
#[verifier::external_body]
#[derive(Debug)]
pub struct SlotVec {
    items: SmallVec<[VoltageInput; 2]>,
}

/// A list of wire or component indices, a `SmallVec<[usize; 4]>`.
#[verifier::external_body]
#[derive(Debug)]
pub struct IdVec {
    items: SmallVec<[usize; 4]>,
}

/// The output pins of one component, a `SmallVec<[Pin; 2]>`.
#[verifier::external_body]
#[derive(Debug)]
pub struct PinVec {
    items: SmallVec<[Pin; 2]>,
}

/// The elements of a `SlotVec`, first to last.
pub uninterp spec fn slot_items(v: SlotVec) -> Seq<VoltageInput>;

/// The elements of an `IdVec`, first to last.
pub uninterp spec fn id_items(v: IdVec) -> Seq<usize>;

/// The elements of a `PinVec`, first to last.
pub uninterp spec fn pin_items(v: PinVec) -> Seq<Pin>;

impl View for SlotVec {
    type V = Seq<VoltageInput>;

    open spec fn view(&self) -> Seq<VoltageInput> {
        slot_items(*self)
    }
}

impl View for IdVec {
    type V = Seq<usize>;

    open spec fn view(&self) -> Seq<usize> {
        id_items(*self)
    }
}

impl View for PinVec {
    type V = Seq<Pin>;

    open spec fn view(&self) -> Seq<Pin> {
        pin_items(*self)
    }
}

impl SlotVec {
    /// Calls `SmallVec::from_elem`: the new vector holds `n` copies of `elem`.
    #[verifier::external_body]
    pub(crate) fn filled(elem: VoltageInput, n: usize) -> (v: SlotVec)
        ensures
            slot_items(v) == Seq::new(n as nat, |i: int| elem),
    {
        SlotVec { items: SmallVec::from_elem(elem, n) }
    }

    /// Calls `SmallVec::len`: the number of elements.
    #[verifier::external_body]
    pub(crate) fn len(&self) -> (n: usize)
        ensures
            n == slot_items(*self).len(),
    {
        self.items.len()
    }

    /// Indexes the `SmallVec` as a slice: a copy of element `i`.
    #[verifier::external_body]
    pub(crate) fn get(&self, i: usize) -> (x: VoltageInput)
        requires
            i < slot_items(*self).len(),
        ensures
            x == slot_items(*self)[i as int],
    {
        self.items[i]
    }

    /// Assigns through the `SmallVec`'s mutable index: element `i` becomes
    /// `x` and every other element stays.
    #[verifier::external_body]
    pub(crate) fn set(&mut self, i: usize, x: VoltageInput)
        requires
            i < slot_items(*old(self)).len(),
        ensures
            slot_items(*final(self)) == slot_items(*old(self)).update(i as int, x),
    {
        self.items[i] = x;
    }
}

impl IdVec {
    /// Calls `SmallVec::new`: an empty vector.
    #[verifier::external_body]
    pub(crate) fn new() -> (v: IdVec)
        ensures
            id_items(v) == Seq::<usize>::empty(),
    {
        IdVec { items: SmallVec::new() }
    }

    /// Calls `SmallVec::push`: `x` is appended behind the elements there.
    #[verifier::external_body]
    pub(crate) fn push(&mut self, x: usize)
        ensures
            id_items(*final(self)) == id_items(*old(self)).push(x),
    {
        self.items.push(x);
    }

    /// Calls `SmallVec::len`: the number of elements.
    #[verifier::external_body]
    pub(crate) fn len(&self) -> (n: usize)
        ensures
            n == id_items(*self).len(),
    {
        self.items.len()
    }

    /// Indexes the `SmallVec` as a slice: a copy of element `i`.
    #[verifier::external_body]
    pub(crate) fn get(&self, i: usize) -> (x: usize)
        requires
            i < id_items(*self).len(),
        ensures
            x == id_items(*self)[i as int],
    {
        self.items[i]
    }
}

impl PinVec {
    /// Calls `SmallVec::new`: an empty vector.
    #[verifier::external_body]
    pub(crate) fn new() -> (v: PinVec)
        ensures
            pin_items(v) == Seq::<Pin>::empty(),
    {
        PinVec { items: SmallVec::new() }
    }

    /// Calls `SmallVec::push`: `x` is appended behind the elements there.
    #[verifier::external_body]
    pub(crate) fn push(&mut self, x: Pin)
        ensures
            pin_items(*final(self)) == pin_items(*old(self)).push(x),
    {
        self.items.push(x);
    }

    /// Calls `SmallVec::len`: the number of elements.
    #[verifier::external_body]
    pub(crate) fn len(&self) -> (n: usize)
        ensures
            n == pin_items(*self).len(),
    {
        self.items.len()
    }

    /// Indexes the `SmallVec` as a slice: a copy of element `i`.
    #[verifier::external_body]
    pub(crate) fn get(&self, i: usize) -> (x: Pin)
        requires
            i < pin_items(*self).len(),
        ensures
            x == pin_items(*self)[i as int],
    {
        self.items[i]
    }
}

} // verus!
