//! Shared values with strong and weak reference counts.
//!
//! The shared values live in an `ArcHeap`; `UnsafeArc` and `Weak` are
//! handles on a slot of it. As for `std::sync::Arc`, the strong handles
//! together hold one weak count, the value is dropped when the last strong
//! handle goes, and the slot is freed when the last weak count goes.
use vstd::prelude::*;

verus! {

/// A slot of the heap: the counts and the value.
pub struct ArcInner<T> {
    pub strong: usize,
    pub weak: usize,
    pub data: Option<T>,
    /// True once the slot has been given back.
    pub freed: bool,
}

/// The slots, indexed by the handles.
pub struct ArcHeap<T> {
    pub slots: Vec<ArcInner<T>>,
}

/// A strong handle: it keeps the value alive.
#[derive(Debug, PartialEq, Eq, Structural)]
pub struct UnsafeArc {
    pub slot: usize,
}

/// A weak handle: it keeps the slot, not the value.
#[derive(Debug, PartialEq, Eq, Structural)]
pub struct Weak {
    pub slot: usize,
}

/// The counts of a slot, and whether it holds a value.
pub struct SlotView {
    pub strong: nat,
    pub weak: nat,
    pub has_data: bool,
    pub freed: bool,
}

/// The counts of a slot agree with each other: while there is a strong
/// handle, the value is there and the strong handles hold a weak count; the
/// value is gone once there is none; the slot is freed exactly when no weak
/// count is left.
pub open spec fn slot_wf(s: SlotView) -> bool {
    &&& s.strong > 0 ==> s.has_data && s.weak >= 1
    &&& s.strong == 0 ==> !s.has_data
    &&& s.freed <==> s.weak == 0
}

/// The slot once another strong handle is made.
pub open spec fn slot_clone(s: SlotView) -> SlotView {
    SlotView { strong: s.strong + 1, ..s }
}

/// The slot once a weak handle is made.
pub open spec fn slot_downgrade(s: SlotView) -> SlotView {
    SlotView { weak: s.weak + 1, ..s }
}

/// The slot once a strong handle is given up: the last one drops the value
/// and the weak count the strong handles held; the last weak count frees the
/// slot.
pub open spec fn slot_drop(s: SlotView) -> SlotView {
    if s.strong == 1 {
        SlotView { strong: 0, weak: (s.weak - 1) as nat, has_data: false, freed: s.weak == 1 }
    } else {
        SlotView { strong: (s.strong - 1) as nat, ..s }
    }
}

/// The slot once a weak handle is given up.
pub open spec fn slot_drop_weak(s: SlotView) -> SlotView {
    SlotView { weak: (s.weak - 1) as nat, freed: s.weak == 1, ..s }
}

/// The slot once a weak handle tries to upgrade, and whether it got a strong
/// handle: only while the value is alive.
pub open spec fn slot_upgrade(s: SlotView) -> (SlotView, bool) {
    if s.strong == 0 {
        (s, false)
    } else {
        (slot_clone(s), true)
    }
}

impl<T> ArcInner<T> {
    pub open spec fn view(&self) -> SlotView {
        SlotView {
            strong: self.strong as nat,
            weak: self.weak as nat,
            has_data: self.data is Some,
            freed: self.freed,
        }
    }
}

impl<T> ArcHeap<T> {
    pub open spec fn view(&self) -> Seq<SlotView> {
        self.slots@.map_values(|s: ArcInner<T>| s.view())
    }

    /// The value in slot `i`, if it holds one.
    pub open spec fn data_at(&self, i: int) -> Option<T> {
        self.slots@[i].data
    }

    /// True if every slot's counts agree with each other.
    pub open spec fn wf(&self) -> bool {
        forall|i: int| 0 <= i < self@.len() ==> slot_wf(#[trigger] self@[i])
    }

    /// An empty heap.
    pub fn new() -> (r: ArcHeap<T>)
        ensures
            r@ == Seq::<SlotView>::empty(),
            r.wf(),
    {
        let r = ArcHeap { slots: Vec::new() };
        assert(r@ =~= Seq::<SlotView>::empty());
        r
    }

    proof fn lemma_update(&self, before: Seq<ArcInner<T>>, i: int)
        requires
            0 <= i < before.len(),
            self.slots@.len() == before.len(),
            forall|j: int| 0 <= j < before.len() && j != i ==> self.slots@[j] == before[j],
        ensures
            self@ =~= before.map_values(|s: ArcInner<T>| s.view()).update(i, self.slots@[i].view()),
    {
    }
}

impl UnsafeArc {
    /// Puts `data` in a new slot, with one strong handle (the one given
    /// back) and the weak count that the strong handles hold.
    pub fn new<T>(heap: &mut ArcHeap<T>, data: T) -> (r: UnsafeArc)
        ensures
            r.slot == old(heap)@.len(),
            final(heap)@ == old(heap)@.push(
                SlotView { strong: 1, weak: 1, has_data: true, freed: false },
            ),
            final(heap).data_at(r.slot as int) == Some(data),
            forall|i: int| 0 <= i < old(heap)@.len() ==> final(heap).data_at(i) == old(heap).data_at(i),
            old(heap).wf() ==> final(heap).wf(),
    {
        let slot = heap.slots.len();
        heap.slots.push(ArcInner { strong: 1, weak: 1, data: Some(data), freed: false });
        assert(heap@ =~= old(heap)@.push(
            SlotView { strong: 1, weak: 1, has_data: true, freed: false },
        ));
        UnsafeArc { slot }
    }

    /// The shared value.
    pub fn unsafe_ptr<'a, T>(&self, heap: &'a ArcHeap<T>) -> (r: &'a T)
        requires
            self.slot < heap@.len(),
            heap@[self.slot as int].has_data,
        ensures
            Some(*r) == heap.data_at(self.slot as int),
    {
        heap.slots[self.slot].data.as_ref().unwrap()
    }

    /// A weak handle on the same slot; the weak count goes up by one.
    pub fn downgrade<T>(&self, heap: &mut ArcHeap<T>) -> (r: Weak)
        requires
            self.slot < old(heap)@.len(),
            old(heap)@[self.slot as int].strong > 0,
            old(heap)@[self.slot as int].weak < usize::MAX,
        ensures
            r.slot == self.slot,
            final(heap)@ == old(heap)@.update(self.slot as int, slot_downgrade(old(heap)@[self.slot as int])),
            forall|i: int| 0 <= i < old(heap)@.len() ==> final(heap).data_at(i) == old(heap).data_at(i),
            old(heap).wf() ==> final(heap).wf(),
    {
        let ghost before = heap.slots@;
        heap.slots[self.slot].weak = heap.slots[self.slot].weak + 1;
        proof {
            heap.lemma_update(before, self.slot as int);
        }
        Weak { slot: self.slot }
    }

    /// Another strong handle on the same slot; the strong count goes up by
    /// one.
    pub fn clone<T>(&self, heap: &mut ArcHeap<T>) -> (r: UnsafeArc)
        requires
            self.slot < old(heap)@.len(),
            old(heap)@[self.slot as int].strong > 0,
            old(heap)@[self.slot as int].strong < usize::MAX,
        ensures
            r.slot == self.slot,
            final(heap)@ == old(heap)@.update(self.slot as int, slot_clone(old(heap)@[self.slot as int])),
            forall|i: int| 0 <= i < old(heap)@.len() ==> final(heap).data_at(i) == old(heap).data_at(i),
            old(heap).wf() ==> final(heap).wf(),
    {
        let ghost before = heap.slots@;
        heap.slots[self.slot].strong = heap.slots[self.slot].strong + 1;
        proof {
            heap.lemma_update(before, self.slot as int);
        }
        UnsafeArc { slot: self.slot }
    }

    /// Gives the handle up: the strong count goes down; the last strong
    /// handle drops the value and gives up the weak count the strong handles
    /// held, and the last weak count frees the slot.
    pub fn drop<T>(self, heap: &mut ArcHeap<T>)
        requires
            self.slot < old(heap)@.len(),
            old(heap)@[self.slot as int].strong > 0,
            old(heap).wf(),
        ensures
            final(heap)@ == old(heap)@.update(self.slot as int, slot_drop(old(heap)@[self.slot as int])),
            old(heap)@[self.slot as int].strong > 1 ==> final(heap).data_at(self.slot as int) == old(
                heap,
            ).data_at(self.slot as int),
            forall|i: int|
                0 <= i < old(heap)@.len() && i != self.slot ==> final(heap).data_at(i) == old(
                    heap,
                ).data_at(i),
            final(heap).wf(),
    {
        let ghost before = heap.slots@;
        let i = self.slot;
        assert(slot_wf(heap@[i as int]));
        heap.slots[i].strong = heap.slots[i].strong - 1;
        if heap.slots[i].strong == 0 {
            heap.slots[i].data = None;
            heap.slots[i].weak = heap.slots[i].weak - 1;
            if heap.slots[i].weak == 0 {
                heap.slots[i].freed = true;
            }
        }
        proof {
            heap.lemma_update(before, i as int);
        }
    }

    /// Makes this the only handle on its value: if other strong or weak
    /// handles share the slot, the value is cloned into a new slot of its
    /// own and this handle moves there, giving up its strong count in the old
    /// slot; the other handles keep the old value. True when it moved.
    pub fn make_unique<T: Clone>(&mut self, heap: &mut ArcHeap<T>) -> (moved: bool)
        requires
            old(self).slot < old(heap)@.len(),
            old(heap)@[old(self).slot as int].strong > 0,
            old(heap).wf(),
        ensures
            final(heap).wf(),
            final(self).slot < final(heap)@.len(),
            final(heap)@[final(self).slot as int] == (SlotView {
                strong: 1,
                weak: 1,
                has_data: true,
                freed: false,
            }),
            moved == (old(heap)@[old(self).slot as int].strong != 1 || old(heap)@[old(
                self,
            ).slot as int].weak != 1),
            !moved ==> final(self).slot == old(self).slot && final(heap)@ == old(heap)@,
            !moved ==> forall|i: int|
                0 <= i < old(heap)@.len() ==> final(heap).data_at(i) == old(heap).data_at(i),
            moved ==> final(self).slot == old(heap)@.len(),
            moved ==> final(heap)@ == old(heap)@.update(
                old(self).slot as int,
                slot_drop(old(heap)@[old(self).slot as int]),
            ).push(SlotView { strong: 1, weak: 1, has_data: true, freed: false }),
            moved ==> forall|i: int|
                0 <= i < old(heap)@.len() && i != old(self).slot ==> final(heap).data_at(i) == old(
                    heap,
                ).data_at(i),
            moved && old(heap)@[old(self).slot as int].strong > 1 ==> final(heap).data_at(
                old(self).slot as int,
            ) == old(heap).data_at(old(self).slot as int),
            moved ==> final(heap).data_at(final(self).slot as int) is Some && cloned::<T>(
                old(heap).data_at(old(self).slot as int)->0,
                final(heap).data_at(final(self).slot as int)->0,
            ),
    {
        let i = self.slot;
        if heap.slots[i].strong != 1 || heap.slots[i].weak != 1 {
            let data = self.unsafe_ptr(heap).clone();
            let fresh = UnsafeArc::new(heap, data);
            let old_handle = UnsafeArc { slot: i };
            old_handle.drop(heap);
            *self = fresh;
            true
        } else {
            false
        }
    }
}

impl Weak {
    /// A strong handle, if the value is still alive: the strong count goes
    /// up by one unless it is zero.
    pub fn upgrade<T>(&self, heap: &mut ArcHeap<T>) -> (r: Option<UnsafeArc>)
        requires
            self.slot < old(heap)@.len(),
            old(heap)@[self.slot as int].strong < usize::MAX,
        ensures
            final(heap)@ == old(heap)@.update(
                self.slot as int,
                slot_upgrade(old(heap)@[self.slot as int]).0,
            ),
            r == (if slot_upgrade(old(heap)@[self.slot as int]).1 {
                Some(UnsafeArc { slot: self.slot })
            } else {
                None
            }),
            forall|i: int| 0 <= i < old(heap)@.len() ==> final(heap).data_at(i) == old(heap).data_at(i),
            old(heap).wf() ==> final(heap).wf(),
    {
        let n = heap.slots[self.slot].strong;
        if n == 0 {
            assert(heap@ =~= old(heap)@.update(self.slot as int, heap@[self.slot as int]));
            return None;
        }
        let ghost before = heap.slots@;
        heap.slots[self.slot].strong = n + 1;
        proof {
            heap.lemma_update(before, self.slot as int);
        }
        Some(UnsafeArc { slot: self.slot })
    }

    /// Another weak handle on the same slot.
    pub fn clone<T>(&self, heap: &mut ArcHeap<T>) -> (r: Weak)
        requires
            self.slot < old(heap)@.len(),
            old(heap)@[self.slot as int].weak < usize::MAX,
        ensures
            r.slot == self.slot,
            final(heap)@ == old(heap)@.update(self.slot as int, slot_downgrade(old(heap)@[self.slot as int])),
            forall|i: int| 0 <= i < old(heap)@.len() ==> final(heap).data_at(i) == old(heap).data_at(i),
            old(heap).wf() && old(heap)@[self.slot as int].weak > 0 ==> final(heap).wf(),
    {
        let ghost before = heap.slots@;
        heap.slots[self.slot].weak = heap.slots[self.slot].weak + 1;
        proof {
            heap.lemma_update(before, self.slot as int);
        }
        Weak { slot: self.slot }
    }

    /// Gives the weak handle up; the last weak count frees the slot. While
    /// strong handles are left, they keep their own weak count.
    pub fn drop<T>(self, heap: &mut ArcHeap<T>)
        requires
            self.slot < old(heap)@.len(),
            old(heap)@[self.slot as int].weak > (if old(heap)@[self.slot as int].strong > 0 {
                1nat
            } else {
                0nat
            }),
            old(heap).wf(),
        ensures
            final(heap).wf(),
            final(heap)@ == old(heap)@.update(self.slot as int, slot_drop_weak(old(heap)@[self.slot as int])),
            forall|i: int| 0 <= i < old(heap)@.len() ==> final(heap).data_at(i) == old(heap).data_at(i),
    {
        let ghost before = heap.slots@;
        let i = self.slot;
        assert(slot_wf(heap@[i as int]));
        heap.slots[i].weak = heap.slots[i].weak - 1;
        if heap.slots[i].weak == 0 {
            heap.slots[i].freed = true;
        }
        proof {
            heap.lemma_update(before, i as int);
        }
    }
}

} // verus!
