//! The backpack index: for each owner and item kind, how many items it
//! holds and which ones, most recent last.

use vstd::prelude::*;

verus! {

#[derive(PartialEq, Eq, Structural, Clone, Copy, Debug, Hash)]
pub enum ItemType {
    HealthPotion,
    MagicMissileScroll,
}

/// The items of one kind that one owner holds.
#[derive(Debug)]
pub struct ItemData {
    pub count: i32,
    pub data: Vec<usize>,
}

/// The entry of one owner and one kind.
#[derive(Debug)]
pub struct BackpackSlot {
    pub owner: usize,
    pub kind: ItemType,
    pub data: ItemData,
}

/// Every owner's holdings, one slot per owner and kind that holds anything.
#[derive(Debug)]
pub struct ItemInBackpacks {
    pub slots: Vec<BackpackSlot>,
}

/// An item entered `owner`'s backpack.
#[derive(PartialEq, Eq, Structural, Clone, Copy, Debug)]
pub struct ItemPickUpEvent {
    pub owner: usize,
    pub item: usize,
    pub kind: ItemType,
}

/// An item of `owner`'s backpack was destroyed.
#[derive(PartialEq, Eq, Structural, Clone, Copy, Debug)]
pub struct ItemRemoveEvent {
    pub item: usize,
    pub owner: usize,
    pub kind: ItemType,
}

/// The items that `removes` leave of `s`, the holdings of `owner` in `kind`:
/// each matching event drops the most recent one.
pub open spec fn after_removes(s: Seq<usize>, removes: Seq<ItemRemoveEvent>, owner: usize, kind: ItemType) -> Seq<usize>
    decreases removes.len(),
{
    if removes.len() == 0 {
        s
    } else {
        let prev = after_removes(s, removes.drop_last(), owner, kind);
        let e = removes.last();
        if e.owner == owner && e.kind == kind && prev.len() > 0 {
            prev.drop_last()
        } else {
            prev
        }
    }
}

/// The holdings `s` of `owner` in `kind` after `adds`, in order.
pub open spec fn after_adds(s: Seq<usize>, adds: Seq<ItemPickUpEvent>, owner: usize, kind: ItemType) -> Seq<usize>
    decreases adds.len(),
{
    if adds.len() == 0 {
        s
    } else {
        let prev = after_adds(s, adds.drop_last(), owner, kind);
        let e = adds.last();
        if e.owner == owner && e.kind == kind {
            prev.push(e.item)
        } else {
            prev
        }
    }
}

impl ItemInBackpacks {
    pub open spec fn matches(&self, k: int, owner: usize, kind: ItemType) -> bool {
        self.slots@[k].owner == owner && self.slots@[k].kind == kind
    }

    /// Each slot's count is the length of its item list and is positive,
    /// and no two slots share an owner and kind.
    pub open spec fn wf(&self) -> bool {
        &&& forall|k: int|
            0 <= k < self.slots@.len() ==> (#[trigger] self.slots@[k]).data.count == self.slots@[k].data.data@.len()
                && self.slots@[k].data.count > 0
        &&& forall|k1: int, k2: int|
            0 <= k1 < self.slots@.len() && 0 <= k2 < self.slots@.len() && k1 != k2 ==> ((#[trigger] self.slots@[k1]).owner
                != (#[trigger] self.slots@[k2]).owner || self.slots@[k1].kind != self.slots@[k2].kind)
    }

    pub open spec fn has_slot(&self, owner: usize, kind: ItemType) -> bool {
        exists|k: int| 0 <= k < self.slots@.len() && self.matches(k, owner, kind)
    }

    /// The items of `kind` that `owner` holds, most recent last.
    pub open spec fn items_of(&self, owner: usize, kind: ItemType) -> Seq<usize> {
        if self.has_slot(owner, kind) {
            self.slots@[choose|k: int| 0 <= k < self.slots@.len() && self.matches(k, owner, kind)].data.data@
        } else {
            Seq::empty()
        }
    }

    /// Whether `owner` holds anything at all.
    pub open spec fn has_owner(&self, owner: usize) -> bool {
        exists|k: int| 0 <= k < self.slots@.len() && #[trigger] self.slots@[k].owner == owner
    }

    proof fn lemma_items_of_at(&self, k: int)
        requires
            self.wf(),
            0 <= k < self.slots@.len(),
        ensures
            self.items_of(self.slots@[k].owner, self.slots@[k].kind) == self.slots@[k].data.data@,
    {
        let o = self.slots@[k].owner;
        let t = self.slots@[k].kind;
        assert(self.matches(k, o, t));
        let c = choose|j: int| 0 <= j < self.slots@.len() && self.matches(j, o, t);
        if c != k {
            assert(self.slots@[c].owner != self.slots@[k].owner || self.slots@[c].kind != self.slots@[k].kind);
        }
    }

    pub fn new() -> (r: ItemInBackpacks)
        ensures
            r.wf(),
            forall|o: usize, t: ItemType| #[trigger] r.items_of(o, t).len() == 0,
    {
        ItemInBackpacks { slots: Vec::new() }
    }

    fn find(&self, owner: usize, kind: ItemType) -> (r: Option<usize>)
        ensures
            r matches Some(k) ==> k < self.slots@.len() && self.matches(k as int, owner, kind),
            r is None ==> !self.has_slot(owner, kind),
    {
        let mut k: usize = 0;
        while k < self.slots.len()
            invariant
                k <= self.slots@.len(),
                forall|j: int| 0 <= j < k ==> !self.matches(j, owner, kind),
            decreases self.slots@.len() - k,
        {
            if self.slots[k].owner == owner && self.slots[k].kind == kind {
                return Some(k);
            }
            k = k + 1;
        }
        None
    }

    /// How many items of `kind` `owner` holds.
    pub fn count_of(&self, owner: usize, kind: ItemType) -> (r: i32)
        requires
            self.wf(),
        ensures
            r == self.items_of(owner, kind).len(),
    {
        match self.find(owner, kind) {
            Some(k) => {
                proof {
                    self.lemma_items_of_at(k as int);
                }
                self.slots[k].data.count
            },
            None => 0,
        }
    }

    /// The most recent item of `kind` that `owner` holds: the one that a
    /// removal destroys.
    pub fn latest(&self, owner: usize, kind: ItemType) -> (r: Option<usize>)
        requires
            self.wf(),
        ensures
            r == if self.items_of(owner, kind).len() > 0 {
                Some(self.items_of(owner, kind).last())
            } else {
                None::<usize>
            },
    {
        match self.find(owner, kind) {
            Some(k) => {
                proof {
                    self.lemma_items_of_at(k as int);
                }
                let n = self.slots[k].data.data.len();
                Some(self.slots[k].data.data[n - 1])
            },
            None => None,
        }
    }

    /// Records that `owner` now holds `item` of `kind`.
    pub fn add_item(&mut self, owner: usize, kind: ItemType, item: usize)
        requires
            old(self).wf(),
            old(self).items_of(owner, kind).len() < i32::MAX,
        ensures
            final(self).wf(),
            final(self).items_of(owner, kind) == old(self).items_of(owner, kind).push(item),
            forall|o: usize, t: ItemType|
                !(o == owner && t == kind) ==> #[trigger] final(self).items_of(o, t) == old(self).items_of(o, t),
            forall|o: usize| #[trigger] final(self).has_owner(o) <==> (old(self).has_owner(o) || o == owner),
    {
        let ghost before = *self;
        match self.find(owner, kind) {
            Some(k) => {
                proof {
                    self.lemma_items_of_at(k as int);
                }
                let slot = self.slots.remove(k);
                let mut data = slot.data.data;
                data.push(item);
                let count = slot.data.count + 1;
                self.slots.insert(k, BackpackSlot { owner, kind, data: ItemData { count, data } });
                proof {
                    assert(self.slots@ =~= before.slots@.update(k as int, self.slots@[k as int]));
                    self.lemma_items_of_at(k as int);
                    assert forall|j: int| 0 <= j < before.slots@.len() && !before.matches(j, owner, kind) implies exists|i: int|
                        0 <= i < self.slots@.len() && #[trigger] self.slots@[i] == before.slots@[j] by {
                        assert(self.slots@[j] == before.slots@[j]);
                    }
                    assert forall|i: int| 0 <= i < self.slots@.len() && !self.matches(i, owner, kind) implies exists|j: int|
                        0 <= j < before.slots@.len() && #[trigger] before.slots@[j] == self.slots@[i] by {
                        assert(self.slots@[i] == before.slots@[i]);
                    }
                    lemma_others_kept(&before, self, owner, kind);
                    assert forall|o: usize| #[trigger] self.has_owner(o) <==> (before.has_owner(o) || o == owner) by {
                        if before.has_owner(o) {
                            let j = choose|j: int| 0 <= j < before.slots@.len() && #[trigger] before.slots@[j].owner == o;
                            assert(self.slots@[j].owner == o);
                        }
                        if self.has_owner(o) {
                            let j = choose|j: int| 0 <= j < self.slots@.len() && #[trigger] self.slots@[j].owner == o;
                            assert(before.slots@[j].owner == o);
                        }
                        if o == owner {
                            assert(self.slots@[k as int].owner == o);
                        }
                    }
                }
            },
            None => {
                let mut data: Vec<usize> = Vec::new();
                data.push(item);
                self.slots.push(BackpackSlot { owner, kind, data: ItemData { count: 1, data } });
                proof {
                    let n = before.slots@.len() as int;
                    assert(self.slots@ =~= before.slots@.push(self.slots@[n]));
                    assert(data@ =~= Seq::<usize>::empty().push(item));
                    assert forall|k1: int, k2: int|
                        0 <= k1 < self.slots@.len() && 0 <= k2 < self.slots@.len() && k1 != k2 implies ((#[trigger] self.slots@[k1]).owner
                            != (#[trigger] self.slots@[k2]).owner || self.slots@[k1].kind != self.slots@[k2].kind) by {
                        if k1 == n {
                            assert(!before.matches(k2, owner, kind));
                        } else if k2 == n {
                            assert(!before.matches(k1, owner, kind));
                        } else {
                            assert(before.slots@[k1] == self.slots@[k1]);
                            assert(before.slots@[k2] == self.slots@[k2]);
                        }
                    }
                    assert forall|k: int| 0 <= k < self.slots@.len() implies (#[trigger] self.slots@[k]).data.count
                        == self.slots@[k].data.data@.len() && self.slots@[k].data.count > 0 by {
                        if k < n {
                            assert(before.slots@[k] == self.slots@[k]);
                        }
                    }
                    self.lemma_items_of_at(n);
                    assert(data@ =~= Seq::<usize>::empty().push(item));
                    assert forall|j: int| 0 <= j < before.slots@.len() && !before.matches(j, owner, kind) implies exists|i: int|
                        0 <= i < self.slots@.len() && #[trigger] self.slots@[i] == before.slots@[j] by {
                        assert(self.slots@[j] == before.slots@[j]);
                    }
                    assert forall|i: int| 0 <= i < self.slots@.len() && !self.matches(i, owner, kind) implies exists|j: int|
                        0 <= j < before.slots@.len() && #[trigger] before.slots@[j] == self.slots@[i] by {
                        assert(self.slots@[i] == before.slots@[i]);
                    }
                    lemma_others_kept(&before, self, owner, kind);
                    assert forall|o: usize| #[trigger] self.has_owner(o) <==> (before.has_owner(o) || o == owner) by {
                        if before.has_owner(o) {
                            let j = choose|j: int| 0 <= j < before.slots@.len() && #[trigger] before.slots@[j].owner == o;
                            assert(self.slots@[j].owner == o);
                        }
                        if self.has_owner(o) {
                            let j = choose|j: int| 0 <= j < self.slots@.len() && #[trigger] self.slots@[j].owner == o;
                            if j < n {
                                assert(before.slots@[j].owner == o);
                            }
                        }
                        if o == owner {
                            assert(self.slots@[n].owner == o);
                        }
                    }
                }
            },
        }
    }

    /// Records that the most recent item of `kind` that `owner` holds is
    /// gone; a slot left empty disappears.
    pub fn remove_item(&mut self, owner: usize, kind: ItemType)
        requires
            old(self).wf(),
        ensures
            final(self).wf(),
            final(self).items_of(owner, kind) == if old(self).items_of(owner, kind).len() > 0 {
                old(self).items_of(owner, kind).drop_last()
            } else {
                old(self).items_of(owner, kind)
            },
            forall|o: usize, t: ItemType|
                !(o == owner && t == kind) ==> #[trigger] final(self).items_of(o, t) == old(self).items_of(o, t),
    {
        let ghost before = *self;
        match self.find(owner, kind) {
            Some(k) => {
                proof {
                    self.lemma_items_of_at(k as int);
                }
                let slot = self.slots.remove(k);
                let mut data = slot.data.data;
                data.pop();
                let count = slot.data.count - 1;
                if count > 0 {
                    self.slots.insert(k, BackpackSlot { owner, kind, data: ItemData { count, data } });
                    proof {
                        assert(self.slots@ =~= before.slots@.update(k as int, self.slots@[k as int]));
                        self.lemma_items_of_at(k as int);
                        assert forall|j: int| 0 <= j < before.slots@.len() && !before.matches(j, owner, kind) implies exists|i: int|
                            0 <= i < self.slots@.len() && #[trigger] self.slots@[i] == before.slots@[j] by {
                            assert(self.slots@[j] == before.slots@[j]);
                        }
                        assert forall|i: int| 0 <= i < self.slots@.len() && !self.matches(i, owner, kind) implies exists|j: int|
                            0 <= j < before.slots@.len() && #[trigger] before.slots@[j] == self.slots@[i] by {
                            assert(self.slots@[i] == before.slots@[i]);
                        }
                        lemma_others_kept(&before, self, owner, kind);
                    }
                } else {
                    proof {
                        let ki = k as int;
                        assert(self.slots@ =~= before.slots@.remove(ki));
                        assert forall|k1: int, k2: int|
                            0 <= k1 < self.slots@.len() && 0 <= k2 < self.slots@.len() && k1 != k2 implies ((#[trigger] self.slots@[k1]).owner
                                != (#[trigger] self.slots@[k2]).owner || self.slots@[k1].kind != self.slots@[k2].kind) by {
                            let j1 = if k1 < ki { k1 } else { k1 + 1 };
                            let j2 = if k2 < ki { k2 } else { k2 + 1 };
                            assert(self.slots@[k1] == before.slots@[j1]);
                            assert(self.slots@[k2] == before.slots@[j2]);
                        }
                        assert forall|k1: int| 0 <= k1 < self.slots@.len() implies (#[trigger] self.slots@[k1]).data.count
                            == self.slots@[k1].data.data@.len() && self.slots@[k1].data.count > 0 by {
                            let j1 = if k1 < ki { k1 } else { k1 + 1 };
                            assert(self.slots@[k1] == before.slots@[j1]);
                        }
                        assert(!self.has_slot(owner, kind)) by {
                            if self.has_slot(owner, kind) {
                                let j = choose|j: int| 0 <= j < self.slots@.len() && self.matches(j, owner, kind);
                                let j1 = if j < ki { j } else { j + 1 };
                                assert(self.slots@[j] == before.slots@[j1]);
                            }
                        }
                        assert(data@ =~= before.items_of(owner, kind).drop_last());
                        assert forall|j: int| 0 <= j < before.slots@.len() && !before.matches(j, owner, kind) implies exists|i: int|
                            0 <= i < self.slots@.len() && #[trigger] self.slots@[i] == before.slots@[j] by {
                            let j1 = if j < ki { j } else { j - 1 };
                            assert(self.slots@[j1] == before.slots@[j]);
                        }
                        assert forall|i: int| 0 <= i < self.slots@.len() && !self.matches(i, owner, kind) implies exists|j: int|
                            0 <= j < before.slots@.len() && #[trigger] before.slots@[j] == self.slots@[i] by {
                            let i1 = if i < ki { i } else { i + 1 };
                            assert(self.slots@[i] == before.slots@[i1]);
                        }
                        lemma_others_kept(&before, self, owner, kind);
                    }
                }
            },
            None => {},
        }
    }
}

/// Drains one tick's backpack events: first the removals, then the
/// additions, each in order.
pub fn handle_item_update_event(
    backpacks: &mut ItemInBackpacks,
    removes: &Vec<ItemRemoveEvent>,
    adds: &Vec<ItemPickUpEvent>,
)
    requires
        old(backpacks).wf(),
        forall|k: int|
            0 <= k < adds.len() ==> old(backpacks).items_of((#[trigger] adds@[k]).owner, adds@[k].kind).len() + adds.len()
                <= i32::MAX,
    ensures
        final(backpacks).wf(),
        forall|o: usize, t: ItemType|
            #[trigger] final(backpacks).items_of(o, t) == after_adds(
                after_removes(old(backpacks).items_of(o, t), removes@, o, t),
                adds@,
                o,
                t,
            ),
{
    let mut k: usize = 0;
    while k < removes.len()
        invariant
            k <= removes.len(),
            backpacks.wf(),
            forall|o: usize, t: ItemType|
                #[trigger] backpacks.items_of(o, t) == after_removes(
                    old(backpacks).items_of(o, t),
                    removes@.subrange(0, k as int),
                    o,
                    t,
                ),
            forall|j: int|
                0 <= j < adds.len() ==> backpacks.items_of((#[trigger] adds@[j]).owner, adds@[j].kind).len() <= old(
                    backpacks,
                ).items_of(adds@[j].owner, adds@[j].kind).len(),
        decreases removes.len() - k,
    {
        let e = removes[k];
        let ghost before = *backpacks;
        backpacks.remove_item(e.owner, e.kind);
        proof {
            assert forall|o: usize, t: ItemType| #[trigger] backpacks.items_of(o, t) == after_removes(
                old(backpacks).items_of(o, t),
                removes@.subrange(0, k as int + 1),
                o,
                t,
            ) by {
                assert(removes@.subrange(0, k as int + 1).drop_last() =~= removes@.subrange(0, k as int));
                assert(removes@.subrange(0, k as int + 1).last() == e);
            }
            assert forall|j: int| 0 <= j < adds.len() implies backpacks.items_of((#[trigger] adds@[j]).owner, adds@[j].kind).len()
                <= old(backpacks).items_of(adds@[j].owner, adds@[j].kind).len() by {
                assert(backpacks.items_of(adds@[j].owner, adds@[j].kind).len() <= before.items_of(adds@[j].owner, adds@[j].kind).len());
            }
        }
        k = k + 1;
    }
    assert(removes@.subrange(0, removes.len() as int) =~= removes@);
    let ghost mid = *backpacks;
    let mut k: usize = 0;
    while k < adds.len()
        invariant
            k <= adds.len(),
            backpacks.wf(),
            forall|o: usize, t: ItemType|
                #[trigger] backpacks.items_of(o, t) == after_adds(mid.items_of(o, t), adds@.subrange(0, k as int), o, t),
            forall|j: int|
                0 <= j < adds.len() ==> mid.items_of((#[trigger] adds@[j]).owner, adds@[j].kind).len() + adds.len() <= i32::MAX,
        decreases adds.len() - k,
    {
        let e = adds[k];
        proof {
            assert(adds@[k as int] == e);
            lemma_after_adds_len(mid.items_of(e.owner, e.kind), adds@.subrange(0, k as int), e.owner, e.kind);
        }
        backpacks.add_item(e.owner, e.kind, e.item);
        proof {
            assert forall|o: usize, t: ItemType| #[trigger] backpacks.items_of(o, t) == after_adds(
                mid.items_of(o, t),
                adds@.subrange(0, k as int + 1),
                o,
                t,
            ) by {
                assert(adds@.subrange(0, k as int + 1).drop_last() =~= adds@.subrange(0, k as int));
                assert(adds@.subrange(0, k as int + 1).last() == e);
            }
        }
        k = k + 1;
    }
    assert(adds@.subrange(0, adds.len() as int) =~= adds@);
}

/// When every slot but those of `owner` and `kind` reappears unchanged
/// from `a` to `b` and back, every other holding is the same in both.
proof fn lemma_others_kept(a: &ItemInBackpacks, b: &ItemInBackpacks, owner: usize, kind: ItemType)
    requires
        a.wf(),
        b.wf(),
        forall|j: int| 0 <= j < a.slots@.len() && !a.matches(j, owner, kind) ==> exists|i: int|
            0 <= i < b.slots@.len() && #[trigger] b.slots@[i] == a.slots@[j],
        forall|i: int| 0 <= i < b.slots@.len() && !b.matches(i, owner, kind) ==> exists|j: int|
            0 <= j < a.slots@.len() && #[trigger] a.slots@[j] == b.slots@[i],
    ensures
        forall|o: usize, t: ItemType| !(o == owner && t == kind) ==> #[trigger] b.items_of(o, t) == a.items_of(o, t),
{
    assert forall|o: usize, t: ItemType| !(o == owner && t == kind) implies #[trigger] b.items_of(o, t) == a.items_of(o, t) by {
        if a.has_slot(o, t) {
            let j = choose|j: int| 0 <= j < a.slots@.len() && a.matches(j, o, t);
            a.lemma_items_of_at(j);
            assert(!a.matches(j, owner, kind));
            assert(a.slots@[j] == a.slots@[j]);
            let i = choose|i: int| 0 <= i < b.slots@.len() && #[trigger] b.slots@[i] == a.slots@[j];
            b.lemma_items_of_at(i);
        } else if b.has_slot(o, t) {
            let i = choose|i: int| 0 <= i < b.slots@.len() && b.matches(i, o, t);
            assert(!b.matches(i, owner, kind));
            assert(b.slots@[i] == b.slots@[i]);
            let j = choose|j: int| 0 <= j < a.slots@.len() && #[trigger] a.slots@[j] == b.slots@[i];
            assert(a.matches(j, o, t));
        }
    }
}

proof fn lemma_after_adds_len(s: Seq<usize>, adds: Seq<ItemPickUpEvent>, owner: usize, kind: ItemType)
    ensures
        after_adds(s, adds, owner, kind).len() <= s.len() + adds.len(),
    decreases adds.len(),
{
    if adds.len() > 0 {
        lemma_after_adds_len(s, adds.drop_last(), owner, kind);
    }
}

/// In a well-formed index, which every addition and removal keeps
/// well-formed, a slot's count is the number of items listed for its owner
/// and kind, and no slot is empty.
pub proof fn lemma_counts_match(b: &ItemInBackpacks, k: int)
    requires
        b.wf(),
        0 <= k < b.slots@.len(),
    ensures
        b.slots@[k].data.count == b.items_of(b.slots@[k].owner, b.slots@[k].kind).len(),
        b.slots@[k].data.count > 0,
{
    b.lemma_items_of_at(k);
}

} // verus!
