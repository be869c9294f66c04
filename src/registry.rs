//! Overlay inode identities: an arena of records indexed by id. Ids are
//! handed out in increasing order and never reused; a forgotten id leaves an
//! empty slot behind.
use vstd::prelude::*;

use crate::node::FileKind;

verus! {

/// The first id handed out; id 1 is the root directory.
pub const FIRST_ID: u64 = 2;

/// What an overlay inode stands for.
#[derive(Clone, Copy, Debug, PartialEq, Eq, Structural)]
pub struct InodeRecord {
    /// Layer holding the authoritative copy (0 is the upper layer).
    pub layer: usize,
    /// Inode number on that layer.
    pub real_ino: u64,
    pub kind: FileKind,
    /// References the kernel transport holds.
    pub lookups: u64,
}

/// The mathematical value of an [`InodeRegistry`].
pub ghost struct RegistryView {
    /// The live records, by id.
    pub records: Map<u64, InodeRecord>,
    /// The id the next registration receives.
    pub next_id: int,
}

/// The overlay inode registry.
pub struct InodeRegistry {
    slots: Vec<Option<InodeRecord>>,
}

impl View for InodeRegistry {
    type V = RegistryView;

    closed spec fn view(&self) -> RegistryView {
        RegistryView {
            records: Map::new(
                |id: u64| FIRST_ID <= id < FIRST_ID + self.slots@.len() && self.slots@[id - FIRST_ID] is Some,
                |id: u64| self.slots@[id - FIRST_ID]->0,
            ),
            next_id: FIRST_ID + self.slots@.len(),
        }
    }
}

impl InodeRegistry {
    /// Every live id lies below the next one handed out.
    pub proof fn lemma_ids_below_next(&self, id: u64)
        requires
            self@.records.contains_key(id),
        ensures
            FIRST_ID <= id < self@.next_id,
    {
    }

    /// An empty registry.
    pub fn new() -> (r: InodeRegistry)
        ensures
            r@.records.is_empty(),
            r@.next_id == FIRST_ID,
    {
        let r = InodeRegistry { slots: Vec::new() };
        assert(r@.records =~= Map::<u64, InodeRecord>::empty());
        r
    }

    /// Registers an entry on first observation, with one reference. `None`
    /// when the ids are used up.
    pub fn register(&mut self, layer: usize, real_ino: u64, kind: FileKind) -> (r: Option<u64>)
        ensures
            old(self)@.next_id < u64::MAX ==> r == Some(old(self)@.next_id as u64)
                && final(self)@.records == old(self)@.records.insert(
                    old(self)@.next_id as u64,
                    InodeRecord { layer, real_ino, kind, lookups: 1 },
                )
                && final(self)@.next_id == old(self)@.next_id + 1,
            old(self)@.next_id >= u64::MAX ==> r is None && final(self)@ == old(self)@,
    {
        if self.slots.len() as u64 >= u64::MAX - FIRST_ID {
            return None;
        }
        let id = FIRST_ID + self.slots.len() as u64;
        let ghost before = self.slots@;
        let rec = InodeRecord { layer, real_ino, kind, lookups: 1 };
        self.slots.push(Some(rec));
        assert(self@.records =~= old(self)@.records.insert(id, rec)) by {
            assert forall|x: u64| #[trigger] self@.records.contains_key(x) && x != id implies
                self.slots@[x - FIRST_ID] == before[x - FIRST_ID] by {}
        }
        Some(id)
    }

    /// The slot that holds `id`, if there is one.
    fn slot_of(&self, id: u64) -> (r: Option<usize>)
        ensures
            match r {
                Some(ix) => ix < self.slots@.len() && ix as int == id - FIRST_ID,
                None => !(FIRST_ID <= id < FIRST_ID + self.slots@.len()),
            },
    {
        if id < FIRST_ID {
            return None;
        }
        let n = self.slots.len();
        let ix = id - FIRST_ID;
        if ix >= n as u64 {
            return None;
        }
        Some(ix as usize)
    }

    /// The record of `id`, if it is live.
    pub fn resolve(&self, id: u64) -> (r: Option<InodeRecord>)
        ensures
            self@.records.contains_key(id) ==> r == Some(self@.records[id]),
            !self@.records.contains_key(id) ==> r is None,
    {
        match self.slot_of(id) {
            Some(ix) => self.slots[ix],
            None => None,
        }
    }

    /// Points `id` at a new layer and real inode (after copy-up); `false`
    /// when `id` is not live.
    pub fn rekey(&mut self, id: u64, layer: usize, real_ino: u64) -> (r: bool)
        ensures
            r == old(self)@.records.contains_key(id),
            r ==> final(self)@.records == old(self)@.records.insert(
                id,
                InodeRecord { layer, real_ino, ..old(self)@.records[id] },
            ),
            !r ==> final(self)@ == old(self)@,
            final(self)@.next_id == old(self)@.next_id,
    {
        let ix = match self.slot_of(id) {
            Some(ix) => ix,
            None => return false,
        };
        match self.slots[ix] {
            Some(rec) => {
                let ghost before = self.slots@;
                let new_rec = InodeRecord { layer, real_ino, ..rec };
                self.slots.set(ix, Some(new_rec));
                assert(forall|x: u64| FIRST_ID <= x < FIRST_ID + before.len() && x != id
                    ==> #[trigger] self.slots@[x - FIRST_ID] == before[x - FIRST_ID]);
                assert(self@.records =~= old(self)@.records.insert(id, new_rec));
                true
            },
            None => false,
        }
    }

    /// Drops `count` references from `id`; the record goes once none is
    /// left. Returns whether the record is still live.
    pub fn forget(&mut self, id: u64, count: u64) -> (r: bool)
        ensures
            !old(self)@.records.contains_key(id) ==> !r && final(self)@ == old(self)@,
            old(self)@.records.contains_key(id) && old(self)@.records[id].lookups > count ==> r
                && final(self)@.records == old(self)@.records.insert(
                    id,
                    InodeRecord { lookups: (old(self)@.records[id].lookups - count) as u64, ..old(self)@.records[id] },
                ),
            old(self)@.records.contains_key(id) && old(self)@.records[id].lookups <= count ==> !r
                && final(self)@.records == old(self)@.records.remove(id),
            final(self)@.next_id == old(self)@.next_id,
    {
        let ix = match self.slot_of(id) {
            Some(ix) => ix,
            None => return false,
        };
        match self.slots[ix] {
            Some(rec) => {
                let ghost before = self.slots@;
                if rec.lookups > count {
                    let new_rec = InodeRecord { lookups: rec.lookups - count, ..rec };
                    self.slots.set(ix, Some(new_rec));
                    assert(forall|x: u64| FIRST_ID <= x < FIRST_ID + before.len() && x != id
                        ==> #[trigger] self.slots@[x - FIRST_ID] == before[x - FIRST_ID]);
                    assert(self@.records =~= old(self)@.records.insert(id, new_rec));
                    true
                } else {
                    self.slots.set(ix, None);
                    assert(forall|x: u64| FIRST_ID <= x < FIRST_ID + before.len() && x != id
                        ==> #[trigger] self.slots@[x - FIRST_ID] == before[x - FIRST_ID]);
                    assert(self@.records =~= old(self)@.records.remove(id));
                    false
                }
            },
            None => false,
        }
    }
}

} // verus!
