//! The open files and the locks of an NFSv4.0 client.

use bytes::Bytes;
use vstd::prelude::*;

use crate::buffer::{as_slice, contents, copy_from_slice, duplicate, from_vec, remaining, same_bytes};
use crate::ordered::OrderedTable;
use crate::table::{without_value, Table};
use crate::xdr::{be64, hyper, lemma_two_hypers, read_u32, xdr_u64};

verus! {

/// An open file: one open-owner, its sequence number and its state.
#[derive(Debug)]
pub struct OwnerLane {
    pub owner: u64,
    pub next_seqid: u32,
    pub stateid: [u8; 16],
    pub fh: Bytes,
    pub access: u32,
    pub write_verifier: Option<[u8; 8]>,
}

/// An open file as specifications see it.
#[verifier::ext_equal]
pub struct OwnerLaneView {
    pub owner: u64,
    pub next_seqid: u32,
    pub stateid: Seq<u8>,
    pub fh: Seq<u8>,
    pub access: u32,
    pub write_verifier: Option<Seq<u8>>,
}

impl View for OwnerLane {
    type V = OwnerLaneView;

    open spec fn view(&self) -> OwnerLaneView {
        OwnerLaneView {
            owner: self.owner,
            next_seqid: self.next_seqid,
            stateid: self.stateid@,
            fh: contents(self.fh),
            access: self.access,
            write_verifier: match self.write_verifier {
                Some(verifier) => Some(verifier@),
                None => None,
            },
        }
    }
}

impl OwnerLane {
    /// Another lane with the same content.
    pub fn copy(&self) -> (lane: Self)
        ensures
            lane@ == self@,
    {
        OwnerLane {
            owner: self.owner,
            next_seqid: self.next_seqid,
            stateid: self.stateid,
            fh: duplicate(&self.fh),
            access: self.access,
            write_verifier: self.write_verifier,
        }
    }
}

/// A lock that is held: its owner, the open-owner it came from, its state and its range.
#[derive(Debug)]
pub struct LockLane {
    pub owner: u64,
    pub open_owner: u64,
    pub owner_wire: Bytes,
    pub next_seqid: u32,
    pub stateid: [u8; 16],
    pub fh: Bytes,
    pub lock_type: u32,
    pub offset: u64,
    pub length: u64,
}

/// A lock as specifications see it.
#[verifier::ext_equal]
pub struct LockLaneView {
    pub owner: u64,
    pub open_owner: u64,
    pub owner_wire: Seq<u8>,
    pub next_seqid: u32,
    pub stateid: Seq<u8>,
    pub fh: Seq<u8>,
    pub lock_type: u32,
    pub offset: u64,
    pub length: u64,
}

impl View for LockLane {
    type V = LockLaneView;

    open spec fn view(&self) -> LockLaneView {
        LockLaneView {
            owner: self.owner,
            open_owner: self.open_owner,
            owner_wire: contents(self.owner_wire),
            next_seqid: self.next_seqid,
            stateid: self.stateid@,
            fh: contents(self.fh),
            lock_type: self.lock_type,
            offset: self.offset,
            length: self.length,
        }
    }
}

impl LockLane {
    /// Another lane with the same content.
    pub fn copy(&self) -> (lane: Self)
        ensures
            lane@ == self@,
    {
        LockLane {
            owner: self.owner,
            open_owner: self.open_owner,
            owner_wire: duplicate(&self.owner_wire),
            next_seqid: self.next_seqid,
            stateid: self.stateid,
            fh: duplicate(&self.fh),
            lock_type: self.lock_type,
            offset: self.offset,
            length: self.length,
        }
    }
}

/// The locks that are held. A lock goes by the number of its lane; its current state leads
/// to it, and so do the states that it had before the server restarted.
pub struct LockState {
    pub lanes: Table<u64>,
    pub aliases: Table<u64>,
    pub held: OrderedTable<LockLane>,
}

/// The locks as specifications see them.
#[verifier::ext_equal]
pub struct LockView {
    pub lanes: Map<Seq<u8>, u64>,
    pub aliases: Map<Seq<u8>, u64>,
    pub held: Map<u64, LockLaneView>,
}

impl View for LockState {
    type V = LockView;

    open spec fn view(&self) -> LockView {
        LockView {
            lanes: self.lanes@,
            aliases: self.aliases@,
            held: self.held@.map_values(|lane: LockLane| lane@),
        }
    }
}

impl LockView {
    /// Every state leads to a lock.
    pub open spec fn wf(self) -> bool {
        &&& forall|s: Seq<u8>| #[trigger] self.lanes.contains_key(s) ==> self.held.contains_key(
            self.lanes[s],
        )
        &&& forall|s: Seq<u8>| #[trigger] self.aliases.contains_key(s) ==> self.held.contains_key(
            self.aliases[s],
        )
    }

    /// The lane that a state leads to.
    pub open spec fn named(self, stateid: Seq<u8>) -> Option<u64> {
        if self.lanes.contains_key(stateid) {
            Some(self.lanes[stateid])
        } else if self.aliases.contains_key(stateid) {
            Some(self.aliases[stateid])
        } else {
            None
        }
    }

    /// The locks with one more.
    pub open spec fn with_lane(self, id: u64, lane: LockLaneView) -> LockView {
        LockView {
            lanes: self.lanes.insert(lane.stateid, id),
            held: self.held.insert(id, lane),
            ..self
        }
    }

    /// The locks without the one that a state leads to.
    pub open spec fn without(self, stateid: Seq<u8>) -> LockView {
        match self.named(stateid) {
            None => self,
            Some(id) => LockView {
                lanes: without_value(self.lanes, id),
                aliases: without_value(self.aliases, id),
                held: self.held.remove(id),
            },
        }
    }

    /// The locks after a lane got a new state: the old one still leads to it.
    pub open spec fn rekeyed(self, old_stateid: Seq<u8>, new_stateid: Seq<u8>, id: u64) -> LockView {
        LockView {
            lanes: self.lanes.remove(old_stateid).insert(new_stateid, id),
            aliases: self.aliases.insert(old_stateid, id),
            ..self
        }
    }

    /// Whether a lock is held on a file.
    pub open spec fn locked(self, fh: Seq<u8>) -> bool {
        exists|s: Seq<u8>| #[trigger]
            self.lanes.contains_key(s) && self.held[self.lanes[s]].fh == fh
    }
}

impl LockState {
    pub open spec fn wf(self) -> bool {
        &&& self.lanes.wf()
        &&& self.aliases.wf()
        &&& self.held.wf()
        &&& self@.wf()
    }

    pub fn new() -> (locks: Self)
        ensures
            locks.wf(),
            locks@ == (LockView { lanes: Map::empty(), aliases: Map::empty(), held: Map::empty() }),
    {
        let locks = LockState {
            lanes: Table::new(),
            aliases: Table::new(),
            held: OrderedTable::new(),
        };
        assert(locks@.held =~= Map::empty());
        locks
    }

    /// Enters a lock and returns the number of its lane.
    pub fn register(&mut self, lane: LockLane) -> (id: u64)
        requires
            old(self).wf(),
        ensures
            final(self).wf(),
            !old(self)@.held.contains_key(id),
            final(self)@ == old(self)@.with_lane(id, lane@),
    {
        let ghost before = self@;
        let id: u64 = self.held.fresh_key();
        self.lanes.put(copy_from_slice(&lane.stateid), id);
        self.held.put(id, lane);
        proof {
            assert(self@.held =~= before.held.insert(id, lane@));
            assert forall|s: Seq<u8>| #[trigger] self@.lanes.contains_key(s) implies self@.held.contains_key(
                self@.lanes[s],
            ) by {
                assert(s == lane.stateid@ || before.lanes.contains_key(s));
            }
            assert forall|s: Seq<u8>| #[trigger] self@.aliases.contains_key(s) implies self@.held.contains_key(
                self@.aliases[s],
            ) by {
                assert(before.aliases.contains_key(s));
            }
        }
        id
    }

    /// The lane that a state leads to.
    pub fn by_stateid(&self, stateid: &[u8; 16]) -> (id: Option<u64>)
        requires
            self.wf(),
        ensures
            id == self@.named(stateid@),
    {
        match self.lanes.get(stateid) {
            Some(id) => Some(*id),
            None => match self.aliases.get(stateid) {
                Some(id) => Some(*id),
                None => None,
            },
        }
    }

    /// The lock on a lane.
    pub fn lane(&self, id: u64) -> (lane: Option<&LockLane>)
        requires
            self.wf(),
        ensures
            match lane {
                Some(lane) => self@.held.contains_key(id) && lane@ == self@.held[id],
                None => !self@.held.contains_key(id),
            },
    {
        self.held.get(id)
    }

    /// Gives a lane another content.
    pub fn update(&mut self, id: u64, lane: LockLane)
        requires
            old(self).wf(),
            old(self)@.held.contains_key(id),
        ensures
            final(self).wf(),
            final(self)@ == (LockView { held: old(self)@.held.insert(id, lane@), ..old(self)@ }),
    {
        let ghost before = self@;
        self.held.put(id, lane);
        assert(self@.held =~= before.held.insert(id, lane@));
    }

    /// Takes out the lock that a state leads to.
    pub fn remove(&mut self, stateid: &[u8; 16])
        requires
            old(self).wf(),
        ensures
            final(self).wf(),
            final(self)@ == old(self)@.without(stateid@),
    {
        let ghost before = self@;
        if let Some(id) = self.by_stateid(stateid) {
            self.lanes.remove_value(id);
            self.aliases.remove_value(id);
            let _ = self.held.remove(id);
            assert(self@.held =~= before.held.remove(id));
        }
    }

    /// Whether a lock is held on a file.
    pub fn has_fh(&self, fh: &Bytes) -> (locked: bool)
        requires
            self.wf(),
        ensures
            locked == self@.locked(contents(*fh)),
    {
        let mut i: usize = 0;
        while i < self.lanes.entries.len()
            invariant
                self.wf(),
                i <= self.lanes.entries@.len(),
                forall|j: int|
                    0 <= j < i ==> self@.held[(#[trigger] self.lanes.entries@[j]).value].fh
                        != contents(*fh),
            decreases self.lanes.entries.len() - i,
        {
            let id: u64 = self.lanes.entries[i].value;
            let ghost key = self.lanes.key_at(i as int);
            proof {
                self.lanes.lemma_entry(i as int);
                assert(self@.lanes.contains_key(key));
            }
            if let Some(lane) = self.held.get(id) {
                if same_bytes(&lane.fh, fh) {
                    return true;
                }
            }
            i += 1;
        }
        proof {
            assert forall|s: Seq<u8>| #[trigger] self@.lanes.contains_key(s) implies self@.held[self@.lanes[s]].fh
                != contents(*fh) by {
                let j = self.lanes.slot(s);
                assert(self.lanes.key_at(j) == s);
                self.lanes.lemma_entry(j);
                assert(self@.held[self.lanes.entries@[j].value].fh != contents(*fh));
            }
        }
        false
    }

    /// The lanes of the locks that are held, in the order of their owners.
    pub fn snapshot(&self) -> (ids: Vec<u64>)
        requires
            self.wf(),
        ensures
            forall|i: int|
                0 <= i < ids@.len() ==> self@.held.contains_key(#[trigger] ids@[i]),
            forall|i: int, j: int|
                0 <= i <= j < ids@.len() ==> self@.held[#[trigger] ids@[i]].owner
                    <= self@.held[#[trigger] ids@[j]].owner,
            ids@.to_multiset() == lane_ids(self.lanes).to_multiset(),
    {
        let mut ids: Vec<u64> = Vec::new();
        let mut i: usize = 0;
        let ghost all = lane_ids(self.lanes);
        assert(all.take(0) =~= Seq::empty());
        while i < self.lanes.entries.len()
            invariant
                self.wf(),
                i <= self.lanes.entries@.len(),
                all == lane_ids(self.lanes),
                ids@.to_multiset() == all.take(i as int).to_multiset(),
                forall|k: int|
                    0 <= k < ids@.len() ==> self@.held.contains_key(#[trigger] ids@[k]),
                forall|a: int, b: int|
                    0 <= a <= b < ids@.len() ==> self@.held[#[trigger] ids@[a]].owner
                        <= self@.held[#[trigger] ids@[b]].owner,
            decreases self.lanes.entries.len() - i,
        {
            let id: u64 = self.lanes.entries[i].value;
            proof {
                self.lanes.lemma_entry(i as int);
                assert(self@.lanes.contains_key(self.lanes.key_at(i as int)));
            }
            let ghost before = ids@;
            let owner: u64 = self.owner_of(id);
            let mut at: usize = 0;
            while at < ids.len() && self.owner_of(ids[at]) <= owner
                invariant
                    self.wf(),
                    at <= ids@.len(),
                    ids@ == before,
                    forall|k: int|
                        0 <= k < ids@.len() ==> self@.held.contains_key(#[trigger] ids@[k]),
                    forall|k: int|
                        0 <= k < at ==> self@.held[#[trigger] ids@[k]].owner <= owner,
                decreases ids.len() - at,
            {
                at += 1;
            }
            ids.insert(at, id);
            i += 1;
            proof {
                broadcast use vstd::seq_lib::group_to_multiset_ensures;

                assert(all.take(i as int) =~= all.take(i - 1).push(id));
                vstd::seq_lib::to_multiset_insert(before, at as int, id);
                assert forall|a: int, b: int| 0 <= a <= b < ids@.len() implies self@.held[#[trigger] ids@[a]].owner
                    <= self@.held[#[trigger] ids@[b]].owner by {
                    let x = if a < at { a } else { a - 1 };
                    let y = if b < at { b } else { b - 1 };
                    if a == at {
                        if b > at {
                            assert(before[at as int] == ids@[at + 1]);
                            assert(self@.held[before[at as int]].owner <= self@.held[before[y]].owner);
                        }
                    } else if b == at {
                        assert(self@.held[before[a]].owner <= owner);
                    } else {
                        assert(self@.held[before[x]].owner <= self@.held[before[y]].owner);
                    }
                }
            }
        }
        assert(all.take(all.len() as int) =~= all);
        ids
    }

    fn owner_of(&self, id: u64) -> (owner: u64)
        requires
            self.wf(),
            self@.held.contains_key(id),
        ensures
            owner == self@.held[id].owner,
    {
        match self.held.get(id) {
            Some(lane) => lane.owner,
            None => 0,
        }
    }

    /// Gives a lane another state; the old one still leads to it.
    pub fn rekey(&mut self, old_stateid: &[u8; 16], new_stateid: &[u8; 16], id: u64)
        requires
            old(self).wf(),
            old(self)@.held.contains_key(id),
        ensures
            final(self).wf(),
            final(self)@ == old(self)@.rekeyed(old_stateid@, new_stateid@, id),
    {
        let ghost before = self@;
        let _ = self.lanes.remove(old_stateid);
        self.lanes.put(copy_from_slice(new_stateid), id);
        self.aliases.put(copy_from_slice(old_stateid), id);
        proof {
            assert forall|s: Seq<u8>| #[trigger] self@.lanes.contains_key(s) implies self@.held.contains_key(
                self@.lanes[s],
            ) by {
                assert(s == new_stateid@ || before.lanes.contains_key(s));
            }
            assert forall|s: Seq<u8>| #[trigger] self@.aliases.contains_key(s) implies self@.held.contains_key(
                self@.aliases[s],
            ) by {
                assert(s == old_stateid@ || before.aliases.contains_key(s));
            }
        }
    }

    pub fn clear(&mut self)
        ensures
            final(self).wf(),
            final(self)@ == (LockView {
                lanes: Map::empty(),
                aliases: Map::empty(),
                held: Map::empty(),
            }),
    {
        self.lanes.clear();
        self.aliases.clear();
        self.held.clear();
        assert(self@.held =~= Map::empty());
    }
}

/// The lanes that a table leads to.
pub open spec fn lane_ids(lanes: Table<u64>) -> Seq<u64> {
    Seq::new(lanes.entries@.len(), |i: int| lanes.entries@[i].value)
}

/// The open files: by owner, and for each file its owners in the order in which they came.
pub struct OpenState {
    pub lanes: OrderedTable<OwnerLane>,
    pub by_fh: Table<Vec<u64>>,
}

/// The open files as specifications see them.
#[verifier::ext_equal]
pub struct OpenView {
    pub lanes: Map<u64, OwnerLaneView>,
    pub by_fh: Map<Seq<u8>, Seq<u64>>,
}

impl View for OpenState {
    type V = OpenView;

    open spec fn view(&self) -> OpenView {
        OpenView {
            lanes: self.lanes@.map_values(|lane: OwnerLane| lane@),
            by_fh: self.by_fh@.map_values(|owners: Vec<u64>| owners@),
        }
    }
}

/// Owners without one of them.
pub open spec fn without_owner(owners: Seq<u64>, owner: u64) -> Seq<u64>
    decreases owners.len(),
{
    if owners.len() == 0 {
        owners
    } else {
        let front = without_owner(owners.drop_last(), owner);
        if owners.last() == owner {
            front
        } else {
            front.push(owners.last())
        }
    }
}

/// The youngest of some owners that has one of the access bits. An owner that is not open
/// any more ends the search.
pub open spec fn youngest(owners: Seq<u64>, lanes: Map<u64, OwnerLaneView>, required: u32) -> Option<
    u64,
>
    decreases owners.len(),
{
    if owners.len() == 0 || !lanes.contains_key(owners.last()) {
        None
    } else if lanes[owners.last()].access & required != 0 {
        Some(owners.last())
    } else {
        youngest(owners.drop_last(), lanes, required)
    }
}

impl OpenView {
    /// The owners of a file.
    pub open spec fn owners(self, fh: Seq<u8>) -> Seq<u64> {
        if self.by_fh.contains_key(fh) {
            self.by_fh[fh]
        } else {
            Seq::empty()
        }
    }

    /// The open files with one more.
    pub open spec fn with_lane(self, lane: OwnerLaneView) -> OpenView {
        OpenView {
            lanes: self.lanes.insert(lane.owner, lane),
            by_fh: self.by_fh.insert(lane.fh, self.owners(lane.fh).push(lane.owner)),
        }
    }

    /// The open files without an owner of a file.
    pub open spec fn without(self, owner: u64, fh: Seq<u8>) -> OpenView {
        let left = without_owner(self.owners(fh), owner);
        OpenView {
            lanes: self.lanes.remove(owner),
            by_fh: if !self.by_fh.contains_key(fh) {
                self.by_fh
            } else if left.len() == 0 {
                self.by_fh.remove(fh)
            } else {
                self.by_fh.insert(fh, left)
            },
        }
    }

    /// The owner to use for a file.
    pub open spec fn chosen(self, fh: Seq<u8>, required: u32) -> Option<u64> {
        youngest(self.owners(fh), self.lanes, required)
    }
}

fn keep_others(owners: &Vec<u64>, owner: u64) -> (left: Vec<u64>)
    ensures
        left@ == without_owner(owners@, owner),
{
    let mut left: Vec<u64> = Vec::new();
    let mut i: usize = 0;
    assert(owners@.take(0) =~= Seq::empty());
    assert(left@ =~= Seq::empty());
    while i < owners.len()
        invariant
            i <= owners@.len(),
            left@ == without_owner(owners@.take(i as int), owner),
        decreases owners.len() - i,
    {
        if owners[i] != owner {
            left.push(owners[i]);
        }
        i += 1;
        assert(owners@.take(i as int).drop_last() =~= owners@.take(i - 1));
    }
    assert(owners@.take(owners@.len() as int) =~= owners@);
    left
}

impl OpenState {
    pub open spec fn wf(self) -> bool {
        &&& self.lanes.wf()
        &&& self.by_fh.wf()
    }

    pub fn new() -> (state: Self)
        ensures
            state.wf(),
            state@ == (OpenView { lanes: Map::empty(), by_fh: Map::empty() }),
    {
        let state = OpenState { lanes: OrderedTable::new(), by_fh: Table::new() };
        assert(state@.lanes =~= Map::empty());
        assert(state@.by_fh =~= Map::empty());
        state
    }

    /// Enters an open file.
    pub fn register(&mut self, lane: OwnerLane)
        requires
            old(self).wf(),
        ensures
            final(self).wf(),
            final(self)@ == old(self)@.with_lane(lane@),
    {
        let ghost before = self@;
        let owner: u64 = lane.owner;
        let fh = duplicate(&lane.fh);
        let ghost view = lane@;
        let mut owners: Vec<u64> = Vec::new();
        if let Some(known) = self.by_fh.get(as_slice(&fh)) {
            owners.extend_from_slice(known);
        }
        assert(owners@ =~= before.owners(view.fh));
        owners.push(owner);
        let ghost grown = owners@;
        self.lanes.put(owner, lane);
        self.by_fh.put(fh, owners);
        assert(self@.lanes =~= before.with_lane(view).lanes);
        assert(self@.by_fh =~= before.with_lane(view).by_fh);
    }

    /// The open file of an owner.
    pub fn by_owner(&self, owner: u64) -> (lane: Option<&OwnerLane>)
        requires
            self.wf(),
        ensures
            match lane {
                Some(lane) => self@.lanes.contains_key(owner) && lane@ == self@.lanes[owner],
                None => !self@.lanes.contains_key(owner),
            },
    {
        self.lanes.get(owner)
    }

    /// Gives an owner another content.
    pub fn update(&mut self, owner: u64, lane: OwnerLane)
        requires
            old(self).wf(),
        ensures
            final(self).wf(),
            final(self)@ == (OpenView {
                lanes: old(self)@.lanes.insert(owner, lane@),
                ..old(self)@
            }),
    {
        let ghost before = self@;
        self.lanes.put(owner, lane);
        assert(self@.lanes =~= before.lanes.insert(owner, lane@));
    }

    /// The owner to use for a file: the one that came last among those with one of the
    /// access bits.
    pub fn for_fh(&self, fh: &Bytes, required_access: u32) -> (owner: Option<u64>)
        requires
            self.wf(),
        ensures
            owner == self@.chosen(contents(*fh), required_access),
    {
        let owners = match self.by_fh.get(as_slice(fh)) {
            Some(owners) => owners,
            None => {
                return None;
            },
        };
        assert(owners@ == self@.owners(contents(*fh)));
        let mut i: usize = owners.len();
        assert(owners@.take(i as int) =~= owners@);
        while i > 0
            invariant
                self.wf(),
                i <= owners@.len(),
                self@.chosen(contents(*fh), required_access) == youngest(
                    owners@.take(i as int),
                    self@.lanes,
                    required_access,
                ),
            decreases i,
        {
            i -= 1;
            let owner: u64 = owners[i];
            let ghost seen = owners@.take(i + 1);
            assert(seen.last() == owner);
            assert(seen.drop_last() =~= owners@.take(i as int));
            match self.by_owner(owner) {
                None => {
                    return None;
                },
                Some(lane) => {
                    assert(self@.lanes[owner].access == lane.access);
                    if lane.access & required_access != 0 {
                        return Some(owner);
                    }
                },
            }
        }
        None
    }

    /// Takes an owner of a file out.
    pub fn remove(&mut self, owner: u64, fh: &Bytes)
        requires
            old(self).wf(),
        ensures
            final(self).wf(),
            final(self)@ == old(self)@.without(owner, contents(*fh)),
    {
        let ghost before = self@;
        let _ = self.lanes.remove(owner);
        assert(self@.lanes =~= before.lanes.remove(owner));
        let left = match self.by_fh.get(as_slice(fh)) {
            None => {
                return ;
            },
            Some(owners) => keep_others(owners, owner),
        };
        let ghost left_view = left@;
        if left.len() == 0 {
            let _ = self.by_fh.remove(as_slice(fh));
        } else {
            self.by_fh.put(duplicate(fh), left);
        }
        assert(self@.by_fh =~= before.without(owner, contents(*fh)).by_fh);
    }

    /// The owners of the open files, the smallest first.
    pub fn snapshot(&self) -> (owners: Vec<u64>)
        requires
            self.wf(),
        ensures
            forall|i: int, j: int|
                0 <= i < j < owners@.len() ==> #[trigger] owners@[i] < #[trigger] owners@[j],
            forall|owner: u64| #[trigger]
                owners@.contains(owner) <==> self@.lanes.contains_key(owner),
    {
        self.lanes.keys()
    }

    pub fn clear(&mut self)
        ensures
            final(self).wf(),
            final(self)@ == (OpenView { lanes: Map::empty(), by_fh: Map::empty() }),
    {
        self.lanes.clear();
        self.by_fh.clear();
        assert(self@.lanes =~= Map::empty());
        assert(self@.by_fh =~= Map::empty());
    }
}

/// The state that an application holds of an open file: who issued it, and its owner.
pub open spec fn owner_bytes(issuer: u64, owner: u64) -> Seq<u8> {
    be64(issuer) + be64(owner)
}

/// Who issued some state, and its owner.
pub open spec fn owner_of_bytes(s: Seq<u8>) -> Option<(u64, u64)> {
    if s.len() != 16 {
        None
    } else {
        Some((hyper(s), hyper(s.skip(8))))
    }
}

pub fn encode_owner(issuer: u64, owner: u64) -> (state: Bytes)
    ensures
        contents(state) == owner_bytes(issuer, owner),
{
    let mut bytes: Vec<u8> = Vec::new();
    xdr_u64(&mut bytes, issuer);
    xdr_u64(&mut bytes, owner);
    assert(bytes@ =~= owner_bytes(issuer, owner));
    from_vec(bytes)
}

pub fn decode_owner(state: &Bytes) -> (owner: Option<(u64, u64)>)
    ensures
        owner == owner_of_bytes(contents(*state)),
{
    if remaining(state) != 16 {
        return None;
    }
    let bytes = as_slice(state);
    let ghost s = bytes@;
    assert(s.skip(0) =~= s);
    assert(s.skip(8).skip(4) =~= s.skip(12));
    let issuer: u64 = read_u32(bytes, 0) as u64 * 0x1_0000_0000 + read_u32(bytes, 4) as u64;
    let owner: u64 = read_u32(bytes, 8) as u64 * 0x1_0000_0000 + read_u32(bytes, 12) as u64;
    Some((issuer, owner))
}

/// The state that an application holds leads back to its issuer and its owner.
pub proof fn law_owner_state_round_trips(issuer: u64, owner: u64)
    ensures
        owner_of_bytes(owner_bytes(issuer, owner)) == Some((issuer, owner)),
{
    lemma_two_hypers(issuer, owner);
}

/// A file that is opened again keeps the owners that it had, each with its own state.
pub proof fn law_owners_of_one_file_are_independent(state: OpenView, lane: OwnerLaneView, other: u64)
    requires
        other != lane.owner,
    ensures
        state.with_lane(lane).lanes.contains_key(other) == state.lanes.contains_key(other),
        state.lanes.contains_key(other) ==> state.with_lane(lane).lanes[other] == state.lanes[other],
        state.with_lane(lane).lanes[lane.owner] == lane,
{
}

/// The youngest owner is used first, if it has the access.
pub proof fn law_youngest_open_is_chosen(state: OpenView, lane: OwnerLaneView, required: u32)
    requires
        lane.access & required != 0,
    ensures
        state.with_lane(lane).chosen(lane.fh, required) == Some(lane.owner),
{
    assert(state.with_lane(lane).owners(lane.fh) =~= state.owners(lane.fh).push(lane.owner));
}

/// After a new state is given to a lock, both the old and the new state lead to it.
pub proof fn law_rekeyed_lock_keeps_its_old_name(
    locks: LockView,
    old_stateid: Seq<u8>,
    new_stateid: Seq<u8>,
    id: u64,
)
    ensures
        locks.rekeyed(old_stateid, new_stateid, id).named(new_stateid) == Some(id),
        locks.rekeyed(old_stateid, new_stateid, id).named(old_stateid) == Some(id),
        locks.rekeyed(old_stateid, new_stateid, id).held == locks.held,
{
}

/// A lock that was taken out cannot be reached by any of its states.
pub proof fn law_removed_lock_is_unreachable(locks: LockView, stateid: Seq<u8>, other: Seq<u8>)
    requires
        locks.named(stateid) is Some,
    ensures
        locks.without(stateid).named(other) != locks.named(stateid),
{
}

/// The open that is chosen for a file is one of its own, and has the access that is required;
/// where an open without a gap before it has the access, one is chosen.
pub proof fn law_chosen_open_has_the_access(state: OpenView, fh: Seq<u8>, required: u32)
    ensures
        state.chosen(fh, required) is Some ==> {
            let owner = state.chosen(fh, required)->Some_0;
            &&& state.owners(fh).contains(owner)
            &&& state.lanes.contains_key(owner)
            &&& state.lanes[owner].access & required != 0
        },
        state.chosen(fh, required) is None ==> forall|i: int|
            0 <= i < state.owners(fh).len() && (forall|k: int|
                i <= k < state.owners(fh).len() ==> state.lanes.contains_key(
                    #[trigger] state.owners(fh)[k],
                )) ==> state.lanes[#[trigger] state.owners(fh)[i]].access & required == 0,
{
    lemma_youngest_has_the_access(state.owners(fh), state.lanes, required);
}

proof fn lemma_youngest_has_the_access(
    owners: Seq<u64>,
    lanes: Map<u64, OwnerLaneView>,
    required: u32,
)
    ensures
        youngest(owners, lanes, required) is Some ==> {
            let owner = youngest(owners, lanes, required)->Some_0;
            &&& owners.contains(owner)
            &&& lanes.contains_key(owner)
            &&& lanes[owner].access & required != 0
        },
        youngest(owners, lanes, required) is None ==> forall|i: int|
            0 <= i < owners.len() && (forall|k: int|
                i <= k < owners.len() ==> lanes.contains_key(#[trigger] owners[k]))
                ==> lanes[#[trigger] owners[i]].access & required == 0,
    decreases owners.len(),
{
    if owners.len() > 0 && lanes.contains_key(owners.last()) {
        let before = owners.drop_last();
        assert(owners.contains(owners[owners.len() - 1]));
        if lanes[owners.last()].access & required == 0 {
            lemma_youngest_has_the_access(before, lanes, required);
            let found = youngest(before, lanes, required);
            if found is Some {
                let i = choose|i: int| 0 <= i < before.len() && before[i] == found->Some_0;
                assert(owners[i] == found->Some_0);
            } else {
                assert forall|i: int|
                    0 <= i < owners.len() && (forall|k: int|
                        i <= k < owners.len() ==> lanes.contains_key(
                            #[trigger] owners[k],
                        )) implies lanes[#[trigger] owners[i]].access & required == 0 by {
                    if i < before.len() {
                        assert forall|k: int| i <= k < before.len() implies lanes.contains_key(
                            #[trigger] before[k],
                        ) by {
                            assert(lanes.contains_key(owners[k]));
                        }
                        assert(before[i] == owners[i]);
                    }
                }
            }
        }
    } else if owners.len() > 0 {
        assert forall|i: int|
            0 <= i < owners.len() && (forall|k: int|
                i <= k < owners.len() ==> lanes.contains_key(#[trigger] owners[k])) implies lanes[
        #[trigger] owners[i]].access & required == 0 by {
            assert(lanes.contains_key(owners[owners.len() - 1]));
        }
    }
}

/// An owner that is taken out is gone from the list, and the others stay.
pub proof fn law_removed_owner_leaves_the_others(owners: Seq<u64>, owner: u64)
    ensures
        forall|other: u64| #[trigger]
            without_owner(owners, owner).contains(other) <==> owners.contains(other) && other
                != owner,
    decreases owners.len(),
{
    if owners.len() > 0 {
        let front = without_owner(owners.drop_last(), owner);
        let all = without_owner(owners, owner);
        law_removed_owner_leaves_the_others(owners.drop_last(), owner);
        assert forall|other: u64| #[trigger] all.contains(other) <==> owners.contains(other)
            && other != owner by {
            assert(front.contains(other) <==> owners.drop_last().contains(other) && other != owner);
            if front.contains(other) {
                let i = choose|i: int| 0 <= i < front.len() && front[i] == other;
                assert(all[i] == other);
                let k = choose|k: int|
                    0 <= k < owners.drop_last().len() && owners.drop_last()[k] == other;
                assert(owners[k] == other);
            }
            if owners.contains(other) && other != owners.last() {
                let k = choose|k: int| 0 <= k < owners.len() && owners[k] == other;
                assert(owners.drop_last()[k] == other);
            }
            if owners.last() != owner {
                assert(all[all.len() - 1] == owners.last());
            }
            if all.contains(other) && !front.contains(other) {
                assert(other == owners.last());
                assert(owners[owners.len() - 1] == other);
            }
        }
    }
}

/// A file that was closed by one owner is still open for the others.
pub proof fn law_closing_leaves_other_owners(state: OpenView, owner: u64, fh: Seq<u8>, other: u64)
    requires
        other != owner,
    ensures
        !state.without(owner, fh).lanes.contains_key(owner),
        state.without(owner, fh).lanes.contains_key(other) == state.lanes.contains_key(other),
        !state.without(owner, fh).owners(fh).contains(owner),
        state.without(owner, fh).owners(fh).contains(other) == state.owners(fh).contains(other),
{
    law_removed_owner_leaves_the_others(state.owners(fh), owner);
    let left = without_owner(state.owners(fh), owner);
    assert(left.contains(other) <==> state.owners(fh).contains(other) && other != owner);
    assert(!left.contains(owner));
    if left.len() == 0 {
        assert(!left.contains(other));
    }
}

/// A lock that was entered is found by its stateid, with what was entered; others stay.
pub proof fn law_entered_lock_is_found(locks: LockView, id: u64, lane: LockLaneView, other: u64)
    requires
        other != id,
    ensures
        locks.with_lane(id, lane).named(lane.stateid) == Some(id),
        locks.with_lane(id, lane).held[id] == lane,
        locks.with_lane(id, lane).held.contains_key(other) == locks.held.contains_key(other),
        locks.with_lane(id, lane).held[other] == locks.held[other],
        locks.with_lane(id, lane).locked(lane.fh),
{
    assert(locks.with_lane(id, lane).lanes.contains_key(lane.stateid));
}


} // verus!
