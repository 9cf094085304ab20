//! The delegations of a mount (RFC 8881 §10.2).
//!
//! A delegation is recalled by its stateid and then returned to the server.

use bytes::Bytes;
use vstd::prelude::*;

use crate::buffer::{as_slice, contents, duplicate};
use crate::nfs41::callback::{RecallNotification, RecallView};
use crate::table::{equal_bytes, Table};

verus! {

/// A delegation.
#[derive(Clone, Copy, Debug)]
pub struct Delegation {
    pub stateid: [u8; 16],
}

/// The delegations of a mount by filehandle.
pub struct DelegationManager {
    pub delegations: Table<Delegation>,
}

impl View for DelegationManager {
    type V = Map<Seq<u8>, Seq<u8>>;

    /// Stateids by filehandle.
    open spec fn view(&self) -> Map<Seq<u8>, Seq<u8>> {
        self.delegations@.map_values(|delegation: Delegation| delegation.stateid@)
    }
}

/// Whether a file is delegated under a stateid.
pub open spec fn delegated(map: Map<Seq<u8>, Seq<u8>>, stateid: Seq<u8>) -> bool {
    exists|fh: Seq<u8>| #[trigger] map.contains_key(fh) && map[fh] == stateid
}

/// Whether a file is delegated under a stateid that begins with some bytes.
pub open spec fn delegated_under(map: Map<Seq<u8>, Seq<u8>>, prefix: Seq<u8>) -> bool {
    exists|fh: Seq<u8>| #[trigger] map.contains_key(fh) && map[fh].take(8) == prefix
}

impl DelegationManager {
    pub open spec fn wf(self) -> bool {
        self.delegations.wf()
    }

    pub fn new() -> (manager: Self)
        ensures
            manager.wf(),
            manager@ == Map::<Seq<u8>, Seq<u8>>::empty(),
    {
        let manager = DelegationManager { delegations: Table::new() };
        assert(manager@ =~= Map::<Seq<u8>, Seq<u8>>::empty());
        manager
    }

    /// Notes the delegation of a file, in place of the one it had.
    pub fn register(&mut self, fh: &Bytes, stateid: [u8; 16])
        requires
            old(self).wf(),
        ensures
            final(self).wf(),
            final(self)@ == old(self)@.insert(contents(*fh), stateid@),
    {
        self.delegations.put(duplicate(fh), Delegation { stateid });
        assert(self@ =~= old(self)@.insert(contents(*fh), stateid@));
    }

    /// Takes out a delegation that is recalled and returns it. Where two files were delegated
    /// under one stateid, either may leave.
    pub fn handle_recall(&mut self, notification: &RecallNotification) -> (recalled: Option<
        Delegation,
    >)
        requires
            old(self).wf(),
        ensures
            final(self).wf(),
            match notification@ {
                RecallView::Delegation { stateid, .. } => if delegated(old(self)@, stateid) {
                    &&& recalled is Some
                    &&& recalled->Some_0.stateid@ == stateid
                    &&& exists|fh: Seq<u8>| #[trigger]
                        old(self)@.contains_key(fh) && old(self)@[fh] == stateid && final(self)@
                            == old(self)@.remove(fh)
                } else {
                    recalled is None && final(self)@ == old(self)@
                },
                _ => recalled is None && final(self)@ == old(self)@,
            },
    {
        let wanted: [u8; 16] = match notification {
            RecallNotification::Delegation { stateid, .. } => *stateid,
            _ => {
                return None;
            },
        };
        let mut i: usize = 0;
        while i < self.delegations.entries.len()
            invariant
                self.wf(),
                *self == *old(self),
                i <= self.delegations.entries@.len(),
                forall|k: int|
                    0 <= k < i ==> (#[trigger] self.delegations.entries@[k]).value.stateid@
                        != wanted@,
                notification@ is Delegation,
                notification@->Delegation_stateid == wanted@,
            decreases self.delegations.entries.len() - i,
        {
            if equal_bytes(&self.delegations.entries[i].value.stateid, &wanted) {
                proof {
                    self.delegations.lemma_entry(i as int);
                }
                let ghost key = self.delegations.key_at(i as int);
                assert(old(self)@.contains_key(key));
                let entry = self.delegations.remove_at(i);
                assert(self@ =~= old(self)@.remove(key));
                return Some(entry.value);
            }
            i += 1;
        }
        proof {
            assert forall|fh: Seq<u8>| #[trigger] self@.contains_key(fh) implies self@[fh]
                != wanted@ by {
                let k = self.delegations.slot(fh);
                assert(self.delegations.has(fh));
                assert(self.delegations.entries@[k].value.stateid@ != wanted@);
            }
        }
        None
    }

    /// Takes all delegations out and returns them with their filehandles.
    pub fn return_all(&mut self) -> (all: Vec<(Bytes, Delegation)>)
        requires
            old(self).wf(),
        ensures
            final(self).wf(),
            final(self)@ == Map::<Seq<u8>, Seq<u8>>::empty(),
            forall|i: int|
                0 <= i < all@.len() ==> old(self)@.contains_key(contents((#[trigger] all@[i]).0))
                    && old(self)@[contents(all@[i].0)] == all@[i].1.stateid@,
            forall|fh: Seq<u8>| #[trigger]
                old(self)@.contains_key(fh) ==> exists|i: int|
                    0 <= i < all@.len() && contents((#[trigger] all@[i]).0) == fh,
            forall|i: int, j: int|
                0 <= i < j < all@.len() ==> contents((#[trigger] all@[i]).0) != contents(
                    (#[trigger] all@[j]).0,
                ),
    {
        let ghost before = self.delegations;
        let mut all: Vec<(Bytes, Delegation)> = Vec::new();
        let mut i: usize = 0;
        while i < self.delegations.entries.len()
            invariant
                i <= self.delegations.entries@.len(),
                self.delegations == before,
                before.wf(),
                *self == *old(self),
                all@.len() == i,
                forall|k: int|
                    0 <= k < i ==> contents((#[trigger] all@[k]).0) == before.key_at(k) && all@[k].1
                        == before.entries@[k].value,
            decreases self.delegations.entries.len() - i,
        {
            all.push(
                (duplicate(&self.delegations.entries[i].key), self.delegations.entries[i].value),
            );
            i += 1;
        }
        self.delegations.clear();
        proof {
            assert(self@ =~= Map::<Seq<u8>, Seq<u8>>::empty());
            assert forall|k: int| 0 <= k < all@.len() implies old(self)@.contains_key(
                contents((#[trigger] all@[k]).0),
            ) && old(self)@[contents(all@[k].0)] == all@[k].1.stateid@ by {
                before.lemma_entry(k);
            }
            assert forall|fh: Seq<u8>| #[trigger] old(self)@.contains_key(fh) implies exists|k: int|
                0 <= k < all@.len() && contents((#[trigger] all@[k]).0) == fh by {
                let k = before.slot(fh);
                assert(before.has(fh));
                assert(contents(all@[k].0) == fh);
            }
        }
        all
    }

    /// A file that is delegated under a stateid that begins with some bytes, and the whole
    /// stateid.
    pub fn find_fh_by_stateid_prefix(&self, prefix: [u8; 8]) -> (found: Option<(Bytes, [u8; 16])>)
        requires
            self.wf(),
        ensures
            match found {
                Some((fh, stateid)) => self@.contains_key(contents(fh)) && self@[contents(fh)]
                    == stateid@ && stateid@.take(8) == prefix@,
                None => !delegated_under(self@, prefix@),
            },
    {
        let mut i: usize = 0;
        while i < self.delegations.entries.len()
            invariant
                self.wf(),
                i <= self.delegations.entries@.len(),
                forall|k: int|
                    0 <= k < i ==> (#[trigger] self.delegations.entries@[k]).value.stateid@.take(8)
                        != prefix@,
            decreases self.delegations.entries.len() - i,
        {
            let stateid: [u8; 16] = self.delegations.entries[i].value.stateid;
            let head: [u8; 8] = [
                stateid[0],
                stateid[1],
                stateid[2],
                stateid[3],
                stateid[4],
                stateid[5],
                stateid[6],
                stateid[7],
            ];
            assert(head@ =~= stateid@.take(8));
            if equal_bytes(&head, &prefix) {
                proof {
                    self.delegations.lemma_entry(i as int);
                }
                return Some((duplicate(&self.delegations.entries[i].key), stateid));
            }
            i += 1;
        }
        proof {
            assert forall|fh: Seq<u8>| #[trigger] self@.contains_key(fh) implies self@[fh].take(8)
                != prefix@ by {
                let k = self.delegations.slot(fh);
                assert(self.delegations.has(fh));
                assert(self.delegations.entries@[k].value.stateid@.take(8) != prefix@);
            }
        }
        None
    }

    /// Takes out the delegation of a file.
    pub fn remove(&mut self, fh: &Bytes) -> (removed: Option<Delegation>)
        requires
            old(self).wf(),
        ensures
            final(self).wf(),
            final(self)@ == old(self)@.remove(contents(*fh)),
            match removed {
                Some(delegation) => old(self)@.contains_key(contents(*fh)) && old(self)@[contents(
                    *fh,
                )] == delegation.stateid@,
                None => !old(self)@.contains_key(contents(*fh)),
            },
    {
        let removed = self.delegations.remove(as_slice(fh));
        assert(self@ =~= old(self)@.remove(contents(*fh)));
        removed
    }

    /// The delegation of a file.
    pub fn get(&self, fh: &Bytes) -> (found: Option<Delegation>)
        requires
            self.wf(),
        ensures
            match found {
                Some(delegation) => self@.contains_key(contents(*fh)) && self@[contents(*fh)]
                    == delegation.stateid@,
                None => !self@.contains_key(contents(*fh)),
            },
    {
        match self.delegations.get(as_slice(fh)) {
            Some(delegation) => Some(*delegation),
            None => None,
        }
    }
}

/// A delegation that was registered is found under its file, and those of other files stay as
/// they were.
pub proof fn law_files_are_delegated_independently(
    held: Map<Seq<u8>, Seq<u8>>,
    fh: Seq<u8>,
    stateid: Seq<u8>,
    other: Seq<u8>,
)
    requires
        other != fh,
    ensures
        delegated(held.insert(fh, stateid), stateid),
        held.insert(fh, stateid)[fh] == stateid,
        held.insert(fh, stateid).contains_key(other) == held.contains_key(other),
        held.remove(fh).contains_key(other) == held.contains_key(other),
        !held.remove(fh).contains_key(fh),
        held.contains_key(other) ==> held.insert(fh, stateid)[other] == held[other]
            && held.remove(fh)[other] == held[other],
{
    assert(held.insert(fh, stateid).contains_key(fh));
}

} // verus!
