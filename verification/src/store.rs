//! The Progress Store: one progress record per learner identity.
//!
//! The store keeps at most one `UserProgress` record per distinct owner
//! identity and exposes the three operations: `initialize_user`,
//! `complete_module` and `update_level`. Its mathematical model is a map from
//! owner identity to record; every contract below speaks of that map. Creation
//! of an already-occupied identity is rejected, mutations of a missing record
//! are rejected, and every mutation is gated on the signer matching the
//! record's owner.

use vstd::prelude::*;
use crate::identity::Identity;
use crate::progress::{
    completed_record,
    fresh_record,
    leveled_record,
    ModuleCompleted,
    ProgressError,
    UserProgress,
    ACHIEVEMENT_THRESHOLD,
    MAX_SCORE,
};

verus! {

/// No two records in `s` share an owner.
pub open spec fn distinct_owners(s: Seq<UserProgress>) -> bool {
    forall|i: int, j: int| 0 <= i < j < s.len() ==> s[i].owner != s[j].owner
}

/// Some record in `s` is owned by `id`.
pub open spec fn has_owner(s: Seq<UserProgress>, id: Identity) -> bool {
    exists|i: int| 0 <= i < s.len() && s[i].owner == id
}

/// An index of a record in `s` owned by `id`; meaningful only when
/// `has_owner(s, id)`.
pub open spec fn index_of_owner(s: Seq<UserProgress>, id: Identity) -> int {
    choose|i: int| 0 <= i < s.len() && s[i].owner == id
}

/// The records of `s` as a map from owner identity to record.
pub open spec fn records_map(s: Seq<UserProgress>) -> Map<Identity, UserProgress> {
    Map::new(|id: Identity| has_owner(s, id), |id: Identity| s[index_of_owner(s, id)])
}

/// With distinct owners, the record owned by `id` sits at exactly one index,
/// and the map reads it back.
proof fn lemma_owner_index(s: Seq<UserProgress>, id: Identity)
    requires
        distinct_owners(s),
        has_owner(s, id),
    ensures
        0 <= index_of_owner(s, id) < s.len(),
        s[index_of_owner(s, id)].owner == id,
        forall|j: int| 0 <= j < s.len() && s[j].owner == id ==> j == index_of_owner(s, id),
        records_map(s)[id] == s[index_of_owner(s, id)],
{
    let k = index_of_owner(s, id);
    assert(0 <= k < s.len() && s[k].owner == id);
    assert forall|j: int| 0 <= j < s.len() && s[j].owner == id implies j == k by {
        if j != k {
            if j < k {
                assert(s[j].owner != s[k].owner);
            } else {
                assert(s[k].owner != s[j].owner);
            }
        }
    }
}

/// Appending a record with a new owner inserts it into the map and keeps the
/// owners distinct.
proof fn lemma_records_map_push(s: Seq<UserProgress>, r: UserProgress)
    requires
        distinct_owners(s),
        !has_owner(s, r.owner),
    ensures
        distinct_owners(s.push(r)),
        records_map(s.push(r)) == records_map(s).insert(r.owner, r),
{
    let t = s.push(r);
    assert forall|i: int, j: int| 0 <= i < j < t.len() implies t[i].owner != t[j].owner by {
        if j < s.len() {
            assert(s[i].owner != s[j].owner);
        } else {
            assert(t[j] == r);
            assert(s[i].owner == t[i].owner);
        }
    }
    assert forall|id: Identity| #[trigger] has_owner(t, id) implies
        has_owner(s, id) || id == r.owner by {
        let i = choose|i: int| 0 <= i < t.len() && t[i].owner == id;
        if i < s.len() {
            assert(s[i].owner == id);
        }
    }
    assert forall|id: Identity| #[trigger] has_owner(s, id) implies has_owner(t, id) by {
        let i = choose|i: int| 0 <= i < s.len() && s[i].owner == id;
        assert(t[i].owner == id);
    }
    assert(t[s.len() as int].owner == r.owner);
    assert(has_owner(t, r.owner));
    assert forall|id: Identity| has_owner(t, id) implies
        #[trigger] records_map(t)[id] == records_map(s).insert(r.owner, r)[id] by {
        lemma_owner_index(t, id);
        let k = index_of_owner(t, id);
        if id == r.owner {
            assert(t[s.len() as int].owner == id);
            assert(k == s.len());
            assert(records_map(t)[id] == r);
        } else {
            assert(k < s.len());
            assert(s[k].owner == id);
            assert(has_owner(s, id));
            lemma_owner_index(s, id);
            assert(index_of_owner(s, id) == k);
            assert(records_map(s)[id] == s[k]);
        }
    }
    assert(records_map(t) =~= records_map(s).insert(r.owner, r));
}

/// Replacing the record at an index with one of the same owner updates the
/// map at that owner and keeps the owners distinct.
proof fn lemma_records_map_update(s: Seq<UserProgress>, i: int, r: UserProgress)
    requires
        distinct_owners(s),
        0 <= i < s.len(),
        r.owner == s[i].owner,
    ensures
        distinct_owners(s.update(i, r)),
        records_map(s.update(i, r)) == records_map(s).insert(r.owner, r),
{
    let t = s.update(i, r);
    assert forall|p: int, q: int| 0 <= p < q < t.len() implies t[p].owner != t[q].owner by {
        assert(t[p].owner == s[p].owner);
        assert(t[q].owner == s[q].owner);
        assert(s[p].owner != s[q].owner);
    }
    assert forall|id: Identity| #[trigger] has_owner(t, id) implies has_owner(s, id) by {
        let k = choose|k: int| 0 <= k < t.len() && t[k].owner == id;
        assert(s[k].owner == t[k].owner);
    }
    assert forall|id: Identity| #[trigger] has_owner(s, id) implies has_owner(t, id) by {
        let k = choose|k: int| 0 <= k < s.len() && s[k].owner == id;
        assert(t[k].owner == s[k].owner);
    }
    assert(t[i].owner == r.owner);
    assert(s[i].owner == r.owner);
    assert(has_owner(t, r.owner));
    assert(has_owner(s, r.owner));
    assert forall|id: Identity| has_owner(t, id) implies
        #[trigger] records_map(t)[id] == records_map(s).insert(r.owner, r)[id] by {
        lemma_owner_index(s, id);
        lemma_owner_index(t, id);
        let k = index_of_owner(t, id);
        assert(t[k].owner == id);
        if id == r.owner {
            assert(t[i].owner == id);
            assert(k == i);
            assert(records_map(t)[id] == r);
        } else {
            assert(k != i);
            assert(s[k].owner == id);
            assert(index_of_owner(s, id) == k);
            assert(records_map(s)[id] == s[k]);
            assert(records_map(t)[id] == t[k]);
            assert(t[k] == s[k]);
        }
    }
    assert(records_map(t) =~= records_map(s).insert(r.owner, r));
}

/// The Progress Store: the collection of all learners' progress records,
/// at most one per owner identity.
pub struct ProgressStore {
    records: Vec<UserProgress>,
}

impl ProgressStore {
    /// The store as a map from owner identity to that owner's record.
    pub closed spec fn view(&self) -> Map<Identity, UserProgress> {
        records_map(self.records@)
    }

    /// Well-formedness: no two records share an owner. Established by `new`
    /// and preserved by every operation.
    pub closed spec fn wf(&self) -> bool {
        distinct_owners(self.records@)
    }

    /// In a well-formed store, each record is keyed by its own owner field.
    pub proof fn lemma_keyed_by_owner(&self, id: Identity)
        requires
            self@.contains_key(id),
        ensures
            self@[id].owner == id,
    {
        let k = index_of_owner(self.records@, id);
        assert(0 <= k < self.records@.len() && self.records@[k].owner == id);
    }

    /// An empty store: no identity has a record.
    pub fn new() -> (r: ProgressStore)
        ensures
            r.wf(),
            r@ == Map::<Identity, UserProgress>::empty(),
    {
        let s = ProgressStore { records: Vec::new() };
        proof {
            assert(s@ =~= Map::<Identity, UserProgress>::empty());
        }
        s
    }

    /// The index of the record owned by `id`, if any.
    fn find_index(&self, id: &Identity) -> (r: Option<usize>)
        ensures
            match r {
                Some(i) => i < self.records@.len() && self.records@[i as int].owner == *id,
                None => !has_owner(self.records@, *id),
            },
    {
        let n = self.records.len();
        let mut i: usize = 0;
        while i < n
            invariant
                n == self.records@.len(),
                i <= n,
                forall|j: int| 0 <= j < i ==> self.records@[j].owner != *id,
            decreases n - i,
        {
            if self.records[i].owner == *id {
                return Some(i);
            }
            i = i + 1;
        }
        None
    }

    /// The record owned by `owner`, if one exists.
    pub fn get_progress(&self, owner: &Identity) -> (r: Option<UserProgress>)
        requires
            self.wf(),
        ensures
            match r {
                Some(rec) => self@.contains_key(*owner) && rec == self@[*owner],
                None => !self@.contains_key(*owner),
            },
    {
        match self.find_index(owner) {
            Some(i) => {
                proof {
                    lemma_owner_index(self.records@, *owner);
                }
                Some(self.records[i])
            },
            None => None,
        }
    }

    /// Creates the record for `caller`: owner `caller`, counter zero, level
    /// `INITIAL_LEVEL`.
    ///
    /// Succeeds exactly when the call is signed by the claimed caller and no
    /// record exists yet for that identity. A signer mismatch is
    /// `Unauthorized`; an occupied identity is `AlreadyInitialized`, so a
    /// second initialization of the same identity always fails. On any error
    /// the store is unchanged.
    pub fn initialize_user(&mut self, caller: Identity, signer: Identity) -> (r: Result<
        (),
        ProgressError,
    >)
        requires
            old(self).wf(),
        ensures
            final(self).wf(),
            r is Ok <==> (signer == caller && !old(self)@.contains_key(caller)),
            match r {
                Ok(()) => final(self)@ == old(self)@.insert(caller, fresh_record(caller)),
                Err(e) => {
                    &&& *final(self) == *old(self)
                    &&& (e == ProgressError::Unauthorized <==> signer != caller)
                    &&& (e == ProgressError::AlreadyInitialized <==> (signer == caller
                        && old(self)@.contains_key(caller)))
                },
            },
    {
        if signer != caller {
            return Err(ProgressError::Unauthorized);
        }
        if self.find_index(&caller).is_some() {
            return Err(ProgressError::AlreadyInitialized);
        }
        let rec = UserProgress::new(caller);
        proof {
            lemma_records_map_push(self.records@, rec);
        }
        self.records.push(rec);
        Ok(())
    }

    /// Applies one module completion to the record owned by `owner`.
    ///
    /// Succeeds exactly when that record exists, `signer` matches its owner,
    /// and `score` is at most `MAX_SCORE`; then the record's counter moves up
    /// by one (saturating) and nothing else in the store changes. The result
    /// carries a `ModuleCompleted` notification exactly when `score` reaches
    /// `ACHIEVEMENT_THRESHOLD`. A missing record is reported before a signer
    /// mismatch, and that before an out-of-range score. On any error the
    /// store is unchanged.
    pub fn complete_module(
        &mut self,
        owner: Identity,
        signer: Identity,
        module_id: String,
        score: u8,
        timestamp: i64,
    ) -> (r: Result<Option<ModuleCompleted>, ProgressError>)
        requires
            old(self).wf(),
        ensures
            final(self).wf(),
            r is Ok <==> (old(self)@.contains_key(owner) && signer == owner && score
                <= MAX_SCORE),
            match r {
                Ok(ev) => {
                    &&& final(self)@ == old(self)@.insert(
                        owner,
                        completed_record(old(self)@[owner]),
                    )
                    &&& match ev {
                        Some(e) => {
                            &&& score >= ACHIEVEMENT_THRESHOLD
                            &&& e.user == owner
                            &&& e.module_id@ == module_id@
                            &&& e.score == score
                            &&& e.timestamp == timestamp
                        },
                        None => score < ACHIEVEMENT_THRESHOLD,
                    }
                },
                Err(e) => {
                    &&& *final(self) == *old(self)
                    &&& (e == ProgressError::RecordNotFound <==> !old(self)@.contains_key(owner))
                    &&& (e == ProgressError::Unauthorized <==> (old(self)@.contains_key(owner)
                        && signer != owner))
                    &&& (e == ProgressError::InvalidScore <==> (old(self)@.contains_key(owner)
                        && signer == owner && score > MAX_SCORE))
                },
            },
    {
        let i = match self.find_index(&owner) {
            Some(i) => i,
            None => {
                return Err(ProgressError::RecordNotFound);
            },
        };
        proof {
            lemma_owner_index(self.records@, owner);
        }
        let ghost s0 = self.records@;
        let mut rec = self.records[i];
        let res = rec.record_completion(signer, module_id, score, timestamp);
        match res {
            Ok(ev) => {
                proof {
                    lemma_records_map_update(s0, i as int, rec);
                }
                self.records[i] = rec;
                Ok(ev)
            },
            Err(e) => Err(e),
        }
    }

    /// Overwrites the level of the record owned by `owner` with `new_level`.
    ///
    /// Succeeds exactly when that record exists and `signer` matches its
    /// owner; any byte value is accepted and the record's other fields, and
    /// every other record, are untouched. A missing record is reported before
    /// a signer mismatch. On any error the store is unchanged.
    pub fn update_level(&mut self, owner: Identity, signer: Identity, new_level: u8) -> (r: Result<
        (),
        ProgressError,
    >)
        requires
            old(self).wf(),
        ensures
            final(self).wf(),
            r is Ok <==> (old(self)@.contains_key(owner) && signer == owner),
            match r {
                Ok(()) => final(self)@ == old(self)@.insert(
                    owner,
                    leveled_record(old(self)@[owner], new_level),
                ),
                Err(e) => {
                    &&& *final(self) == *old(self)
                    &&& (e == ProgressError::RecordNotFound <==> !old(self)@.contains_key(owner))
                    &&& (e == ProgressError::Unauthorized <==> (old(self)@.contains_key(owner)
                        && signer != owner))
                },
            },
    {
        let i = match self.find_index(&owner) {
            Some(i) => i,
            None => {
                return Err(ProgressError::RecordNotFound);
            },
        };
        proof {
            lemma_owner_index(self.records@, owner);
        }
        let ghost s0 = self.records@;
        let mut rec = self.records[i];
        let res = rec.set_level(signer, new_level);
        match res {
            Ok(()) => {
                proof {
                    lemma_records_map_update(s0, i as int, rec);
                }
                self.records[i] = rec;
                Ok(())
            },
            Err(e) => Err(e),
        }
    }
}

} // verus!
