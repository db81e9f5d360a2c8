//! Atomic timeline creation within one tenant: the bookkeeping that makes
//! a timeline either properly created and inserted into the tenant's map,
//! or fully abandoned. The driver owns the files and the timeline objects;
//! this holds which timelines exist and which are mid-creation, and makes
//! every admission decision.

use vstd::prelude::*;
use crate::ids::{Lsn, TimelineId};

verus! {

/// Why a timeline creation may not begin.
#[derive(Clone, Copy, PartialEq, Eq, Structural, Debug)]
pub enum TimelineCreationError {
    /// The timeline already exists in the tenant's map.
    AlreadyExists,
    /// Another creation of the same timeline is in flight.
    AlreadyCreating,
}

/// Why a timeline creation may not finish.
#[derive(Clone, Copy, PartialEq, Eq, Structural, Debug)]
pub enum TimelineFinishError {
    /// No initialized timeline data was produced for the final insert.
    NotInitialized,
    /// The caller never initialized the disk-consistent LSN.
    InvalidDiskConsistentLsn,
    /// A freshly initialized timeline was already in the tenant's map.
    AlreadyInserted,
}

/// The ids a list holds, pairwise distinct.
pub open spec fn tl_distinct(s: Seq<TimelineId>) -> bool {
    forall|i: int, j: int| 0 <= i < j < s.len() ==> s[i] != s[j]
}

/// The list with every occurrence of one id taken out.
pub open spec fn tl_remove(s: Seq<TimelineId>, id: TimelineId) -> Seq<TimelineId>
    decreases s.len(),
{
    if s.len() == 0 {
        Seq::<TimelineId>::empty()
    } else {
        tl_remove(s.drop_last(), id) + (if s.last() == id {
            Seq::<TimelineId>::empty()
        } else {
            seq![s.last()]
        })
    }
}

pub proof fn lemma_tl_remove_contains(s: Seq<TimelineId>, id: TimelineId, m: TimelineId)
    ensures
        tl_remove(s, id).contains(m) == (s.contains(m) && m != id),
    decreases s.len(),
{
    if s.len() == 0 {
    } else {
        lemma_tl_remove_contains(s.drop_last(), id, m);
        let r = tl_remove(s, id);
        let rd = tl_remove(s.drop_last(), id);
        if s.last() == id {
            assert(r =~= rd);
            if s.contains(m) && m != id {
                let i = choose|i: int| 0 <= i < s.len() && s[i] == m;
                assert(s.drop_last()[i] == m);
            }
            if rd.contains(m) {
                let i = choose|i: int|
                    0 <= i < s.drop_last().len() && s.drop_last()[i] == s.drop_last()[i]
                        && rd.contains(m);
                let j = choose|j: int| 0 <= j < rd.len() && rd[j] == m;
                assert(s.drop_last().contains(m));
                let x = choose|x: int| 0 <= x < s.drop_last().len() && s.drop_last()[x] == m;
                assert(s[x] == m);
            }
        } else {
            assert(r =~= rd.push(s.last()));
            if r.contains(m) {
                let i = choose|i: int| 0 <= i < r.len() && r[i] == m;
                if i < rd.len() {
                    assert(rd[i] == m);
                } else {
                    assert(s[s.len() - 1] == m);
                }
            }
            if s.contains(m) && m != id {
                let i = choose|i: int| 0 <= i < s.len() && s[i] == m;
                if i < s.len() - 1 {
                    assert(s.drop_last()[i] == m);
                    let j = choose|j: int| 0 <= j < rd.len() && rd[j] == m;
                    assert(r[j] == m);
                } else {
                    assert(r[r.len() - 1] == m);
                }
            }
        }
    }
}

pub proof fn lemma_tl_remove_distinct(s: Seq<TimelineId>, id: TimelineId)
    requires
        tl_distinct(s),
    ensures
        tl_distinct(tl_remove(s, id)),
    decreases s.len(),
{
    if s.len() == 0 {
    } else {
        assert(tl_distinct(s.drop_last()));
        lemma_tl_remove_distinct(s.drop_last(), id);
        let r = tl_remove(s, id);
        let rd = tl_remove(s.drop_last(), id);
        if s.last() == id {
            assert(r =~= rd);
        } else {
            assert(r =~= rd.push(s.last()));
            assert forall|i: int, j: int| 0 <= i < j < r.len() implies r[i] != r[j] by {
                if j == r.len() - 1 {
                    assert(rd.contains(r[i])) by {
                        assert(rd[i] == r[i]);
                    }
                    lemma_tl_remove_contains(s.drop_last(), id, r[i]);
                    let x = choose|x: int|
                        0 <= x < s.drop_last().len() && s.drop_last()[x] == r[i];
                    assert(s[x] == r[i]);
                    assert(s[x] != s[s.len() - 1]);
                }
            }
        }
    }
}

/// Which timelines a tenant holds and which are being created. Creation
/// is admitted at most once per id; a finished or abandoned creation
/// releases the id again.
#[derive(Debug)]
pub struct TenantTimelines {
    /// Timelines in the tenant's map.
    pub timelines: Vec<TimelineId>,
    /// Timelines whose creation is in flight.
    pub creating: Vec<TimelineId>,
}

impl TenantTimelines {
    pub open spec fn wf(&self) -> bool {
        &&& tl_distinct(self.timelines@)
        &&& tl_distinct(self.creating@)
    }

    pub fn new() -> (r: Self)
        ensures
            r.wf(),
            r.timelines@ == Seq::<TimelineId>::empty(),
            r.creating@ == Seq::<TimelineId>::empty(),
    {
        TenantTimelines { timelines: Vec::new(), creating: Vec::new() }
    }

    fn contains(v: &Vec<TimelineId>, id: TimelineId) -> (r: bool)
        ensures
            r == v@.contains(id),
    {
        let mut i: usize = 0;
        while i < v.len()
            invariant
                i <= v@.len(),
                forall|j: int| 0 <= j < i ==> v@[j] != id,
            decreases v@.len() - i,
        {
            if v[i].0 == id.0 {
                proof {
                    assert(v@[i as int] == id);
                }
                return true;
            }
            i = i + 1;
        }
        proof {
            if v@.contains(id) {
                let j = choose|j: int| 0 <= j < v@.len() && v@[j] == id;
                assert(false);
            }
        }
        false
    }

    /// Admit a creation: refused when the timeline already exists or is
    /// already being created; otherwise the id is marked in flight.
    pub fn begin_creation(&mut self, id: TimelineId) -> (r: Result<(), TimelineCreationError>)
        requires
            old(self).wf(),
        ensures
            final(self).wf(),
            final(self).timelines@ == old(self).timelines@,
            match r {
                Err(e) => *final(self) == *old(self) && ((e == TimelineCreationError::AlreadyExists
                    && old(self).timelines@.contains(id)) || (e
                    == TimelineCreationError::AlreadyCreating && !old(self).timelines@.contains(id)
                    && old(self).creating@.contains(id))),
                Ok(_) => !old(self).timelines@.contains(id) && !old(self).creating@.contains(id)
                    && final(self).creating@ == old(self).creating@.push(id),
            },
    {
        if Self::contains(&self.timelines, id) {
            Err(TimelineCreationError::AlreadyExists)
        } else if Self::contains(&self.creating, id) {
            Err(TimelineCreationError::AlreadyCreating)
        } else {
            self.creating.push(id);
            proof {
                assert forall|i: int, j: int|
                    0 <= i < j < self.creating@.len() implies self.creating@[i]
                    != self.creating@[j] by {
                    if j == self.creating@.len() - 1 {
                        assert(old(self).creating@.contains(self.creating@[i])) by {
                            assert(old(self).creating@[i] == self.creating@[i]);
                        }
                    }
                }
            }
            Ok(())
        }
    }

    /// Finish a creation: insert the timeline into the tenant's map, once
    /// the caller produced initialized data with a valid disk-consistent
    /// LSN and no collision sneaked in.
    pub fn finish_creation(
        &mut self,
        id: TimelineId,
        has_raw_timeline: bool,
        disk_consistent_lsn: Lsn,
    ) -> (r: Result<(), TimelineFinishError>)
        requires
            old(self).wf(),
        ensures
            final(self).wf(),
            final(self).creating@ == old(self).creating@,
            match r {
                Err(e) => *final(self) == *old(self) && ((e == TimelineFinishError::NotInitialized
                    && !has_raw_timeline) || (e == TimelineFinishError::InvalidDiskConsistentLsn
                    && has_raw_timeline && disk_consistent_lsn.0 == 0) || (e
                    == TimelineFinishError::AlreadyInserted && has_raw_timeline
                    && disk_consistent_lsn.0 != 0 && old(self).timelines@.contains(id))),
                Ok(_) => has_raw_timeline && disk_consistent_lsn.0 != 0 && !old(
                    self,
                ).timelines@.contains(id) && final(self).timelines@ == old(
                    self,
                ).timelines@.push(id),
            },
    {
        if !has_raw_timeline {
            return Err(TimelineFinishError::NotInitialized);
        }
        if !disk_consistent_lsn.is_valid() {
            return Err(TimelineFinishError::InvalidDiskConsistentLsn);
        }
        if Self::contains(&self.timelines, id) {
            return Err(TimelineFinishError::AlreadyInserted);
        }
        self.timelines.push(id);
        proof {
            assert forall|i: int, j: int|
                0 <= i < j < self.timelines@.len() implies self.timelines@[i]
                != self.timelines@[j] by {
                if j == self.timelines@.len() - 1 {
                    assert(old(self).timelines@.contains(self.timelines@[i])) by {
                        assert(old(self).timelines@[i] == self.timelines@[i]);
                    }
                }
            }
        }
        Ok(())
    }

    /// Release a creation slot, finished or abandoned: the id leaves the
    /// in-flight set (where dropping an uninitialized creation also lets
    /// the driver clean its files).
    pub fn end_creation(&mut self, id: TimelineId)
        requires
            old(self).wf(),
        ensures
            final(self).wf(),
            final(self).timelines@ == old(self).timelines@,
            final(self).creating@ == tl_remove(old(self).creating@, id),
            !final(self).creating@.contains(id),
    {
        let ghost c0 = self.creating@;
        let mut kept: Vec<TimelineId> = Vec::new();
        let mut i: usize = 0;
        while i < self.creating.len()
            invariant
                i <= c0.len(),
                self.creating@ == c0,
                self.timelines@ == old(self).timelines@,
                kept@ == tl_remove(c0.take(i as int), id),
            decreases c0.len() - i,
        {
            proof {
                assert(c0.take(i + 1).drop_last() =~= c0.take(i as int));
                assert(c0.take(i + 1).last() == c0[i as int]);
            }
            if !(self.creating[i].0 == id.0) {
                kept.push(self.creating[i]);
                proof {
                    assert(kept@ =~= tl_remove(c0.take(i + 1), id));
                }
            } else {
                proof {
                    assert(c0[i as int] == id);
                    assert(kept@ =~= tl_remove(c0.take(i + 1), id));
                }
            }
            i = i + 1;
        }
        proof {
            assert(c0.take(c0.len() as int) =~= c0);
        }
        self.creating = kept;
        proof {
            lemma_tl_remove_distinct(c0, id);
            lemma_tl_remove_contains(c0, id, id);
        }
    }
}

} // verus!
