//! A failure-injecting front for remote storage: the first N attempts of
//! each distinct operation fail, then it is allowed through and its
//! counter is cleared. The storage calls themselves live with the driver;
//! this holds the per-operation attempt counters and decides every
//! admission.

use vstd::prelude::*;

verus! {

/// Why a remote download-path operation failed. The simulated failures
/// injected here surface as `Other`.
#[derive(Clone, Copy, PartialEq, Eq, Structural, Debug)]
pub enum DownloadError {
    Other,
}

/// One remote operation, identified by its kind and target paths.
#[derive(Debug)]
pub enum RemoteOp {
    ListPrefixes(Option<String>),
    Upload(String),
    Download(String),
    Delete(String),
    DeleteObjects(Vec<String>),
}

/// Element-wise equality of two path lists.
pub open spec fn strs_eq(x: Seq<String>, y: Seq<String>) -> bool {
    x.len() == y.len() && (forall|i: int| 0 <= i < x.len() ==> x[i]@ == y[i]@)
}

/// Two operations count as retries of the same operation: same kind, same
/// paths.
pub open spec fn op_matches(a: RemoteOp, b: RemoteOp) -> bool {
    match (a, b) {
        (RemoteOp::ListPrefixes(x), RemoteOp::ListPrefixes(y)) => match (x, y) {
            (None, None) => true,
            (Some(p), Some(q)) => p@ == q@,
            _ => false,
        },
        (RemoteOp::Upload(p), RemoteOp::Upload(q)) => p@ == q@,
        (RemoteOp::Download(p), RemoteOp::Download(q)) => p@ == q@,
        (RemoteOp::Delete(p), RemoteOp::Delete(q)) => p@ == q@,
        (RemoteOp::DeleteObjects(v), RemoteOp::DeleteObjects(w)) => strs_eq(v@, w@),
        _ => false,
    }
}

fn vec_str_eq(a: &Vec<String>, b: &Vec<String>) -> (r: bool)
    ensures
        r == strs_eq(a@, b@),
{
    if a.len() != b.len() {
        return false;
    }
    let mut i: usize = 0;
    while i < a.len()
        invariant
            i <= a@.len(),
            a@.len() == b@.len(),
            forall|j: int| 0 <= j < i ==> a@[j]@ == b@[j]@,
        decreases a@.len() - i,
    {
        if !(a[i] == b[i]) {
            return false;
        }
        i = i + 1;
    }
    true
}

/// Whether two operations are retries of the same operation.
pub fn op_eq(a: &RemoteOp, b: &RemoteOp) -> (r: bool)
    ensures
        r == op_matches(*a, *b),
{
    match (a, b) {
        (RemoteOp::ListPrefixes(x), RemoteOp::ListPrefixes(y)) => match (x, y) {
            (None, None) => true,
            (Some(p), Some(q)) => *p == *q,
            _ => false,
        },
        (RemoteOp::Upload(p), RemoteOp::Upload(q)) => *p == *q,
        (RemoteOp::Download(p), RemoteOp::Download(q)) => *p == *q,
        (RemoteOp::Delete(p), RemoteOp::Delete(q)) => *p == *q,
        (RemoteOp::DeleteObjects(v), RemoteOp::DeleteObjects(w)) => vec_str_eq(v, w),
        _ => false,
    }
}

/// The attempt count recorded for an operation, if any.
pub open spec fn att_lookup(s: Seq<(RemoteOp, u64)>, op: RemoteOp) -> Option<u64>
    decreases s.len(),
{
    if s.len() == 0 {
        None
    } else if op_matches(s[0].0, op) {
        Some(s[0].1)
    } else {
        att_lookup(s.drop_first(), op)
    }
}

/// No two recorded operations match each other.
pub open spec fn att_distinct(s: Seq<(RemoteOp, u64)>) -> bool {
    forall|i: int, j: int| 0 <= i < j < s.len() ==> !op_matches(s[i].0, s[j].0)
}

proof fn lemma_att_lookup_first_match(s: Seq<(RemoteOp, u64)>, op: RemoteOp, i: int)
    requires
        0 <= i < s.len(),
        op_matches(s[i].0, op),
        forall|j: int| 0 <= j < i ==> !op_matches(s[j].0, op),
    ensures
        att_lookup(s, op) == Some(s[i].1),
    decreases i,
{
    if i > 0 {
        lemma_att_lookup_first_match(s.drop_first(), op, i - 1);
    }
}

proof fn lemma_att_lookup_absent(s: Seq<(RemoteOp, u64)>, op: RemoteOp)
    requires
        forall|j: int| 0 <= j < s.len() ==> !op_matches(s[j].0, op),
    ensures
        att_lookup(s, op) is None,
    decreases s.len(),
{
    if s.len() > 0 {
        lemma_att_lookup_absent(s.drop_first(), op);
    }
}

/// Matching is symmetric and carries across matching keys.
proof fn lemma_op_matches_props(a: RemoteOp, b: RemoteOp, c: RemoteOp)
    ensures
        op_matches(a, b) == op_matches(b, a),
        op_matches(a, b) && op_matches(b, c) ==> op_matches(a, c),
{
}

proof fn lemma_att_lookup_update(s: Seq<(RemoteOp, u64)>, i: int, key: RemoteOp, v: u64, m: RemoteOp)
    requires
        0 <= i < s.len(),
        att_distinct(s),
        op_matches(key, s[i].0),
    ensures
        op_matches(s[i].0, m) ==> att_lookup(s.update(i, (key, v)), m) == Some(v),
        !op_matches(s[i].0, m) ==> att_lookup(s.update(i, (key, v)), m) == att_lookup(s, m),
    decreases i,
{
    let t = s.update(i, (key, v));
    lemma_op_matches_props(key, s[i].0, m);
    lemma_op_matches_props(s[i].0, key, m);
    if i == 0 {
        if op_matches(s[0].0, m) {
            assert(op_matches(key, m)) by {
                lemma_op_matches_props(key, s[0].0, m);
            }
        } else {
            if op_matches(key, m) {
                lemma_op_matches_props(s[0].0, key, m);
            }
            assert(t.drop_first() =~= s.drop_first());
        }
    } else {
        assert(t.drop_first() =~= s.drop_first().update(i - 1, (key, v)));
        assert(att_distinct(s.drop_first()));
        lemma_att_lookup_update(s.drop_first(), i - 1, key, v, m);
        if op_matches(s[i].0, m) {
            // the head does not match the class being updated
            assert(!op_matches(s[0].0, s[i].0));
            if op_matches(s[0].0, m) {
                lemma_op_matches_props(s[0].0, m, s[i].0);
                lemma_op_matches_props(m, s[i].0, s[0].0);
                assert(op_matches(s[0].0, s[i].0));
            }
        } else {
            if op_matches(s[0].0, m) {
                assert(att_lookup(t, m) == Some(t[0].1));
                assert(t[0] == s[0]);
            }
        }
    }
}

proof fn lemma_att_lookup_remove(s: Seq<(RemoteOp, u64)>, i: int, m: RemoteOp)
    requires
        0 <= i < s.len(),
        att_distinct(s),
    ensures
        op_matches(s[i].0, m) ==> att_lookup(s.remove(i), m) is None,
        !op_matches(s[i].0, m) ==> att_lookup(s.remove(i), m) == att_lookup(s, m),
    decreases i,
{
    let t = s.remove(i);
    if i == 0 {
        assert(t =~= s.drop_first());
        if op_matches(s[0].0, m) {
            assert forall|j: int| 0 <= j < t.len() implies !op_matches(t[j].0, m) by {
                assert(t[j] == s[j + 1]);
                assert(!op_matches(s[0].0, s[j + 1].0));
                if op_matches(s[j + 1].0, m) {
                    lemma_op_matches_props(s[0].0, m, s[j + 1].0);
                    lemma_op_matches_props(m, s[j + 1].0, s[0].0);
                    lemma_op_matches_props(s[j + 1].0, m, s[0].0);
                    assert(op_matches(s[0].0, s[j + 1].0));
                }
            }
            lemma_att_lookup_absent(t, m);
        }
    } else {
        assert(t[0] == s[0]);
        assert(t.drop_first() =~= s.drop_first().remove(i - 1));
        assert(att_distinct(s.drop_first()));
        lemma_att_lookup_remove(s.drop_first(), i - 1, m);
        if op_matches(s[i].0, m) && op_matches(s[0].0, m) {
            // the head would match the removed entry, contradicting
            // distinctness
            lemma_op_matches_props(s[i].0, m, s[0].0);
            lemma_op_matches_props(m, s[0].0, s[i].0);
            lemma_op_matches_props(s[0].0, m, s[i].0);
            assert(op_matches(s[0].0, s[i].0));
            assert(false);
        }
        if op_matches(s[0].0, m) {
            assert(att_lookup(t, m) == Some(t[0].1));
        }
    }
}

/// A wrapper around remote storage that causes the first `attempts_to_fail`
/// attempts of each distinct operation to fail, then lets it succeed and
/// clears its counter. For testing the paths above it.
#[derive(Debug)]
pub struct UnreliableWrapper {
    /// This many attempts of each operation will fail before one is let
    /// through.
    pub attempts_to_fail: u64,
    /// How many failed attempts of each operation have been made.
    pub attempts: Vec<(RemoteOp, u64)>,
}

impl UnreliableWrapper {
    /// Counters start at one, never reach the machine limit, and no two
    /// entries record the same operation.
    pub open spec fn wf(&self) -> bool {
        &&& self.attempts_to_fail > 0
        &&& att_distinct(self.attempts@)
        &&& (forall|i: int|
            0 <= i < self.attempts@.len() ==> 1 <= (#[trigger] self.attempts@[i]).1 < u64::MAX)
    }

    pub open spec fn spec_attempts_of(&self, op: RemoteOp) -> Option<u64> {
        att_lookup(self.attempts@, op)
    }

    pub fn new(attempts_to_fail: u64) -> (r: Self)
        requires
            attempts_to_fail > 0,
        ensures
            r.wf(),
            r.attempts_to_fail == attempts_to_fail,
            r.attempts@ == Seq::<(RemoteOp, u64)>::empty(),
    {
        UnreliableWrapper { attempts_to_fail, attempts: Vec::new() }
    }

    fn find_index(&self, op: &RemoteOp) -> (r: Option<usize>)
        ensures
            match r {
                Some(k) => k < self.attempts@.len() && op_matches(
                    self.attempts@[k as int].0,
                    *op,
                ) && (forall|j: int| 0 <= j < k ==> !op_matches(self.attempts@[j].0, *op)),
                None => forall|j: int|
                    0 <= j < self.attempts@.len() ==> !op_matches(self.attempts@[j].0, *op),
            },
    {
        let mut i: usize = 0;
        while i < self.attempts.len()
            invariant
                i <= self.attempts@.len(),
                forall|j: int| 0 <= j < i ==> !op_matches(self.attempts@[j].0, *op),
            decreases self.attempts@.len() - i,
        {
            if op_eq(&self.attempts[i].0, op) {
                return Some(i);
            }
            i = i + 1;
        }
        None
    }

    /// Gate one attempt of an operation. The first `attempts_to_fail`
    /// attempts return the simulated error and advance the counter; the
    /// next attempt is let through with the count it took, and the
    /// counter is cleared for the operation's next use.
    pub fn attempt(&mut self, op: RemoteOp) -> (r: Result<u64, DownloadError>)
        requires
            old(self).wf(),
        ensures
            final(self).wf(),
            final(self).attempts_to_fail == old(self).attempts_to_fail,
            match old(self).spec_attempts_of(op) {
                None => {
                    &&& r == Err::<u64, DownloadError>(DownloadError::Other)
                    &&& final(self).spec_attempts_of(op) == Some(1u64)
                    &&& (forall|m: RemoteOp|
                        !op_matches(op, m) ==> final(self).spec_attempts_of(m) == old(
                            self,
                        ).spec_attempts_of(m))
                },
                Some(c) => {
                    &&& (c + 1 >= old(self).attempts_to_fail ==> {
                        &&& r == Ok::<u64, DownloadError>((c + 1) as u64)
                        &&& final(self).spec_attempts_of(op) is None
                        &&& (forall|m: RemoteOp|
                            !op_matches(op, m) ==> final(self).spec_attempts_of(m) == old(
                                self,
                            ).spec_attempts_of(m))
                    })
                    &&& (c + 1 < old(self).attempts_to_fail ==> {
                        &&& r == Err::<u64, DownloadError>(DownloadError::Other)
                        &&& final(self).spec_attempts_of(op) == Some((c + 1) as u64)
                        &&& (forall|m: RemoteOp|
                            !op_matches(op, m) ==> final(self).spec_attempts_of(m) == old(
                                self,
                            ).spec_attempts_of(m))
                    })
                },
            },
    {
        let ghost s0 = self.attempts@;
        match self.find_index(&op) {
            Some(k) => {
                proof {
                    lemma_att_lookup_first_match(s0, op, k as int);
                    lemma_op_matches_props(s0[k as int].0, op, op);
                }
                let c: u64 = self.attempts[k].1;
                let attempts_before_this: u64 = c + 1;
                if attempts_before_this >= self.attempts_to_fail {
                    // let it succeed and clear the counter
                    let ghost key = s0[k as int].0;
                    self.attempts.remove(k);
                    proof {
                        assert forall|m: RemoteOp|
                            att_lookup(self.attempts@, m) == if op_matches(key, m) {
                                None
                            } else {
                                att_lookup(s0, m)
                            } by {
                            lemma_att_lookup_remove(s0, k as int, m);
                        }
                        assert forall|i: int, j: int|
                            0 <= i < j < self.attempts@.len() implies !op_matches(
                            self.attempts@[i].0,
                            self.attempts@[j].0,
                        ) by {
                            assert(self.attempts@ == s0.remove(k as int));
                            if i < k as int {
                                assert(self.attempts@[i] == s0[i]);
                            } else {
                                assert(self.attempts@[i] == s0[i + 1]);
                            }
                            if j < k as int {
                                assert(self.attempts@[j] == s0[j]);
                            } else {
                                assert(self.attempts@[j] == s0[j + 1]);
                            }
                        }
                        if op_matches(op, op) {
                        }
                        lemma_op_matches_props(key, op, op);
                        assert forall|m: RemoteOp|
                            !op_matches(op, m) implies att_lookup(self.attempts@, m) == att_lookup(
                            s0,
                            m,
                        ) by {
                            if op_matches(key, m) {
                                lemma_op_matches_props(key, op, m);
                                lemma_op_matches_props(op, key, m);
                                assert(op_matches(op, m));
                            }
                        }
                    }
                    Ok(attempts_before_this)
                } else {
                    let ghost key = s0[k as int].0;
                    self.attempts[k] = (op, attempts_before_this);
                    proof {
                        assert(self.attempts@ =~= s0.update(k as int, self.attempts@[k as int]));
                        assert(op_matches(self.attempts@[k as int].0, key)) by {
                            lemma_op_matches_props(key, op, key);
                            lemma_op_matches_props(op, key, key);
                        }
                        assert forall|m: RemoteOp|
                            att_lookup(self.attempts@, m) == if op_matches(key, m) {
                                Some(attempts_before_this)
                            } else {
                                att_lookup(s0, m)
                            } by {
                            lemma_att_lookup_update(
                                s0,
                                k as int,
                                self.attempts@[k as int].0,
                                attempts_before_this,
                                m,
                            );
                        }
                        assert(op_matches(key, op)) by {
                            lemma_op_matches_props(key, op, op);
                        }
                        assert forall|m: RemoteOp|
                            !op_matches(op, m) implies att_lookup(self.attempts@, m) == att_lookup(
                            s0,
                            m,
                        ) by {
                            if op_matches(key, m) {
                                lemma_op_matches_props(op, key, m);
                                assert(op_matches(op, m));
                            }
                        }
                        assert forall|i: int, j: int|
                            0 <= i < j < self.attempts@.len() implies !op_matches(
                            self.attempts@[i].0,
                            self.attempts@[j].0,
                        ) by {
                            if i == k as int {
                                if op_matches(self.attempts@[i].0, self.attempts@[j].0) {
                                    lemma_op_matches_props(key, op, self.attempts@[j].0);
                                    assert(op_matches(s0[i].0, s0[j].0));
                                }
                            } else if j == k as int {
                                if op_matches(self.attempts@[i].0, self.attempts@[j].0) {
                                    lemma_op_matches_props(self.attempts@[i].0, op, key);
                                    lemma_op_matches_props(key, op, self.attempts@[i].0);
                                    lemma_op_matches_props(op, key, self.attempts@[i].0);
                                    assert(op_matches(s0[i].0, s0[j].0)) by {
                                        lemma_op_matches_props(s0[i].0, s0[j].0, op);
                                        lemma_op_matches_props(s0[j].0, s0[i].0, op);
                                    }
                                }
                            }
                        }
                    }
                    Err(DownloadError::Other)
                }
            },
            None => {
                proof {
                    lemma_att_lookup_absent(s0, op);
                }
                self.attempts.push((op, 1));
                proof {
                    assert(self.attempts@ =~= s0.push(self.attempts@[self.attempts@.len() - 1]));
                    let key = self.attempts@[self.attempts@.len() - 1].0;
                    assert(op_matches(key, op)) by {
                        lemma_op_matches_props(key, op, op);
                    }
                    assert forall|m: RemoteOp|
                        att_lookup(self.attempts@, m) == if op_matches(key, m) {
                            Some(1u64)
                        } else {
                            att_lookup(s0, m)
                        } by {
                        lemma_att_push_lookup(s0, key, 1u64, m);
                    }
                    assert forall|m: RemoteOp|
                        !op_matches(op, m) implies att_lookup(self.attempts@, m) == att_lookup(
                        s0,
                        m,
                    ) by {
                        if op_matches(key, m) {
                            lemma_op_matches_props(op, key, m);
                            assert(op_matches(op, m));
                        }
                    }
                    assert(att_lookup(self.attempts@, op) == Some(1u64));
                    assert forall|i: int, j: int|
                        0 <= i < j < self.attempts@.len() implies !op_matches(
                        self.attempts@[i].0,
                        self.attempts@[j].0,
                    ) by {
                        if j == self.attempts@.len() - 1 {
                            if op_matches(s0[i].0, key) {
                                lemma_op_matches_props(s0[i].0, key, op);
                                assert(op_matches(s0[i].0, op));
                            }
                        }
                    }
                }
                Err(DownloadError::Other)
            },
        }
    }
}

proof fn lemma_att_push_lookup(s: Seq<(RemoteOp, u64)>, key: RemoteOp, v: u64, m: RemoteOp)
    requires
        forall|j: int| 0 <= j < s.len() ==> !op_matches(s[j].0, key),
    ensures
        op_matches(key, m) ==> att_lookup(s.push((key, v)), m) == Some(v),
        !op_matches(key, m) ==> att_lookup(s.push((key, v)), m) == att_lookup(s, m),
    decreases s.len(),
{
    let t = s.push((key, v));
    if s.len() == 0 {
        assert(t[0] == (key, v));
        if !op_matches(key, m) {
            assert(t.drop_first() =~= Seq::<(RemoteOp, u64)>::empty());
            assert(att_lookup(t, m) == att_lookup(t.drop_first(), m));
        }
    } else {
        assert(t[0] == s[0]);
        assert(t.drop_first() =~= s.drop_first().push((key, v)));
        lemma_att_push_lookup(s.drop_first(), key, v, m);
        if op_matches(key, m) {
            // the head cannot match m, else it would match the key
            if op_matches(s[0].0, m) {
                lemma_op_matches_props(s[0].0, m, key);
                lemma_op_matches_props(key, m, s[0].0);
                lemma_op_matches_props(m, key, s[0].0);
                assert(op_matches(s[0].0, key));
            }
            assert(att_lookup(t, m) == att_lookup(t.drop_first(), m));
        } else {
            if op_matches(s[0].0, m) {
                assert(att_lookup(t, m) == Some(t[0].1));
            } else {
                assert(att_lookup(t, m) == att_lookup(t.drop_first(), m));
                assert(att_lookup(s, m) == att_lookup(s.drop_first(), m));
            }
        }
    }
}

} // verus!
