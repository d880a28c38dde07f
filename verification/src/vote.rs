//! Vote rows and the per-course vote tally.

use crate::course::Course2;
use crate::data::Data;
use crate::data::lemma_wf_record_update;
use vstd::prelude::*;

verus! {

/// One vote row: who voted on which course, the value, and when.
#[derive(Clone, Copy, Debug, PartialEq, Eq, Structural)]
pub struct Vote {
    pub account_id: u64,
    pub course_id: u64,
    pub value: i32,
    pub timestamp: i64,
}

impl Vote {
    pub fn get_value(&self) -> (r: i32)
        ensures
            r == self.value,
    {
        self.value
    }
}

/// At most one vote row exists per account-and-course pair.  Voting
/// maintains this, so the row an upsert rewrites or a withdrawal removes
/// is the pair's one row.
pub open spec fn votes_unique(votes: Seq<Vote>) -> bool {
    forall|j1: int, j2: int|
        0 <= j1 < j2 < votes.len() ==> !((#[trigger] votes[j1]).account_id == (
        #[trigger] votes[j2]).account_id && votes[j1].course_id == votes[j2].course_id)
}

/// Sum of the vote values cast on one course.
pub open spec fn vote_tally(votes: Seq<Vote>, course_id: u64) -> int
    decreases votes.len(),
{
    if votes.len() == 0 {
        0
    } else {
        vote_tally(votes.drop_last(), course_id) + if votes.last().course_id == course_id {
            votes.last().value as int
        } else {
            0int
        }
    }
}

impl Data {
    /// Index of the first vote row of this account on this course, if any.
    fn find_vote_idx(&self, account_id: u64, course_id: u64) -> (r: Option<usize>)
        ensures
            match r {
                Some(k) => {
                    &&& 0 <= k < self.votes@.len()
                    &&& self.votes@[k as int].account_id == account_id
                    &&& self.votes@[k as int].course_id == course_id
                    &&& forall|j: int|
                        0 <= j < k ==> !((#[trigger] self.votes@[j]).account_id == account_id
                            && self.votes@[j].course_id == course_id)
                },
                None => forall|j: int|
                    0 <= j < self.votes@.len() ==> !((#[trigger] self.votes@[j]).account_id
                        == account_id && self.votes@[j].course_id == course_id),
            },
    {
        let mut k: usize = 0;
        while k < self.votes.len()
            invariant
                k <= self.votes@.len(),
                forall|j: int|
                    0 <= j < k ==> !((#[trigger] self.votes@[j]).account_id == account_id
                        && self.votes@[j].course_id == course_id),
            decreases self.votes@.len() - k,
        {
            if self.votes[k].account_id == account_id && self.votes[k].course_id == course_id {
                return Some(k);
            }
            k = k + 1;
        }
        None
    }

    /// The value of the vote this account has cast on this course, or zero
    /// when it has cast none.
    pub fn get_vote_for_account(&self, account_id: u64, course_id: u64) -> (r: i32)
        ensures
            (exists|k: int|
                0 <= k < self.votes@.len() && (#[trigger] self.votes@[k]).account_id == account_id
                    && self.votes@[k].course_id == course_id && r == self.votes@[k].value) || (r
                == 0 && forall|j: int|
                0 <= j < self.votes@.len() ==> !((#[trigger] self.votes@[j]).account_id
                    == account_id && self.votes@[j].course_id == course_id)),
    {
        match self.find_vote_idx(account_id, course_id) {
            Some(k) => self.votes[k].get_value(),
            None => 0,
        }
    }

    /// Sum of the stored vote values on one course.
    fn tally_course(&self, course_id: u64) -> (r: i64)
        requires
            self.votes@.len() < 0x8000_0000,
        ensures
            r == vote_tally(self.votes@, course_id),
    {
        let mut acc: i64 = 0;
        let mut i: usize = 0;
        let n = self.votes.len();
        while i < n
            invariant
                i <= n,
                n == self.votes@.len(),
                n < 0x8000_0000,
                acc == vote_tally(self.votes@.take(i as int), course_id),
                -((i as int) * 0x8000_0000) <= acc <= (i as int) * 0x8000_0000,
            decreases n - i,
        {
            proof {
                assert(self.votes@.take(i + 1).drop_last() =~= self.votes@.take(i as int));
                assert(self.votes@.take(i + 1).last() == self.votes@[i as int]);
                assert(((i + 1) as int) * 0x8000_0000 == (i as int) * 0x8000_0000 + 0x8000_0000)
                    by (nonlinear_arith);
                assert((i as int) * 0x8000_0000 < 0x8000_0000 * 0x8000_0000) by (nonlinear_arith)
                    requires
                        0 <= (i as int) && (i as int) < 0x8000_0000,
                ;
            }
            let v = self.votes[i];
            if v.course_id == course_id {
                acc = acc + v.value as i64;
            }
            i = i + 1;
        }
        proof {
            assert(self.votes@.take(n as int) =~= self.votes@);
        }
        acc
    }

    /// Casts, changes, or withdraws (`value == 0`) this account's vote on a
    /// course, then recomputes the course's stored tally from all votes.
    /// A vote on an id no stored course has is recorded but tallies onto
    /// nothing.
    pub fn vote_course2(&mut self, account_id: u64, course_id: u64, value: i32, now: i64)
        requires
            old(self).wf(),
            votes_unique(old(self).votes@),
            old(self).votes@.len() < 0x7FFF_FFFF,
        ensures
            final(self).wf(),
            votes_unique(final(self).votes@),
            final(self).perm_gen == old(self).perm_gen,
            final(self).bands() == old(self).bands(),
            final(self).next_id == old(self).next_id,
            final(self).lsh_index == old(self).lsh_index,
            ({
                let vs = old(self).votes@;
                let nv = (Vote { account_id, course_id, value, timestamp: now });
                if value == 0 {
                    (exists|k: int|
                        0 <= k < vs.len() && (#[trigger] vs[k]).account_id == account_id
                            && vs[k].course_id == course_id && final(self).votes@ == vs.remove(k))
                        || (final(self).votes@ == vs && forall|j: int|
                        0 <= j < vs.len() ==> !((#[trigger] vs[j]).account_id == account_id
                            && vs[j].course_id == course_id))
                } else {
                    (exists|k: int|
                        0 <= k < vs.len() && (#[trigger] vs[k]).account_id == account_id
                            && vs[k].course_id == course_id && final(self).votes@ == vs.update(
                            k,
                            nv,
                        )) || (final(self).votes@ == vs.push(nv) && forall|j: int|
                        0 <= j < vs.len() ==> !((#[trigger] vs[j]).account_id == account_id
                            && vs[j].course_id == course_id))
                }
            }),
            (exists|k: int|
                0 <= k < old(self).courses@.len() && (#[trigger] old(self).courses@[k]).id
                    == course_id && ({
                    let c = old(self).courses@[k];
                    let c2 = final(self).courses@[k];
                    &&& c2 == (Course2 { votes: c2.votes, ..c })
                    &&& c2.votes == vote_tally(final(self).votes@, course_id)
                    &&& final(self).courses@ == old(self).courses@.update(k, c2)
                })) || (final(self).courses@ == old(self).courses@ && forall|k: int|
                0 <= k < old(self).courses@.len() ==> (#[trigger] old(self).courses@[k]).id
                    != course_id),
    {
        let ghost vs = old(self).votes@;
        match self.find_vote_idx(account_id, course_id) {
            Some(k) => {
                if value == 0 {
                    let _ = self.votes.remove(k);
                    proof {
                        assert forall|j: int|
                            0 <= j < self.votes@.len() implies #[trigger] self.votes@[j] == (if j
                            < k {
                            vs[j]
                        } else {
                            vs[j + 1]
                        }) by {}
                        assert forall|j1: int, j2: int|
                            0 <= j1 < j2 < self.votes@.len() implies !((
                            #[trigger] self.votes@[j1]).account_id == (
                            #[trigger] self.votes@[j2]).account_id && self.votes@[j1].course_id
                                == self.votes@[j2].course_id) by {
                            let m1 = if j1 < k {
                                j1
                            } else {
                                j1 + 1
                            };
                            let m2 = if j2 < k {
                                j2
                            } else {
                                j2 + 1
                            };
                            assert(!(vs[m1].account_id == vs[m2].account_id && vs[m1].course_id
                                == vs[m2].course_id));
                        }
                    }
                } else {
                    self.votes[k] = Vote { account_id, course_id, value, timestamp: now };
                    proof {
                        assert forall|j1: int, j2: int|
                            0 <= j1 < j2 < self.votes@.len() implies !((
                            #[trigger] self.votes@[j1]).account_id == (
                            #[trigger] self.votes@[j2]).account_id && self.votes@[j1].course_id
                                == self.votes@[j2].course_id) by {
                            assert(vs[k as int].account_id == account_id);
                            assert(vs[k as int].course_id == course_id);
                            assert(!(vs[j1].account_id == vs[j2].account_id && vs[j1].course_id
                                == vs[j2].course_id));
                        }
                    }
                }
            },
            None => {
                if value != 0 {
                    self.votes.push(Vote { account_id, course_id, value, timestamp: now });
                    proof {
                        assert forall|j1: int, j2: int|
                            0 <= j1 < j2 < self.votes@.len() implies !((
                            #[trigger] self.votes@[j1]).account_id == (
                            #[trigger] self.votes@[j2]).account_id && self.votes@[j1].course_id
                                == self.votes@[j2].course_id) by {
                            if j2 == vs.len() {
                                assert(self.votes@[j1] == vs[j1]);
                                assert(!(vs[j1].account_id == account_id && vs[j1].course_id
                                    == course_id));
                            } else {
                                assert(!(vs[j1].account_id == vs[j2].account_id
                                    && vs[j1].course_id == vs[j2].course_id));
                            }
                        }
                    }
                }
            },
        }
        proof {
            assert(self.votes@.len() < 0x8000_0000);
        }
        let tally = self.tally_course(course_id);
        match self.find_course_idx(course_id) {
            Some(k) => {
                let ghost pre = self.courses@;
                let mut rec = self.courses.remove(k);
                rec.votes = tally;
                self.courses.insert(k, rec);
                proof {
                    assert(self.courses@ =~= pre.update(k as int, self.courses@[k as int]));
                    lemma_wf_record_update(old(self), self, k as int);
                }
            },
            None => {
                proof {
                    crate::data::lemma_wf_same_store(old(self), self);
                }
            },
        }
    }
}

} // verus!
