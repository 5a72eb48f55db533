//! Reviews and the rating aggregate: one review slot per identity, and a
//! rating numerator recomputed from the whole review set on every write.

use vstd::prelude::*;

use crate::catalog::find_course;
use crate::state::{
    course_at, course_ids_unique, course_index, course_wf, has_course, lemma_course_at_position,
    lemma_wf_course_ids_unique, profile_wf, purchase_backed, sum_critics, wf, Contract, ContractV,
};
use crate::types::{reviews_view, CourseV, Review, ReviewV};
use crate::ContractError;

verus! {

/// There is a review by this identity.
pub open spec fn has_review(rs: Seq<ReviewV>, uid: Seq<char>) -> bool {
    exists|i: int| 0 <= i < rs.len() && rs[i].user_id == uid
}

/// The position of the review by this identity (unique when identities
/// are).
pub open spec fn review_index(rs: Seq<ReviewV>, uid: Seq<char>) -> int {
    choose|i: int| 0 <= i < rs.len() && rs[i].user_id == uid
}

/// Each identity holds at most one review slot.
pub open spec fn reviewers_unique(rs: Seq<ReviewV>) -> bool {
    forall|i: int, j: int| 0 <= i < j < rs.len() ==> rs[i].user_id != rs[j].user_id
}

/// The review list after an upsert: an existing review by the same
/// identity is replaced in its slot, otherwise the review is appended.
pub open spec fn reviews_upserted(rs: Seq<ReviewV>, rv: ReviewV) -> Seq<ReviewV> {
    if has_review(rs, rv.user_id) {
        rs.update(review_index(rs, rv.user_id), rv)
    } else {
        rs.push(rv)
    }
}

/// With one review slot per identity, looking up the identity stored at
/// position `k` finds exactly position `k`.
pub proof fn lemma_review_at_position(rs: Seq<ReviewV>, k: int)
    requires
        reviewers_unique(rs),
        0 <= k < rs.len(),
    ensures
        has_review(rs, rs[k].user_id),
        review_index(rs, rs[k].user_id) == k,
{
    let uid = rs[k].user_id;
    assert(0 <= k < rs.len() && rs[k].user_id == uid);
    let j = review_index(rs, uid);
    assert(0 <= j < rs.len() && rs[j].user_id == uid);
    if j < k {
        assert(rs[j].user_id != rs[k].user_id);
    }
    if k < j {
        assert(rs[k].user_id != rs[j].user_id);
    }
}

/// The sum of critic scores in `[-128, 127]` is bounded by the count.
pub proof fn lemma_sum_critics_bounds(rs: Seq<ReviewV>)
    requires
        forall|i: int| 0 <= i < rs.len() ==> -128 <= (#[trigger] rs[i]).critics <= 127,
    ensures
        -128 * rs.len() <= sum_critics(rs) <= 127 * rs.len(),
    decreases rs.len(),
{
    if rs.len() > 0 {
        lemma_sum_critics_bounds(rs.drop_last());
        assert(rs.last() == rs[rs.len() - 1]);
    }
}

/// Finds the position of the review by one identity.
#[verifier::loop_isolation(false)]
pub fn find_review(reviews: &Vec<Review>, user_id: &String) -> (r: Option<usize>)
    ensures
        match r {
            Some(k) => k < reviews@.len() && reviews_view(reviews@)[k as int].user_id == user_id@,
            None => !has_review(reviews_view(reviews@), user_id@),
        },
{
    let ghost rs = reviews_view(reviews@);
    let mut i: usize = 0;
    while i < reviews.len()
        invariant
            0 <= i <= reviews.len(),
            forall|j: int| 0 <= j < i ==> rs[j].user_id != user_id@,
        decreases reviews.len() - i,
    {
        if reviews[i].user_id.eq(user_id) {
            assert(rs[i as int].user_id == user_id@);
            return Some(i);
        }
        i += 1;
    }
    None
}

impl Contract {
    /// Upserts the caller's review of a course and recomputes the rating
    /// numerator from the whole review set.  Any identity may review; a
    /// missing course fails with `NotFound`.
    #[verifier::loop_isolation(false)]
    pub fn set_review(
        &mut self,
        caller: &String,
        course_id: i128,
        review: String,
        critics: i8,
    ) -> (res: Result<Review, ContractError>)
        requires
            wf(old(self)@),
        ensures
            wf(final(self)@),
            !has_course(old(self)@.courses, course_id as int) ==> res === Err(
                ContractError::NotFound,
            ) && final(self)@ == old(self)@,
            has_course(old(self)@.courses, course_id as int) ==> ({
                let prior = course_at(old(self)@.courses, course_id as int);
                let rv = ReviewV { user_id: caller@, review: review@, critics: critics as int };
                let newrs = reviews_upserted(prior.reviews, rv);
                let updated = CourseV { rating_sum: sum_critics(newrs), reviews: newrs, ..prior };
                &&& res matches Ok(r) && r@ == rv
                &&& final(self)@ == (ContractV {
                    courses: old(self)@.courses.update(
                        course_index(old(self)@.courses, course_id as int),
                        updated,
                    ),
                    ..old(self)@
                })
            }),
    {
        let ghost prev = old(self)@;
        let found = find_course(&self.courses, course_id);
        let k = match found {
            None => {
                return Err(ContractError::NotFound);
            },
            Some(k) => k,
        };
        proof {
            lemma_wf_course_ids_unique(prev);
            lemma_course_at_position(prev.courses, k as int);
        }
        let ghost prior = prev.courses[k as int];
        let ghost rv = ReviewV { user_id: caller@, review: review@, critics: critics as int };
        let item = Review { user_id: caller.clone(), review: review.clone(), critics };
        let data = Review { user_id: caller.clone(), review, critics };
        let foundr = find_review(&self.courses[k].reviews, caller);
        match foundr {
            Some(r) => {
                proof {
                    assert(reviewers_unique(prior.reviews));
                    lemma_review_at_position(prior.reviews, r as int);
                }
                self.courses[k].reviews[r] = data;
                proof {
                    assert(reviews_view(self.courses@[k as int].reviews@)
                        =~= prior.reviews.update(r as int, rv));
                    assert(reviews_upserted(prior.reviews, rv) == prior.reviews.update(r as int, rv));
                }
            },
            None => {
                self.courses[k].reviews.push(data);
                proof {
                    assert(reviews_view(self.courses@[k as int].reviews@)
                        =~= prior.reviews.push(rv));
                    assert(reviews_upserted(prior.reviews, rv) == prior.reviews.push(rv));
                }
            },
        }
        let ghost newrs = reviews_upserted(prior.reviews, rv);
        proof {
            assert(reviews_view(self.courses@[k as int].reviews@) == newrs);
            assert forall|i: int| 0 <= i < newrs.len() implies -128 <= (#[trigger] newrs[i]).critics
                <= 127 by {
                assert(newrs[i] == reviews_view(self.courses@[k as int].reviews@)[i]);
            }
        }
        let mut cont: i128 = 0;
        let mut j: usize = 0;
        let n = self.courses[k].reviews.len();
        while j < n
            invariant
                0 <= j <= n,
                n == newrs.len(),
                newrs == reviews_view(self.courses@[k as int].reviews@),
                cont as int == sum_critics(newrs.take(j as int)),
            decreases n - j,
        {
            proof {
                assert(newrs.take(j + 1).drop_last() =~= newrs.take(j as int));
                assert(newrs.take(j + 1).last() == newrs[j as int]);
                lemma_sum_critics_bounds(newrs.take(j as int));
            }
            cont = cont + (self.courses[k].reviews[j].critics as i128);
            j += 1;
        }
        proof {
            assert(newrs.take(newrs.len() as int) =~= newrs);
        }
        self.courses[k].rating_sum = cont;
        proof {
            let gk = k as int;
            let updated = CourseV { rating_sum: sum_critics(newrs), reviews: newrs, ..prior };
            assert(self@.courses[gk] =~= updated);
            assert(self@.courses =~= prev.courses.update(gk, updated));
            assert(self@ =~= (ContractV { courses: prev.courses.update(gk, updated), ..prev }));
            assert(course_wf(updated)) by {
                assert forall|a: int, b: int|
                    0 <= a < b < newrs.len() implies newrs[a].user_id != newrs[b].user_id by {
                    if has_review(prior.reviews, rv.user_id) {
                        let r0 = review_index(prior.reviews, rv.user_id);
                        if a != r0 {
                            assert(newrs[a] == prior.reviews[a]);
                        }
                        if b != r0 {
                            assert(newrs[b] == prior.reviews[b]);
                        }
                        if a == r0 {
                            assert(newrs[a].user_id == prior.reviews[r0].user_id);
                        }
                        if b == r0 {
                            assert(newrs[b].user_id == prior.reviews[r0].user_id);
                        }
                        assert(prior.reviews[a].user_id != prior.reviews[b].user_id);
                    } else {
                        if b + 1 == newrs.len() {
                            assert(newrs[a] == prior.reviews[a]);
                            assert(newrs[b] == rv);
                            assert(!has_review(prior.reviews, rv.user_id));
                            assert(prior.reviews[a].user_id != rv.user_id);
                        } else {
                            assert(newrs[a] == prior.reviews[a]);
                            assert(newrs[b] == prior.reviews[b]);
                        }
                    }
                }
            }
            assert forall|a: int, b: int|
                0 <= a < b < self@.courses.len() implies self@.courses[a].id
                < self@.courses[b].id by {
                assert(self@.courses[a].id == prev.courses[a].id);
                assert(self@.courses[b].id == prev.courses[b].id);
            }
            assert(course_ids_unique(self@.courses)) by {
                assert forall|x: int, y: int|
                    0 <= x < y < self@.courses.len() implies self@.courses[x].id
                    != self@.courses[y].id by {
                    assert(self@.courses[x].id < self@.courses[y].id);
                }
            }
            assert forall|p: int|
                0 <= p < self@.profiles.len() implies profile_wf(
                self@.courses,
                #[trigger] self@.profiles[p],
            ) by {
                let prof = prev.profiles[p];
                assert(profile_wf(prev.courses, prof));
                assert forall|r: int|
                    0 <= r < prof.purchased_courses.len() implies purchase_backed(
                    self@.courses,
                    prof.user_id,
                    #[trigger] prof.purchased_courses[r],
                ) by {
                    let rid = prof.purchased_courses[r].course_id;
                    assert(purchase_backed(prev.courses, prof.user_id, prof.purchased_courses[r]));
                    let i0 = course_index(prev.courses, rid);
                    assert(0 <= i0 < prev.courses.len() && prev.courses[i0].id == rid);
                    assert(self@.courses[i0].id == rid);
                    lemma_course_at_position(self@.courses, i0);
                    if i0 == gk {
                        assert(course_at(self@.courses, rid) == updated);
                        assert(updated.inscriptions == prior.inscriptions);
                    } else {
                        assert(course_at(self@.courses, rid) == prev.courses[i0]);
                    }
                }
            }
        }
        Ok(item)
    }

    /// Returns the reviews of one identity on a course (at most one under
    /// the state invariant); a missing course fails with `NotFound`.
    #[verifier::loop_isolation(false)]
    pub fn get_review(&self, course_id: i128, user_id: &String) -> (res: Result<
        Vec<Review>,
        ContractError,
    >)
        requires
            wf(self@),
        ensures
            !has_course(self@.courses, course_id as int) ==> res === Err(ContractError::NotFound),
            has_course(self@.courses, course_id as int) ==> ({
                &&& res matches Ok(v) && reviews_view(v@) == course_at(
                    self@.courses,
                    course_id as int,
                ).reviews.filter(|r: ReviewV| r.user_id == user_id@)
            }),
    {
        let found = find_course(&self.courses, course_id);
        let k = match found {
            None => {
                return Err(ContractError::NotFound);
            },
            Some(k) => k,
        };
        proof {
            lemma_wf_course_ids_unique(self@);
            lemma_course_at_position(self@.courses, k as int);
        }
        let ghost rs = self@.courses[k as int].reviews;
        let ghost pred = |r: ReviewV| r.user_id == user_id@;
        let mut res: Vec<Review> = Vec::new();
        let mut i: usize = 0;
        let n = self.courses[k].reviews.len();
        while i < n
            invariant
                0 <= i <= n,
                n == rs.len(),
                reviews_view(res@) =~= rs.take(i as int).filter(pred),
            decreases n - i,
        {
            proof {
                reveal(Seq::filter);
                assert(rs.take(i + 1).drop_last() =~= rs.take(i as int));
                assert(rs.take(i + 1).last() == rs[i as int]);
            }
            if self.courses[k].reviews[i].user_id.eq(user_id) {
                assert(pred(rs[i as int]));
                let item = self.courses[k].reviews[i].clone();
                res.push(item);
                proof {
                    assert(reviews_view(res@) =~= rs.take(i + 1).filter(pred));
                }
            } else {
                assert(!pred(rs[i as int]));
                proof {
                    assert(reviews_view(res@) =~= rs.take(i + 1).filter(pred));
                }
            }
            i += 1;
        }
        proof {
            assert(rs.take(rs.len() as int) =~= rs);
        }
        Ok(res)
    }
}

} // verus!
