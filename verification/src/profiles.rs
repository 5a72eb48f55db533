//! The purchase ledger: recording purchases, certification flags, and the
//! reads gated on a profile's own records.

use vstd::prelude::*;

use crate::state::{
    account_listed, course_at, has_course, has_profile, has_purchase,
    lemma_course_at_position, lemma_profile_at_position, lemma_purchase_at_position,
    lemma_wf_course_ids_unique, profile_at, profile_has_record, profile_keys_unique,
    profile_wf, profiles_with_flag, profiles_with_purchase, purchase_backed, purchase_ids_unique,
    purchase_index, wf, Contract, ContractV,
};
use crate::types::{
    courses_view, profiles_view, purchases_view, CoursePurchased, CoursePurchasedV, CoursesObject,
    ProfileObject, ProfileV,
};
use crate::ContractError;

verus! {

/// Finds the position of a profile by its key.
#[verifier::loop_isolation(false)]
pub fn find_profile(profiles: &Vec<ProfileObject>, user_id: &String) -> (r: Option<usize>)
    ensures
        match r {
            Some(k) => k < profiles@.len() && profiles_view(profiles@)[k as int].user_id
                == user_id@,
            None => !has_profile(profiles_view(profiles@), user_id@),
        },
{
    let ghost ps = profiles_view(profiles@);
    let mut i: usize = 0;
    while i < profiles.len()
        invariant
            0 <= i <= profiles.len(),
            forall|j: int| 0 <= j < i ==> ps[j].user_id != user_id@,
        decreases profiles.len() - i,
    {
        if profiles[i].user_id.eq(user_id) {
            assert(ps[i as int].user_id == user_id@);
            return Some(i);
        }
        i += 1;
    }
    None
}

/// Finds the position of the purchase record of a course.
#[verifier::loop_isolation(false)]
pub fn find_purchase(records: &Vec<CoursePurchased>, course_id: i128) -> (r: Option<usize>)
    ensures
        match r {
            Some(k) => k < records@.len() && purchases_view(records@)[k as int].course_id
                == course_id as int,
            None => !has_purchase(purchases_view(records@), course_id as int),
        },
{
    let ghost rs = purchases_view(records@);
    let mut i: usize = 0;
    while i < records.len()
        invariant
            0 <= i <= records.len(),
            forall|j: int| 0 <= j < i ==> rs[j].course_id != course_id as int,
        decreases records.len() - i,
    {
        if records[i].course_id == course_id {
            assert(rs[i as int].course_id == course_id as int);
            return Some(i);
        }
        i += 1;
    }
    None
}

impl Contract {
    /// Records a purchase of `course_id` by `user_id` in the ledger: the
    /// existing profile gains one record, or a fresh profile with a single
    /// record is created.  The caller has already enrolled the user in the
    /// course and made sure no record for this pair exists.
    pub(crate) fn profile_inscription(&mut self, user_id: &String, course_id: i128)
        requires
            wf(old(self)@),
            has_course(old(self)@.courses, course_id as int),
            course_at(old(self)@.courses, course_id as int).inscriptions.contains(user_id@),
            !profile_has_record(old(self)@.profiles, user_id@, course_id as int),
        ensures
            wf(final(self)@),
            final(self)@ == (ContractV {
                profiles: profiles_with_purchase(
                    old(self)@.profiles,
                    user_id@,
                    course_id as int,
                ),
                ..old(self)@
            }),
    {
        let ghost prev = old(self)@;
        let ghost record = CoursePurchasedV { course_id: course_id as int, pass_certification: false };
        let found = find_profile(&self.profiles, user_id);
        match found {
            Some(k) => {
                proof {
                    lemma_profile_at_position(prev.profiles, k as int);
                }
                self.profiles[k].purchased_courses.push(
                    CoursePurchased { course_id, pass_certification: false },
                );
                proof {
                    let gk = k as int;
                    let oldp = prev.profiles[gk];
                    let newp = ProfileV {
                        user_id: user_id@,
                        purchased_courses: oldp.purchased_courses.push(record),
                    };
                    assert(purchases_view(self.profiles@[gk].purchased_courses@)
                        =~= oldp.purchased_courses.push(record));
                    assert(self@.profiles[gk] =~= newp);
                    assert(self@.profiles =~= prev.profiles.update(gk, newp));
                    assert(profiles_with_purchase(prev.profiles, user_id@, course_id as int)
                        == prev.profiles.update(gk, newp));
                    assert(self@ =~= (ContractV {
                        profiles: prev.profiles.update(gk, newp),
                        ..prev
                    }));
                    assert forall|p: int|
                        0 <= p < self@.profiles.len() implies profile_wf(
                        self@.courses,
                        #[trigger] self@.profiles[p],
                    ) by {
                        if p == gk {
                            let recs = newp.purchased_courses;
                            assert forall|a: int, b: int|
                                0 <= a < b < recs.len() implies recs[a].course_id
                                != recs[b].course_id by {
                                if b + 1 == recs.len() {
                                    assert(recs[a] == oldp.purchased_courses[a]);
                                    assert(!has_purchase(oldp.purchased_courses, course_id as int));
                                    assert(recs[a].course_id != course_id as int);
                                } else {
                                    assert(recs[a] == oldp.purchased_courses[a]);
                                    assert(recs[b] == oldp.purchased_courses[b]);
                                }
                            }
                            assert forall|r: int|
                                0 <= r < recs.len() implies purchase_backed(
                                self@.courses,
                                newp.user_id,
                                #[trigger] recs[r],
                            ) by {
                                if r + 1 == recs.len() {
                                    assert(recs[r] == record);
                                } else {
                                    assert(recs[r] == oldp.purchased_courses[r]);
                                    assert(purchase_backed(prev.courses, oldp.user_id, recs[r]));
                                }
                            }
                        } else {
                            assert(self@.profiles[p] == prev.profiles[p]);
                            assert(profile_wf(prev.courses, prev.profiles[p]));
                        }
                    }
                }
            },
            None => {
                let mut records: Vec<CoursePurchased> = Vec::new();
                records.push(CoursePurchased { course_id, pass_certification: false });
                let ghost recordsg = records@;
                self.profiles.push(ProfileObject { user_id: user_id.clone(), purchased_courses: records });
                proof {
                    let newp = ProfileV { user_id: user_id@, purchased_courses: seq![record] };
                    assert(purchases_view(recordsg) =~= seq![record]);
                    assert(self@.profiles =~= prev.profiles.push(newp));
                    assert(profiles_with_purchase(prev.profiles, user_id@, course_id as int)
                        == prev.profiles.push(newp));
                    assert(self@ =~= (ContractV {
                        profiles: prev.profiles.push(newp),
                        ..prev
                    }));
                    assert forall|a: int, b: int|
                        0 <= a < b < self@.profiles.len() implies self@.profiles[a].user_id
                        != self@.profiles[b].user_id by {
                        if b + 1 == self@.profiles.len() {
                            assert(self@.profiles[a] == prev.profiles[a]);
                            assert(prev.profiles[a].user_id != user_id@);
                        } else {
                            assert(self@.profiles[a] == prev.profiles[a]);
                            assert(self@.profiles[b] == prev.profiles[b]);
                        }
                    }
                    assert forall|p: int|
                        0 <= p < self@.profiles.len() implies profile_wf(
                        self@.courses,
                        #[trigger] self@.profiles[p],
                    ) by {
                        if p + 1 == self@.profiles.len() {
                            assert(self@.profiles[p] == newp);
                            assert forall|r: int|
                                0 <= r < newp.purchased_courses.len() implies purchase_backed(
                                self@.courses,
                                newp.user_id,
                                #[trigger] newp.purchased_courses[r],
                            ) by {
                                assert(newp.purchased_courses[r] == record);
                            }
                        } else {
                            assert(self@.profiles[p] == prev.profiles[p]);
                            assert(profile_wf(prev.courses, prev.profiles[p]));
                        }
                    }
                }
            },
        }
    }

    /// Returns the full course records purchased by a user; a missing
    /// profile fails with `NotFound`.
    #[verifier::loop_isolation(false)]
    pub fn get_courses_purchased(&self, user_id: &String) -> (res: Result<
        Vec<CoursesObject>,
        ContractError,
    >)
        requires
            wf(self@),
        ensures
            !has_profile(self@.profiles, user_id@) ==> res === Err(ContractError::NotFound),
            has_profile(self@.profiles, user_id@) ==> ({
                &&& res matches Ok(v) && courses_view(v@) == profile_at(
                    self@.profiles,
                    user_id@,
                ).purchased_courses.map_values(
                    |r: CoursePurchasedV| course_at(self@.courses, r.course_id),
                )
            }),
    {
        let found = find_profile(&self.profiles, user_id);
        match found {
            None => Err(ContractError::NotFound),
            Some(k) => {
                proof {
                    assert(profile_keys_unique(self@.profiles));
                    lemma_profile_at_position(self@.profiles, k as int);
                    lemma_wf_course_ids_unique(self@);
                }
                let ghost target = profile_at(self@.profiles, user_id@).purchased_courses
                    .map_values(|r: CoursePurchasedV| course_at(self@.courses, r.course_id));
                let ghost recs = self@.profiles[k as int].purchased_courses;
                let mut res: Vec<CoursesObject> = Vec::new();
                let mut j: usize = 0;
                let n = self.profiles[k].purchased_courses.len();
                while j < n
                    invariant
                        0 <= j <= n,
                        n == recs.len(),
                        courses_view(res@) =~= target.take(j as int),
                    decreases n - j,
                {
                    assert(recs[j as int] == purchases_view(
                        self.profiles@[k as int].purchased_courses@,
                    )[j as int]);
                    let cid = self.profiles[k].purchased_courses[j].course_id;
                    assert(purchase_backed(self@.courses, user_id@, recs[j as int]));
                    let foundc = crate::catalog::find_course(&self.courses, cid);
                    match foundc {
                        None => {
                            proof {
                                assert(has_course(self@.courses, cid as int));
                                assert(false);
                            }
                            return Err(ContractError::NotFound);
                        },
                        Some(ci) => {
                            proof {
                                lemma_course_at_position(self@.courses, ci as int);
                            }
                            let item = self.courses[ci].clone();
                            res.push(item);
                            proof {
                                assert(item@ == course_at(self@.courses, cid as int));
                                assert(target[j as int] == course_at(self@.courses, recs[j as int].course_id));
                                assert(courses_view(res@) =~= target.take(j + 1));
                            }
                        },
                    }
                    j += 1;
                }
                proof {
                    assert(target.take(target.len() as int) =~= target);
                }
                Ok(res)
            },
        }
    }

    /// Returns the full record of one course, gated on the caller's own
    /// purchase of it: a missing profile fails with `NotFound`, a missing
    /// purchase record with `PermissionDenied`.
    pub fn get_course_id(&self, user_id: &String, course_id: i128) -> (res: Result<
        CoursesObject,
        ContractError,
    >)
        requires
            wf(self@),
        ensures
            !has_profile(self@.profiles, user_id@) ==> res === Err(ContractError::NotFound),
            has_profile(self@.profiles, user_id@) && !profile_has_record(
                self@.profiles,
                user_id@,
                course_id as int,
            ) ==> res === Err(ContractError::PermissionDenied),
            profile_has_record(self@.profiles, user_id@, course_id as int) ==> ({
                &&& res matches Ok(c) && c@ == course_at(self@.courses, course_id as int)
            }),
    {
        let found = find_profile(&self.profiles, user_id);
        match found {
            None => Err(ContractError::NotFound),
            Some(k) => {
                proof {
                    lemma_profile_at_position(self@.profiles, k as int);
                }
                let foundr = find_purchase(&self.profiles[k].purchased_courses, course_id);
                match foundr {
                    None => Err(ContractError::PermissionDenied),
                    Some(r) => {
                        proof {
                            let recs = self@.profiles[k as int].purchased_courses;
                            assert(recs[r as int] == purchases_view(
                                self.profiles@[k as int].purchased_courses@,
                            )[r as int]);
                            assert(purchase_backed(self@.courses, user_id@, recs[r as int]));
                            lemma_wf_course_ids_unique(self@);
                        }
                        let foundc = crate::catalog::find_course(&self.courses, course_id);
                        match foundc {
                            None => {
                                proof {
                                    assert(false);
                                }
                                Err(ContractError::NotFound)
                            },
                            Some(ci) => {
                                proof {
                                    lemma_course_at_position(self@.courses, ci as int);
                                }
                                Ok(self.courses[ci].clone())
                            },
                        }
                    },
                }
            },
        }
    }

    /// Returns one purchase record with its certification flag: a missing
    /// profile or record fails with `NotFound`.
    pub fn get_pass_certification(&self, user_id: &String, course_id: i128) -> (res: Result<
        CoursePurchased,
        ContractError,
    >)
        requires
            wf(self@),
        ensures
            !has_profile(self@.profiles, user_id@) ==> res === Err(ContractError::NotFound),
            has_profile(self@.profiles, user_id@) && !profile_has_record(
                self@.profiles,
                user_id@,
                course_id as int,
            ) ==> res === Err(ContractError::NotFound),
            profile_has_record(self@.profiles, user_id@, course_id as int) ==> ({
                &&& res matches Ok(c) && c@ == profile_at(
                    self@.profiles,
                    user_id@,
                ).purchased_courses[purchase_index(
                    profile_at(self@.profiles, user_id@).purchased_courses,
                    course_id as int,
                )]
            }),
    {
        let found = find_profile(&self.profiles, user_id);
        match found {
            None => Err(ContractError::NotFound),
            Some(k) => {
                proof {
                    lemma_profile_at_position(self@.profiles, k as int);
                }
                let foundr = find_purchase(&self.profiles[k].purchased_courses, course_id);
                match foundr {
                    None => Err(ContractError::NotFound),
                    Some(r) => {
                        let item = self.profiles[k].purchased_courses[r].clone();
                        proof {
                            let recs = profile_at(self@.profiles, user_id@).purchased_courses;
                            assert(item@ == recs[r as int]);
                            assert(purchase_ids_unique(recs));
                            lemma_purchase_at_position(recs, r as int);
                        }
                        Ok(item)
                    },
                }
            },
        }
    }

    /// Resets the certification flag of a purchase record to `false`.
    /// Administrators only; a missing profile or record fails with
    /// `NotFound`.
    pub fn change_pass_certification(
        &mut self,
        caller: &String,
        user_id: &String,
        course_id: i128,
    ) -> (res: Result<CoursePurchased, ContractError>)
        requires
            wf(old(self)@),
        ensures
            wf(final(self)@),
            !old(self)@.administrators.contains(caller@) ==> res === Err(
                ContractError::PermissionDenied,
            ) && final(self)@ == old(self)@,
            old(self)@.administrators.contains(caller@) && !has_profile(
                old(self)@.profiles,
                user_id@,
            ) ==> res === Err(ContractError::NotFound) && final(self)@ == old(self)@,
            old(self)@.administrators.contains(caller@) && has_profile(
                old(self)@.profiles,
                user_id@,
            ) && !profile_has_record(old(self)@.profiles, user_id@, course_id as int) ==> res
                === Err(ContractError::NotFound) && final(self)@ == old(self)@,
            old(self)@.administrators.contains(caller@) && profile_has_record(
                old(self)@.profiles,
                user_id@,
                course_id as int,
            ) ==> ({
                &&& res matches Ok(c) && c@ == (CoursePurchasedV {
                    course_id: course_id as int,
                    pass_certification: false,
                })
                &&& final(self)@ == (ContractV {
                    profiles: profiles_with_flag(
                        old(self)@.profiles,
                        user_id@,
                        course_id as int,
                        false,
                    ),
                    ..old(self)@
                })
            }),
    {
        if !account_listed(&self.administrators, caller) {
            return Err(ContractError::PermissionDenied);
        }
        let ghost prev = old(self)@;
        let found = find_profile(&self.profiles, user_id);
        match found {
            None => Err(ContractError::NotFound),
            Some(k) => {
                proof {
                    lemma_profile_at_position(prev.profiles, k as int);
                }
                let foundr = find_purchase(&self.profiles[k].purchased_courses, course_id);
                match foundr {
                    None => Err(ContractError::NotFound),
                    Some(r) => {
                        proof {
                            let recs = prev.profiles[k as int].purchased_courses;
                            lemma_purchase_at_position(recs, r as int);
                        }
                        self.profiles[k].purchased_courses[r].pass_certification = false;
                        let item = self.profiles[k].purchased_courses[r].clone();
                        proof {
                            let gk = k as int;
                            let gr = r as int;
                            let oldp = prev.profiles[gk];
                            let newrec = CoursePurchasedV {
                                course_id: course_id as int,
                                pass_certification: false,
                            };
                            let newp = ProfileV {
                                user_id: oldp.user_id,
                                purchased_courses: oldp.purchased_courses.update(gr, newrec),
                            };
                            assert(purchases_view(self.profiles@[gk].purchased_courses@)
                                =~= oldp.purchased_courses.update(gr, newrec));
                            assert(self@.profiles[gk] =~= newp);
                            assert(self@.profiles =~= prev.profiles.update(gk, newp));
                            assert(profiles_with_flag(prev.profiles, user_id@, course_id as int, false)
                                == prev.profiles.update(gk, newp));
                            assert(self@ =~= (ContractV {
                                profiles: prev.profiles.update(gk, newp),
                                ..prev
                            }));
                            assert(item@ == newrec);
                            assert forall|p: int|
                                0 <= p < self@.profiles.len() implies profile_wf(
                                self@.courses,
                                #[trigger] self@.profiles[p],
                            ) by {
                                if p == gk {
                                    let recs = newp.purchased_courses;
                                    assert forall|a: int, b: int|
                                        0 <= a < b < recs.len() implies recs[a].course_id
                                        != recs[b].course_id by {
                                        assert(recs[a].course_id == oldp.purchased_courses[a].course_id);
                                        assert(recs[b].course_id == oldp.purchased_courses[b].course_id);
                                    }
                                    assert forall|q: int|
                                        0 <= q < recs.len() implies purchase_backed(
                                        self@.courses,
                                        newp.user_id,
                                        #[trigger] recs[q],
                                    ) by {
                                        assert(purchase_backed(
                                            prev.courses,
                                            oldp.user_id,
                                            oldp.purchased_courses[q],
                                        ));
                                        assert(recs[q].course_id == oldp.purchased_courses[q].course_id);
                                    }
                                } else {
                                    assert(self@.profiles[p] == prev.profiles[p]);
                                    assert(profile_wf(prev.courses, prev.profiles[p]));
                                }
                            }
                        }
                        Ok(item)
                    },
                }
            },
        }
    }
}

} // verus!
