//! The persisted state of the marketplace and its well-formedness invariant,
//! together with initialization and administrator-set management.

use vstd::prelude::*;

use crate::types::{
    accounts_view, categories_view, courses_view, profiles_view, CategoriesJson, CategoryV,
    CoursePurchasedV, CoursesObject, CourseV, ProfileObject, ProfileV, ReviewV,
};
use crate::ContractError;
use crate::PRICE_LIMIT;

verus! {

/// The whole persisted state: one coherent record loaded and saved per
/// operation.
pub struct Contract {
    pub vault_id: String,
    pub profiles: Vec<ProfileObject>,
    pub id_categories: i128,
    pub categories: Vec<CategoriesJson>,
    pub id_courses: i128,
    pub courses: Vec<CoursesObject>,
    pub administrators: Vec<String>,
}

/// View of the whole persisted state.
#[verifier::ext_equal]
pub struct ContractV {
    pub vault_id: Seq<char>,
    pub profiles: Seq<ProfileV>,
    pub id_categories: int,
    pub categories: Seq<CategoryV>,
    pub id_courses: int,
    pub courses: Seq<CourseV>,
    pub administrators: Seq<Seq<char>>,
}

impl View for Contract {
    type V = ContractV;

    open spec fn view(&self) -> ContractV {
        ContractV {
            vault_id: self.vault_id@,
            profiles: profiles_view(self.profiles@),
            id_categories: self.id_categories as int,
            categories: categories_view(self.categories@),
            id_courses: self.id_courses as int,
            courses: courses_view(self.courses@),
            administrators: accounts_view(self.administrators@),
        }
    }
}

// ---------------------------------------------------------------------------
// Well-formedness
// ---------------------------------------------------------------------------

/// Sum of the critic scores of a review sequence.
pub open spec fn sum_critics(rs: Seq<ReviewV>) -> int
    decreases rs.len(),
{
    if rs.len() == 0 {
        0
    } else {
        sum_critics(rs.drop_last()) + rs.last().critics
    }
}

/// Well-formedness of one stored course: the derived rating numerator equals
/// the sum of the critic scores, enrollment is a set, each identity holds
/// at most one review slot, and prices leave room for the basis-point fee.
pub open spec fn course_wf(c: CourseV) -> bool {
    &&& 1 <= c.id
    &&& 0 <= c.price <= PRICE_LIMIT as int
    &&& 0 <= c.price_certification <= PRICE_LIMIT as int
    &&& c.rating_sum == sum_critics(c.reviews)
    &&& forall|i: int, j: int|
        0 <= i < j < c.inscriptions.len() ==> c.inscriptions[i] != c.inscriptions[j]
    &&& forall|i: int, j: int|
        0 <= i < j < c.reviews.len() ==> c.reviews[i].user_id != c.reviews[j].user_id
    &&& forall|i: int| 0 <= i < c.reviews.len() ==> -128 <= (#[trigger] c.reviews[i]).critics <= 127
}

/// There is a course with this identifier.
pub open spec fn has_course(courses: Seq<CourseV>, id: int) -> bool {
    exists|i: int| 0 <= i < courses.len() && courses[i].id == id
}

/// The catalog position of the course with this identifier (unique when
/// identifiers are).
pub open spec fn course_index(courses: Seq<CourseV>, id: int) -> int {
    choose|i: int| 0 <= i < courses.len() && courses[i].id == id
}

/// The course with this identifier.
pub open spec fn course_at(courses: Seq<CourseV>, id: int) -> CourseV {
    courses[course_index(courses, id)]
}

/// There is a profile for this identity.
pub open spec fn has_profile(profiles: Seq<ProfileV>, uid: Seq<char>) -> bool {
    exists|i: int| 0 <= i < profiles.len() && profiles[i].user_id == uid
}

/// The position of the profile of this identity (unique when keys are).
pub open spec fn profile_index(profiles: Seq<ProfileV>, uid: Seq<char>) -> int {
    choose|i: int| 0 <= i < profiles.len() && profiles[i].user_id == uid
}

/// The profile of this identity.
pub open spec fn profile_at(profiles: Seq<ProfileV>, uid: Seq<char>) -> ProfileV {
    profiles[profile_index(profiles, uid)]
}

/// A purchase record is backed by the catalog: its course exists and lists
/// the record's owner as enrolled.
pub open spec fn purchase_backed(courses: Seq<CourseV>, uid: Seq<char>, r: CoursePurchasedV) -> bool {
    has_course(courses, r.course_id) && course_at(courses, r.course_id).inscriptions.contains(uid)
}

/// Well-formedness of one profile against the catalog: course identifiers
/// are unique within the profile and every record is backed.
pub open spec fn profile_wf(courses: Seq<CourseV>, p: ProfileV) -> bool {
    &&& forall|i: int, j: int|
        0 <= i < j < p.purchased_courses.len() ==> p.purchased_courses[i].course_id
            != p.purchased_courses[j].course_id
    &&& forall|i: int|
        0 <= i < p.purchased_courses.len() ==> purchase_backed(
            courses,
            p.user_id,
            #[trigger] p.purchased_courses[i],
        )
}

/// The state invariant: counters bound the identifiers they assigned,
/// catalog and category identifiers are strictly increasing in storage
/// order (so unique), administrators and profile keys are unique, every
/// course is well formed and every profile is backed by the catalog.
pub open spec fn wf(s: ContractV) -> bool {
    &&& 0 <= s.id_courses
    &&& 0 <= s.id_categories
    &&& forall|i: int|
        0 <= i < s.courses.len() ==> course_wf(#[trigger] s.courses[i]) && s.courses[i].id
            <= s.id_courses
    &&& forall|i: int, j: int| 0 <= i < j < s.courses.len() ==> s.courses[i].id < s.courses[j].id
    &&& forall|i: int|
        0 <= i < s.categories.len() ==> 1 <= (#[trigger] s.categories[i]).id <= s.id_categories
    &&& forall|i: int, j: int|
        0 <= i < j < s.categories.len() ==> s.categories[i].id < s.categories[j].id
    &&& forall|i: int, j: int|
        0 <= i < j < s.administrators.len() ==> s.administrators[i] != s.administrators[j]
    &&& forall|i: int, j: int|
        0 <= i < j < s.profiles.len() ==> s.profiles[i].user_id != s.profiles[j].user_id
    &&& forall|i: int| 0 <= i < s.profiles.len() ==> profile_wf(s.courses, #[trigger] s.profiles[i])
}

/// Course identifiers occur at most once.
pub open spec fn course_ids_unique(courses: Seq<CourseV>) -> bool {
    forall|i: int, j: int| 0 <= i < j < courses.len() ==> courses[i].id != courses[j].id
}

/// Profile keys occur at most once.
pub open spec fn profile_keys_unique(profiles: Seq<ProfileV>) -> bool {
    forall|i: int, j: int|
        0 <= i < j < profiles.len() ==> profiles[i].user_id != profiles[j].user_id
}

/// Under `wf` the strictly increasing course identifiers are unique.
pub proof fn lemma_wf_course_ids_unique(s: ContractV)
    requires
        wf(s),
    ensures
        course_ids_unique(s.courses),
{
}

/// With unique identifiers, looking up the identifier stored at position
/// `k` finds exactly position `k`.
pub proof fn lemma_course_at_position(courses: Seq<CourseV>, k: int)
    requires
        course_ids_unique(courses),
        0 <= k < courses.len(),
    ensures
        has_course(courses, courses[k].id),
        course_index(courses, courses[k].id) == k,
        course_at(courses, courses[k].id) == courses[k],
{
    let id = courses[k].id;
    assert(0 <= k < courses.len() && courses[k].id == id);
    let j = course_index(courses, id);
    assert(0 <= j < courses.len() && courses[j].id == id);
    if j < k {
        assert(courses[j].id != courses[k].id);
    }
    if k < j {
        assert(courses[k].id != courses[j].id);
    }
}

/// With unique keys, looking up the key stored at position `k` finds
/// exactly position `k`.
pub proof fn lemma_profile_at_position(profiles: Seq<ProfileV>, k: int)
    requires
        profile_keys_unique(profiles),
        0 <= k < profiles.len(),
    ensures
        has_profile(profiles, profiles[k].user_id),
        profile_index(profiles, profiles[k].user_id) == k,
        profile_at(profiles, profiles[k].user_id) == profiles[k],
{
    let uid = profiles[k].user_id;
    assert(0 <= k < profiles.len() && profiles[k].user_id == uid);
    let j = profile_index(profiles, uid);
    assert(0 <= j < profiles.len() && profiles[j].user_id == uid);
    if j < k {
        assert(profiles[j].user_id != profiles[k].user_id);
    }
    if k < j {
        assert(profiles[k].user_id != profiles[j].user_id);
    }
}

/// There is a purchase record for this course.
pub open spec fn has_purchase(records: Seq<CoursePurchasedV>, cid: int) -> bool {
    exists|i: int| 0 <= i < records.len() && records[i].course_id == cid
}

/// The position of the purchase record for this course (unique under
/// `profile_wf`).
pub open spec fn purchase_index(records: Seq<CoursePurchasedV>, cid: int) -> int {
    choose|i: int| 0 <= i < records.len() && records[i].course_id == cid
}

/// Course identifiers occur at most once in a record list.
pub open spec fn purchase_ids_unique(records: Seq<CoursePurchasedV>) -> bool {
    forall|i: int, j: int| 0 <= i < j < records.len() ==> records[i].course_id != records[j].course_id
}

/// With unique record identifiers, looking up the identifier stored at
/// position `k` finds exactly position `k`.
pub proof fn lemma_purchase_at_position(records: Seq<CoursePurchasedV>, k: int)
    requires
        purchase_ids_unique(records),
        0 <= k < records.len(),
    ensures
        has_purchase(records, records[k].course_id),
        purchase_index(records, records[k].course_id) == k,
{
    let cid = records[k].course_id;
    assert(0 <= k < records.len() && records[k].course_id == cid);
    let j = purchase_index(records, cid);
    assert(0 <= j < records.len() && records[j].course_id == cid);
    if j < k {
        assert(records[j].course_id != records[k].course_id);
    }
    if k < j {
        assert(records[k].course_id != records[j].course_id);
    }
}

/// The profile of `uid` holds a record for course `cid`.
pub open spec fn profile_has_record(ps: Seq<ProfileV>, uid: Seq<char>, cid: int) -> bool {
    has_profile(ps, uid) && has_purchase(profile_at(ps, uid).purchased_courses, cid)
}

/// The profile list after recording a purchase of course `cid` by `uid`:
/// an existing profile gains one record, otherwise a fresh profile with a
/// single record is appended.
pub open spec fn profiles_with_purchase(ps: Seq<ProfileV>, uid: Seq<char>, cid: int) -> Seq<
    ProfileV,
> {
    let record = CoursePurchasedV { course_id: cid, pass_certification: false };
    if has_profile(ps, uid) {
        let k = profile_index(ps, uid);
        ps.update(
            k,
            ProfileV { user_id: uid, purchased_courses: ps[k].purchased_courses.push(record) },
        )
    } else {
        ps.push(ProfileV { user_id: uid, purchased_courses: seq![record] })
    }
}

/// The profile list after setting the certification flag of the record of
/// course `cid` in the profile of `uid` (meaningful when the profile and
/// the record exist).
pub open spec fn profiles_with_flag(ps: Seq<ProfileV>, uid: Seq<char>, cid: int, value: bool) -> Seq<
    ProfileV,
> {
    let k = profile_index(ps, uid);
    let recs = ps[k].purchased_courses;
    let r = purchase_index(recs, cid);
    ps.update(
        k,
        ProfileV {
            user_id: ps[k].user_id,
            purchased_courses: recs.update(
                r,
                CoursePurchasedV { course_id: cid, pass_certification: value },
            ),
        },
    )
}

/// Under `wf`, two distinct administrator positions hold distinct
/// identities.
pub proof fn lemma_admins_distinct(s: ContractV, a: int, b: int)
    requires
        wf(s),
        0 <= a < b < s.administrators.len(),
    ensures
        s.administrators[a] != s.administrators[b],
{
}

// ---------------------------------------------------------------------------
// Executable helpers
// ---------------------------------------------------------------------------

/// Whether an account occurs in a list of accounts.
pub fn account_listed(list: &Vec<String>, account: &String) -> (r: bool)
    ensures
        r == accounts_view(list@).contains(account@),
{
    let ghost mapped = accounts_view(list@);
    let mut i: usize = 0;
    while i < list.len()
        invariant
            0 <= i <= list.len(),
            mapped == accounts_view(list@),
            forall|j: int| 0 <= j < i ==> mapped[j] != account@,
        decreases list.len() - i,
    {
        if list[i].eq(account) {
            assert(mapped[i as int] == account@);
            return true;
        }
        i += 1;
    }
    assert(forall|j: int| 0 <= j < mapped.len() ==> mapped[j] != account@);
    false
}

impl Contract {
    /// Initializes the state: empty catalog, ledger and category list, and
    /// the two seed administrator identities.
    pub fn new(_owner_id: String, vault_id: String) -> (res: Contract)
        ensures
            res@.vault_id == vault_id@,
            res@.profiles == Seq::<ProfileV>::empty(),
            res@.id_categories == 0,
            res@.categories == Seq::<CategoryV>::empty(),
            res@.id_courses == 0,
            res@.courses == Seq::<CourseV>::empty(),
            res@.administrators == seq!["e-learning.testnet"@, "juanochando.testnet"@],
            wf(res@),
    {
        let mut administrators: Vec<String> = Vec::new();
        administrators.push("e-learning.testnet".to_owned());
        administrators.push("juanochando.testnet".to_owned());
        let res = Contract {
            vault_id,
            profiles: Vec::new(),
            id_categories: 0,
            categories: Vec::new(),
            id_courses: 0,
            courses: Vec::new(),
            administrators,
        };
        proof {
            reveal_strlit("e-learning.testnet");
            reveal_strlit("juanochando.testnet");
            assert(("e-learning.testnet")@.len() == 18);
            assert(("juanochando.testnet")@.len() == 19);
            assert(res@.administrators =~= seq!["e-learning.testnet"@, "juanochando.testnet"@]);
            assert(res@.profiles =~= Seq::<ProfileV>::empty());
            assert(res@.categories =~= Seq::<CategoryV>::empty());
            assert(res@.courses =~= Seq::<CourseV>::empty());
        }
        res
    }

    /// Initializes the state with the default administrator seed; the same
    /// as [`Contract::new`].
    pub fn new_default(owner_id: String, vault_id: String) -> (res: Contract)
        ensures
            res@.vault_id == vault_id@,
            res@.profiles == Seq::<ProfileV>::empty(),
            res@.id_categories == 0,
            res@.categories == Seq::<CategoryV>::empty(),
            res@.id_courses == 0,
            res@.courses == Seq::<CourseV>::empty(),
            res@.administrators == seq!["e-learning.testnet"@, "juanochando.testnet"@],
            wf(res@),
    {
        Self::new(owner_id, vault_id)
    }

    /// Adds an administrator.  Only a current administrator may call; adding
    /// a present member fails with `AlreadyExists`.
    pub fn set_admin(&mut self, caller: &String, user_id: String) -> (res: Result<
        (),
        ContractError,
    >)
        requires
            wf(old(self)@),
        ensures
            wf(final(self)@),
            !old(self)@.administrators.contains(caller@) ==> res === Err(
                ContractError::PermissionDenied,
            ) && final(self)@ == old(self)@,
            old(self)@.administrators.contains(caller@) && old(self)@.administrators.contains(
                user_id@,
            ) ==> res === Err(ContractError::AlreadyExists) && final(self)@ == old(self)@,
            old(self)@.administrators.contains(caller@) && !old(self)@.administrators.contains(
                user_id@,
            ) ==> res === Ok(()) && final(self)@ == (ContractV {
                administrators: old(self)@.administrators.push(user_id@),
                ..old(self)@
            }),
    {
        if !account_listed(&self.administrators, caller) {
            return Err(ContractError::PermissionDenied);
        }
        if account_listed(&self.administrators, &user_id) {
            return Err(ContractError::AlreadyExists);
        }
        let ghost prev = self@;
        self.administrators.push(user_id);
        proof {
            assert(self@.administrators =~= prev.administrators.push(user_id@));
            assert(self@ =~= (ContractV { administrators: prev.administrators.push(user_id@), ..prev }));
            assert forall|i: int, j: int|
                0 <= i < j < self@.administrators.len() implies self@.administrators[i]
                != self@.administrators[j] by {
                if j + 1 == self@.administrators.len() {
                    assert(!prev.administrators.contains(user_id@));
                    assert(prev.administrators[i] != user_id@);
                } else {
                    assert(prev.administrators[i] != prev.administrators[j]);
                }
            }
        }
        Ok(())
    }

    /// Removes an administrator.  Only a current administrator may call;
    /// removing an absent identity fails with `NotFound`.
    #[verifier::loop_isolation(false)]
    pub fn delete_admin(&mut self, caller: &String, user_id: &String) -> (res: Result<
        (),
        ContractError,
    >)
        requires
            wf(old(self)@),
        ensures
            wf(final(self)@),
            !old(self)@.administrators.contains(caller@) ==> res === Err(
                ContractError::PermissionDenied,
            ) && final(self)@ == old(self)@,
            old(self)@.administrators.contains(caller@) && !old(self)@.administrators.contains(
                user_id@,
            ) ==> res === Err(ContractError::NotFound) && final(self)@ == old(self)@,
            old(self)@.administrators.contains(caller@) && old(self)@.administrators.contains(
                user_id@,
            ) ==> res === Ok(()) && exists|i: int|
                0 <= i < old(self)@.administrators.len() && old(self)@.administrators[i]
                    == user_id@ && final(self)@ == (ContractV {
                    administrators: old(self)@.administrators.remove(i),
                    ..old(self)@
                }),
    {
        if !account_listed(&self.administrators, caller) {
            return Err(ContractError::PermissionDenied);
        }
        let ghost prev = self@;
        let mut i: usize = 0;
        while i < self.administrators.len()
            invariant
                0 <= i <= self.administrators.len(),
                prev == self@,
                forall|j: int| 0 <= j < i ==> prev.administrators[j] != user_id@,
            decreases self.administrators.len() - i,
        {
            if self.administrators[i].eq(user_id) {
                assert(prev.administrators[i as int] == user_id@);
                self.administrators.remove(i);
                proof {
                    let gi = i as int;
                    let o = prev.administrators;
                    let n = self@.administrators;
                    assert(n =~= o.remove(gi));
                    assert(self@ =~= (ContractV { administrators: o.remove(gi), ..prev }));
                    assert forall|a: int, b: int|
                        0 <= a < b < n.len() implies n[a] != n[b] by {
                        let oa: int = if a < gi { a } else { a + 1 };
                        let ob: int = if b < gi { b } else { b + 1 };
                        assert(n[a] == o[oa]);
                        assert(n[b] == o[ob]);
                        lemma_admins_distinct(prev, oa, ob);
                    }
                    assert(o.contains(user_id@)) by {
                        assert(o[gi] == user_id@);
                    }
                }
                return Ok(());
            }
            i += 1;
        }
        assert(forall|j: int| 0 <= j < prev.administrators.len() ==> prev.administrators[j] != user_id@);
        assert(!prev.administrators.contains(user_id@));
        Err(ContractError::NotFound)
    }

    /// Returns every profile, or with `Some(user_id)` only the profile of
    /// that identity (empty if there is none).
    #[verifier::loop_isolation(false)]
    pub fn get_profile(&self, user_id: Option<&String>) -> (res: Vec<ProfileObject>)
        ensures
            match user_id {
                None => profiles_view(res@) == self@.profiles,
                Some(u) => profiles_view(res@) == self@.profiles.filter(
                    |p: ProfileV| p.user_id == u@,
                ),
            },
    {
        let ghost profs = self@.profiles;
        let mut res: Vec<ProfileObject> = Vec::new();
        match user_id {
            None => {
                let mut i: usize = 0;
                while i < self.profiles.len()
                    invariant
                        0 <= i <= self.profiles.len(),
                        profs == self@.profiles,
                        profiles_view(res@) =~= profs.take(i as int),
                    decreases self.profiles.len() - i,
                {
                    let item = self.profiles[i].clone();
                    let ghost itemg = item;
                    let ghost res_prev = res@;
                    res.push(item);
                    proof {
                        assert(res@ == res_prev.push(itemg));
                        assert(itemg@ == profs[i as int]);
                        assert(profiles_view(res@) =~= profs.take(i + 1));
                    }
                    i += 1;
                }
                proof {
                    assert(profs.take(profs.len() as int) =~= profs);
                }
                res
            },
            Some(u) => {
                let ghost pred = |p: ProfileV| p.user_id == u@;
                let mut i: usize = 0;
                while i < self.profiles.len()
                    invariant
                        0 <= i <= self.profiles.len(),
                        profs == self@.profiles,
                        pred == (|p: ProfileV| p.user_id == u@),
                        profiles_view(res@) =~= profs.take(i as int).filter(pred),
                    decreases self.profiles.len() - i,
                {
                    proof {
                        reveal(Seq::filter);
                        assert(profs.take(i + 1).drop_last() =~= profs.take(i as int));
                        assert(profs.take(i + 1).last() == profs[i as int]);
                    }
                    if self.profiles[i].user_id.eq(u) {
                        assert(pred(profs[i as int]));
                        let item = self.profiles[i].clone();
                        let ghost itemg = item;
                        let ghost res_prev = res@;
                        res.push(item);
                        proof {
                            assert(res@ == res_prev.push(itemg));
                            assert(itemg@ == profs[i as int]);
                            assert(profiles_view(res@) =~= profs.take(i + 1).filter(pred));
                        }
                    } else {
                        assert(!pred(profs[i as int]));
                        proof {
                            assert(profiles_view(res@) =~= profs.take(i + 1).filter(pred));
                        }
                    }
                    i += 1;
                }
                proof {
                    assert(profs.take(profs.len() as int) =~= profs);
                }
                res
            },
        }
    }
}

} // verus!

