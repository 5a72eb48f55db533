//! Category bookkeeping and the create/update/delete side of the course
//! catalog.

use vstd::prelude::*;

use crate::state::{
    account_listed, course_at, course_ids_unique, course_index, course_wf, has_course,
    lemma_course_at_position, lemma_wf_course_ids_unique, profile_wf, purchase_backed,
    sum_critics, wf, Contract, ContractV,
};
use crate::types::{
    categories_view, courses_view, templates_view, CategoriesJson, CategoryV, CoursesObject,
    CourseV, ReviewV, TemplateObject,
};
use crate::ContractError;
use crate::PRICE_LIMIT;

verus! {

/// There is a category with this identifier.
pub open spec fn has_category(cats: Seq<CategoryV>, id: int) -> bool {
    exists|i: int| 0 <= i < cats.len() && cats[i].id == id
}

/// Finds the position of a course in the catalog.
#[verifier::loop_isolation(false)]
pub fn find_course(courses: &Vec<CoursesObject>, course_id: i128) -> (r: Option<usize>)
    ensures
        match r {
            Some(k) => k < courses@.len() && courses_view(courses@)[k as int].id
                == course_id as int,
            None => !has_course(courses_view(courses@), course_id as int),
        },
{
    let ghost cs = courses_view(courses@);
    let mut i: usize = 0;
    while i < courses.len()
        invariant
            0 <= i <= courses.len(),
            forall|j: int| 0 <= j < i ==> cs[j].id != course_id as int,
        decreases courses.len() - i,
    {
        if courses[i].id == course_id {
            assert(cs[i as int].id == course_id as int);
            return Some(i);
        }
        i += 1;
    }
    None
}

/// Finds the position of a category.
#[verifier::loop_isolation(false)]
pub fn find_category(cats: &Vec<CategoriesJson>, category_id: i128) -> (r: Option<usize>)
    ensures
        match r {
            Some(k) => k < cats@.len() && categories_view(cats@)[k as int].id
                == category_id as int,
            None => !has_category(categories_view(cats@), category_id as int),
        },
{
    let ghost cs = categories_view(cats@);
    let mut i: usize = 0;
    while i < cats.len()
        invariant
            0 <= i <= cats.len(),
            forall|j: int| 0 <= j < i ==> cs[j].id != category_id as int,
        decreases cats.len() - i,
    {
        if cats[i].id == category_id {
            assert(cs[i as int].id == category_id as int);
            return Some(i);
        }
        i += 1;
    }
    None
}

impl Contract {
    /// Creates a category with the next identifier.  Administrators only.
    pub fn set_category(&mut self, caller: &String, name: String, img: String) -> (res: Result<
        CategoriesJson,
        ContractError,
    >)
        requires
            wf(old(self)@),
            old(self)@.id_categories < i128::MAX as int,
        ensures
            wf(final(self)@),
            !old(self)@.administrators.contains(caller@) ==> res === Err(
                ContractError::PermissionDenied,
            ) && final(self)@ == old(self)@,
            old(self)@.administrators.contains(caller@) ==> ({
                let cat = CategoryV {
                    id: old(self)@.id_categories + 1,
                    name: name@,
                    img: img@,
                };
                &&& res matches Ok(c) && c@ == cat
                &&& final(self)@ == (ContractV {
                    id_categories: old(self)@.id_categories + 1,
                    categories: old(self)@.categories.push(cat),
                    ..old(self)@
                })
            }),
    {
        if !account_listed(&self.administrators, caller) {
            return Err(ContractError::PermissionDenied);
        }
        self.id_categories = self.id_categories + 1;
        let data = CategoriesJson { id: self.id_categories, name, img };
        let res = data.clone();
        self.categories.push(data);
        proof {
            let prev = old(self)@;
            let cat = CategoryV { id: prev.id_categories + 1, name: res.name@, img: res.img@ };
            assert(self@.categories =~= prev.categories.push(cat));
            assert(self@ =~= (ContractV {
                id_categories: prev.id_categories + 1,
                categories: prev.categories.push(cat),
                ..prev
            }));
        }
        Ok(res)
    }

    /// Replaces the name and image of a category.  Administrators only;
    /// a missing category fails with `NotFound`.
    pub fn put_category(
        &mut self,
        caller: &String,
        category_id: i128,
        name: String,
        img: String,
    ) -> (res: Result<CategoriesJson, ContractError>)
        requires
            wf(old(self)@),
        ensures
            wf(final(self)@),
            !old(self)@.administrators.contains(caller@) ==> res === Err(
                ContractError::PermissionDenied,
            ) && final(self)@ == old(self)@,
            old(self)@.administrators.contains(caller@) && !has_category(
                old(self)@.categories,
                category_id as int,
            ) ==> res === Err(ContractError::NotFound) && final(self)@ == old(self)@,
            old(self)@.administrators.contains(caller@) && has_category(
                old(self)@.categories,
                category_id as int,
            ) ==> ({
                let cat = CategoryV { id: category_id as int, name: name@, img: img@ };
                &&& res matches Ok(c) && c@ == cat
                &&& exists|k: int|
                    0 <= k < old(self)@.categories.len() && old(self)@.categories[k].id
                        == category_id as int && final(self)@ == (ContractV {
                        categories: old(self)@.categories.update(k, cat),
                        ..old(self)@
                    })
            }),
    {
        if !account_listed(&self.administrators, caller) {
            return Err(ContractError::PermissionDenied);
        }
        let found = find_category(&self.categories, category_id);
        match found {
            None => Err(ContractError::NotFound),
            Some(k) => {
                let data = CategoriesJson { id: category_id, name, img };
                let res = data.clone();
                self.categories[k] = data;
                proof {
                    let prev = old(self)@;
                    let gk = k as int;
                    let cat = CategoryV { id: category_id as int, name: res.name@, img: res.img@ };
                    assert(self@.categories =~= prev.categories.update(gk, cat));
                    assert(self@ =~= (ContractV {
                        categories: prev.categories.update(gk, cat),
                        ..prev
                    }));
                    assert forall|i: int, j: int|
                        0 <= i < j < self@.categories.len() implies self@.categories[i].id
                        < self@.categories[j].id by {
                        assert(self@.categories[i].id == prev.categories[i].id);
                        assert(self@.categories[j].id == prev.categories[j].id);
                    }
                }
                Ok(res)
            },
        }
    }

    /// Returns every category, or with `Some(category_id)` only the one
    /// with that identifier (empty if there is none).
    #[verifier::loop_isolation(false)]
    pub fn get_category(&self, category_id: Option<i128>) -> (res: Vec<CategoriesJson>)
        ensures
            match category_id {
                None => categories_view(res@) == self@.categories,
                Some(id) => categories_view(res@) == self@.categories.filter(
                    |c: CategoryV| c.id == id as int,
                ),
            },
    {
        let ghost cats = self@.categories;
        let mut res: Vec<CategoriesJson> = Vec::new();
        match category_id {
            None => {
                let mut i: usize = 0;
                while i < self.categories.len()
                    invariant
                        0 <= i <= self.categories.len(),
                        categories_view(res@) =~= cats.take(i as int),
                    decreases self.categories.len() - i,
                {
                    let item = self.categories[i].clone();
                    res.push(item);
                    proof {
                        assert(categories_view(res@) =~= cats.take(i + 1));
                    }
                    i += 1;
                }
                proof {
                    assert(cats.take(cats.len() as int) =~= cats);
                }
                res
            },
            Some(id) => {
                let ghost pred = |c: CategoryV| c.id == id as int;
                let mut i: usize = 0;
                while i < self.categories.len()
                    invariant
                        0 <= i <= self.categories.len(),
                        categories_view(res@) =~= cats.take(i as int).filter(pred),
                    decreases self.categories.len() - i,
                {
                    proof {
                        reveal(Seq::filter);
                        assert(cats.take(i + 1).drop_last() =~= cats.take(i as int));
                        assert(cats.take(i + 1).last() == cats[i as int]);
                    }
                    if self.categories[i].id == id {
                        assert(pred(cats[i as int]));
                        let item = self.categories[i].clone();
                        res.push(item);
                        proof {
                            assert(categories_view(res@) =~= cats.take(i + 1).filter(pred));
                        }
                    } else {
                        assert(!pred(cats[i as int]));
                        proof {
                            assert(categories_view(res@) =~= cats.take(i + 1).filter(pred));
                        }
                    }
                    i += 1;
                }
                proof {
                    assert(cats.take(cats.len() as int) =~= cats);
                }
                res
            },
        }
    }

    /// Deletes a category.  Administrators only; a missing category fails
    /// with `NotFound`.
    pub fn delete_category(&mut self, caller: &String, category_id: i128) -> (res: Result<
        (),
        ContractError,
    >)
        requires
            wf(old(self)@),
        ensures
            wf(final(self)@),
            !old(self)@.administrators.contains(caller@) ==> res === Err(
                ContractError::PermissionDenied,
            ) && final(self)@ == old(self)@,
            old(self)@.administrators.contains(caller@) && !has_category(
                old(self)@.categories,
                category_id as int,
            ) ==> res === Err(ContractError::NotFound) && final(self)@ == old(self)@,
            old(self)@.administrators.contains(caller@) && has_category(
                old(self)@.categories,
                category_id as int,
            ) ==> res === Ok(()) && exists|k: int|
                0 <= k < old(self)@.categories.len() && old(self)@.categories[k].id
                    == category_id as int && final(self)@ == (ContractV {
                    categories: old(self)@.categories.remove(k),
                    ..old(self)@
                }),
    {
        if !account_listed(&self.administrators, caller) {
            return Err(ContractError::PermissionDenied);
        }
        let found = find_category(&self.categories, category_id);
        match found {
            None => Err(ContractError::NotFound),
            Some(k) => {
                self.categories.remove(k);
                proof {
                    let prev = old(self)@;
                    let gk = k as int;
                    let o = prev.categories;
                    let n = self@.categories;
                    assert(n =~= o.remove(gk));
                    assert(self@ =~= (ContractV { categories: o.remove(gk), ..prev }));
                    assert forall|a: int, b: int|
                        0 <= a < b < n.len() implies n[a].id < n[b].id by {
                        let oa: int = if a < gk { a } else { a + 1 };
                        let ob: int = if b < gk { b } else { b + 1 };
                        assert(n[a] == o[oa]);
                        assert(n[b] == o[ob]);
                        assert(o[oa].id < o[ob].id);
                    }
                    assert forall|a: int| 0 <= a < n.len() implies 1 <= (#[trigger] n[a]).id
                        <= self@.id_categories by {
                        let oa: int = if a < gk { a } else { a + 1 };
                        assert(n[a] == o[oa]);
                        assert(1 <= o[oa].id <= prev.id_categories);
                    }
                }
                Ok(())
            },
        }
    }

    /// Publishes a course under the next identifier, owned by `creator`,
    /// with empty enrollment and review lists and rating zero.  Open to any
    /// caller.
    pub fn publish_course(
        &mut self,
        creator: String,
        title: String,
        categories: CategoriesJson,
        short_description: String,
        long_description: String,
        img: String,
        content: Vec<TemplateObject>,
        price: u128,
        price_certification: u128,
    ) -> (res: CoursesObject)
        requires
            wf(old(self)@),
            old(self)@.id_courses < i128::MAX as int,
            price <= PRICE_LIMIT,
            price_certification <= PRICE_LIMIT,
        ensures
            wf(final(self)@),
            ({
                let course = CourseV {
                    id: old(self)@.id_courses + 1,
                    creator_id: creator@,
                    title: title@,
                    categories: categories@,
                    short_description: short_description@,
                    long_description: long_description@,
                    img: img@,
                    content: templates_view(content@),
                    price: price as int,
                    price_certification: price_certification as int,
                    inscriptions: Seq::<Seq<char>>::empty(),
                    rating_sum: 0,
                    reviews: Seq::<ReviewV>::empty(),
                };
                &&& res@ == course
                &&& final(self)@ == (ContractV {
                    id_courses: old(self)@.id_courses + 1,
                    courses: old(self)@.courses.push(course),
                    ..old(self)@
                })
            }),
    {
        self.id_courses = self.id_courses + 1;
        let data = CoursesObject {
            id: self.id_courses,
            creator_id: creator,
            title,
            categories,
            short_description,
            long_description,
            img,
            content,
            price,
            price_certification,
            inscriptions: Vec::new(),
            rating_sum: 0,
            reviews: Vec::new(),
        };
        let res = data.clone();
        self.courses.push(data);
        proof {
            let prev = old(self)@;
            let course = res@;
            assert(course.inscriptions =~= Seq::<Seq<char>>::empty());
            assert(course.reviews =~= Seq::<ReviewV>::empty());
            assert(self@.courses =~= prev.courses.push(course));
            assert(self@ =~= (ContractV {
                id_courses: prev.id_courses + 1,
                courses: prev.courses.push(course),
                ..prev
            }));
            let n = self@.courses;
            assert(course_wf(course)) by {
                assert(sum_critics(course.reviews) == 0);
            }
            assert forall|a: int, b: int| 0 <= a < b < n.len() implies n[a].id < n[b].id by {
                if b + 1 == n.len() {
                    assert(n[a] == prev.courses[a]);
                    assert(prev.courses[a].id <= prev.id_courses);
                } else {
                    assert(n[a] == prev.courses[a]);
                    assert(n[b] == prev.courses[b]);
                }
            }
            assert forall|p: int|
                0 <= p < self@.profiles.len() implies profile_wf(
                n,
                #[trigger] self@.profiles[p],
            ) by {
                let prof = prev.profiles[p];
                assert(profile_wf(prev.courses, prof));
                assert forall|r: int|
                    0 <= r < prof.purchased_courses.len() implies purchase_backed(
                    n,
                    prof.user_id,
                    #[trigger] prof.purchased_courses[r],
                ) by {
                    let rid = prof.purchased_courses[r].course_id;
                    assert(purchase_backed(prev.courses, prof.user_id, prof.purchased_courses[r]));
                    lemma_wf_course_ids_unique(prev);
                    let i0 = course_index(prev.courses, rid);
                    assert(0 <= i0 < prev.courses.len() && prev.courses[i0].id == rid);
                    assert(course_ids_unique(n)) by {
                        assert forall|x: int, y: int|
                            0 <= x < y < n.len() implies n[x].id != n[y].id by {
                            assert(n[x].id < n[y].id);
                        }
                    }
                    assert(n[i0] == prev.courses[i0]);
                    lemma_course_at_position(n, i0);
                    assert(course_at(n, rid) == prev.courses[i0]);
                    assert(course_at(prev.courses, rid) == prev.courses[i0]);
                }
            }
        }
        res
    }

    /// Replaces the mutable attributes of a course.  Only its creator may
    /// call; identifier, creator, content, enrollment, rating and reviews
    /// are kept.
    pub fn put_course(
        &mut self,
        caller: &String,
        course_id: i128,
        title: String,
        categories: CategoriesJson,
        short_description: String,
        long_description: String,
        img: String,
        price: u128,
        price_certification: u128,
    ) -> (res: Result<CoursesObject, ContractError>)
        requires
            wf(old(self)@),
            price <= PRICE_LIMIT,
            price_certification <= PRICE_LIMIT,
        ensures
            wf(final(self)@),
            !has_course(old(self)@.courses, course_id as int) ==> res === Err(
                ContractError::NotFound,
            ) && final(self)@ == old(self)@,
            has_course(old(self)@.courses, course_id as int) && course_at(
                old(self)@.courses,
                course_id as int,
            ).creator_id != caller@ ==> res === Err(ContractError::PermissionDenied) && final(self)@ == old(self)@,
            has_course(old(self)@.courses, course_id as int) && course_at(
                old(self)@.courses,
                course_id as int,
            ).creator_id == caller@ ==> ({
                let prior = course_at(old(self)@.courses, course_id as int);
                let updated = CourseV {
                    title: title@,
                    categories: categories@,
                    short_description: short_description@,
                    long_description: long_description@,
                    img: img@,
                    price: price as int,
                    price_certification: price_certification as int,
                    ..prior
                };
                &&& res matches Ok(c) && c@ == updated
                &&& final(self)@ == (ContractV {
                    courses: old(self)@.courses.update(
                        course_index(old(self)@.courses, course_id as int),
                        updated,
                    ),
                    ..old(self)@
                })
            }),
    {
        let found = find_course(&self.courses, course_id);
        match found {
            None => Err(ContractError::NotFound),
            Some(k) => {
                proof {
                    lemma_wf_course_ids_unique(old(self)@);
                    lemma_course_at_position(old(self)@.courses, k as int);
                }
                if !self.courses[k].creator_id.eq(caller) {
                    return Err(ContractError::PermissionDenied);
                }
                self.courses[k].title = title;
                self.courses[k].categories = categories;
                self.courses[k].short_description = short_description;
                self.courses[k].long_description = long_description;
                self.courses[k].img = img;
                self.courses[k].price = price;
                self.courses[k].price_certification = price_certification;
                let res = self.courses[k].clone();
                proof {
                    let prev = old(self)@;
                    let gk = k as int;
                    let prior = prev.courses[gk];
                    let updated = res@;
                    let n = self@.courses;
                    assert(self@.courses[gk] =~= updated);
                    assert(updated =~= (CourseV {
                        title: updated.title,
                        categories: updated.categories,
                        short_description: updated.short_description,
                        long_description: updated.long_description,
                        img: updated.img,
                        price: updated.price,
                        price_certification: updated.price_certification,
                        ..prior
                    }));
                    assert(n =~= prev.courses.update(gk, updated));
                    assert(self@ =~= (ContractV { courses: prev.courses.update(gk, updated), ..prev }));
                    assert(course_wf(updated));
                    assert forall|a: int, b: int|
                        0 <= a < b < n.len() implies n[a].id < n[b].id by {
                        assert(n[a].id == prev.courses[a].id);
                        assert(n[b].id == prev.courses[b].id);
                    }
                    assert(course_ids_unique(n)) by {
                        assert forall|x: int, y: int|
                            0 <= x < y < n.len() implies n[x].id != n[y].id by {
                            assert(n[x].id < n[y].id);
                        }
                    }
                    assert forall|p: int|
                        0 <= p < self@.profiles.len() implies profile_wf(
                        n,
                        #[trigger] self@.profiles[p],
                    ) by {
                        let prof = prev.profiles[p];
                        assert(profile_wf(prev.courses, prof));
                        assert forall|r: int|
                            0 <= r < prof.purchased_courses.len() implies purchase_backed(
                            n,
                            prof.user_id,
                            #[trigger] prof.purchased_courses[r],
                        ) by {
                            let rid = prof.purchased_courses[r].course_id;
                            assert(purchase_backed(
                                prev.courses,
                                prof.user_id,
                                prof.purchased_courses[r],
                            ));
                            let i0 = course_index(prev.courses, rid);
                            assert(0 <= i0 < prev.courses.len() && prev.courses[i0].id == rid);
                            assert(n[i0].id == rid);
                            lemma_course_at_position(n, i0);
                            if i0 == gk {
                                assert(course_at(n, rid) == updated);
                                assert(updated.inscriptions == prior.inscriptions);
                            } else {
                                assert(course_at(n, rid) == prev.courses[i0]);
                            }
                        }
                    }
                }
                Ok(res)
            },
        }
    }

    /// Deletes a course.  Only its creator may call, and only while nobody
    /// is enrolled: active enrollments fail with `Conflict`.
    pub fn delete_course(&mut self, caller: &String, course_id: i128) -> (res: Result<
        (),
        ContractError,
    >)
        requires
            wf(old(self)@),
        ensures
            wf(final(self)@),
            !has_course(old(self)@.courses, course_id as int) ==> res === Err(
                ContractError::NotFound,
            ) && final(self)@ == old(self)@,
            has_course(old(self)@.courses, course_id as int) && course_at(
                old(self)@.courses,
                course_id as int,
            ).creator_id != caller@ ==> res === Err(ContractError::PermissionDenied) && final(self)@ == old(self)@,
            has_course(old(self)@.courses, course_id as int) && course_at(
                old(self)@.courses,
                course_id as int,
            ).creator_id == caller@ && course_at(
                old(self)@.courses,
                course_id as int,
            ).inscriptions.len() != 0 ==> res === Err(ContractError::Conflict) && final(self)@
                == old(self)@,
            has_course(old(self)@.courses, course_id as int) && course_at(
                old(self)@.courses,
                course_id as int,
            ).creator_id == caller@ && course_at(
                old(self)@.courses,
                course_id as int,
            ).inscriptions.len() == 0 ==> res === Ok(()) && final(self)@ == (ContractV {
                courses: old(self)@.courses.remove(
                    course_index(old(self)@.courses, course_id as int),
                ),
                ..old(self)@
            }),
    {
        let found = find_course(&self.courses, course_id);
        match found {
            None => Err(ContractError::NotFound),
            Some(k) => {
                proof {
                    lemma_wf_course_ids_unique(old(self)@);
                    lemma_course_at_position(old(self)@.courses, k as int);
                }
                if !self.courses[k].creator_id.eq(caller) {
                    return Err(ContractError::PermissionDenied);
                }
                if self.courses[k].inscriptions.len() != 0 {
                    return Err(ContractError::Conflict);
                }
                self.courses.remove(k);
                proof {
                    let prev = old(self)@;
                    let gk = k as int;
                    let o = prev.courses;
                    let n = self@.courses;
                    assert(n =~= o.remove(gk));
                    assert(self@ =~= (ContractV { courses: o.remove(gk), ..prev }));
                    assert forall|a: int, b: int|
                        0 <= a < b < n.len() implies n[a].id < n[b].id by {
                        let oa: int = if a < gk { a } else { a + 1 };
                        let ob: int = if b < gk { b } else { b + 1 };
                        assert(n[a] == o[oa]);
                        assert(n[b] == o[ob]);
                        assert(o[oa].id < o[ob].id);
                    }
                    assert forall|a: int|
                        0 <= a < n.len() implies course_wf(#[trigger] n[a]) && n[a].id
                        <= self@.id_courses by {
                        let oa: int = if a < gk { a } else { a + 1 };
                        assert(n[a] == o[oa]);
                    }
                    assert(course_ids_unique(n)) by {
                        assert forall|x: int, y: int|
                            0 <= x < y < n.len() implies n[x].id != n[y].id by {
                            assert(n[x].id < n[y].id);
                        }
                    }
                    assert forall|p: int|
                        0 <= p < self@.profiles.len() implies profile_wf(
                        n,
                        #[trigger] self@.profiles[p],
                    ) by {
                        let prof = prev.profiles[p];
                        assert(profile_wf(prev.courses, prof));
                        assert forall|r: int|
                            0 <= r < prof.purchased_courses.len() implies purchase_backed(
                            n,
                            prof.user_id,
                            #[trigger] prof.purchased_courses[r],
                        ) by {
                            let rid = prof.purchased_courses[r].course_id;
                            assert(purchase_backed(
                                o,
                                prof.user_id,
                                prof.purchased_courses[r],
                            ));
                            let i0 = course_index(o, rid);
                            assert(0 <= i0 < o.len() && o[i0].id == rid);
                            if i0 == gk {
                                assert(course_at(o, rid).inscriptions.len() == 0);
                                assert(course_at(o, rid).inscriptions.contains(prof.user_id));
                                assert(false);
                            }
                            let na: int = if i0 < gk { i0 } else { i0 - 1 };
                            assert(n[na] == o[i0]);
                            lemma_course_at_position(n, na);
                            assert(course_at(n, rid) == o[i0]);
                        }
                    }
                }
                Ok(())
            },
        }
    }
}

} // verus!
