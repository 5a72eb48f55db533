//! Read-only market views of the catalog: conjunctive filtering, pagination
//! and the projection that strips enrollment identities and content bodies.

use vstd::prelude::*;

use crate::state::Contract;
use crate::types::{
    courses_view, market_views_view, template_views_view, CoursesObject, CourseV, MarketView,
    MarketViewV, TemplateV, TemplateView, TemplateViewV,
};
use crate::ContractError;

verus! {

/// The public projection of one content item.
pub open spec fn template_view_of(t: TemplateV) -> TemplateViewV {
    TemplateViewV { title: t.title, tipo: t.tipo }
}

/// The market projection of one course: everything but the enrollment
/// identities, with content reduced to title and kind.
pub open spec fn market_view_of(c: CourseV) -> MarketViewV {
    MarketViewV {
        id: c.id,
        creator_id: c.creator_id,
        title: c.title,
        categories: c.categories,
        short_description: c.short_description,
        long_description: c.long_description,
        img: c.img,
        content: c.content.map_values(|t: TemplateV| template_view_of(t)),
        price: c.price,
        price_certification: c.price_certification,
        rating_sum: c.rating_sum,
        reviews: c.reviews,
    }
}

/// The conjunction of the optional creator, category and identifier
/// filters.
pub open spec fn market_pred(
    c: CourseV,
    creator: Option<Seq<char>>,
    category: Option<int>,
    id: Option<int>,
) -> bool {
    &&& (creator matches Some(u) ==> c.creator_id == u)
    &&& (category matches Some(g) ==> c.categories.id == g)
    &&& (id matches Some(i) ==> c.id == i)
}

/// The catalog after the conjunctive filters, in catalog order.
pub open spec fn market_filtered(
    cs: Seq<CourseV>,
    creator: Option<Seq<char>>,
    category: Option<int>,
    id: Option<int>,
) -> Seq<CourseV> {
    cs.filter(|c: CourseV| market_pred(c, creator, category, id))
}

/// The page of a sequence that skips `start` elements and takes at most
/// `limit`.
pub open spec fn page_of<A>(s: Seq<A>, start: int, limit: int) -> Seq<A>
    recommends
        0 <= start,
        0 <= limit,
{
    if start >= s.len() {
        Seq::<A>::empty()
    } else if start + limit >= s.len() {
        s.subrange(start, s.len() as int)
    } else {
        s.subrange(start, start + limit)
    }
}

/// Computes the market projection of a course.
#[verifier::loop_isolation(false)]
pub fn market_view_of_exec(c: &CoursesObject) -> (m: MarketView)
    ensures
        m@ == market_view_of(c@),
{
    let mut content: Vec<TemplateView> = Vec::new();
    let ghost target = c@.content.map_values(|t: TemplateV| template_view_of(t));
    let mut i: usize = 0;
    while i < c.content.len()
        invariant
            0 <= i <= c.content.len(),
            template_views_view(content@) =~= target.take(i as int),
        decreases c.content.len() - i,
    {
        let item = TemplateView { title: c.content[i].title.clone(), tipo: c.content[i].tipo };
        content.push(item);
        proof {
            assert(template_views_view(content@) =~= target.take(i + 1));
        }
        i += 1;
    }
    proof {
        assert(target.take(target.len() as int) =~= target);
    }
    let m = MarketView {
        id: c.id,
        creator_id: c.creator_id.clone(),
        title: c.title.clone(),
        categories: c.categories.clone(),
        short_description: c.short_description.clone(),
        long_description: c.long_description.clone(),
        img: c.img.clone(),
        content,
        price: c.price,
        price_certification: c.price_certification,
        rating_sum: c.rating_sum,
        reviews: c.reviews.clone(),
    };
    proof {
        assert(m.reviews@ =~= c.reviews@);
        assert(m@ =~= market_view_of(c@));
    }
    m
}

impl Contract {
    /// Returns the full records of the courses of one creator; a missing
    /// creator argument fails with `InvalidArgument`.
    #[verifier::loop_isolation(false)]
    pub fn get_courses_intructor(&self, user_id: Option<&String>) -> (res: Result<
        Vec<CoursesObject>,
        ContractError,
    >)
        ensures
            user_id is None ==> res === Err(ContractError::InvalidArgument),
            user_id matches Some(u) ==> ({
                &&& res matches Ok(v) && courses_view(v@) == self@.courses.filter(
                    |c: CourseV| c.creator_id == u@,
                )
            }),
    {
        let u = match user_id {
            None => {
                return Err(ContractError::InvalidArgument);
            },
            Some(u) => u,
        };
        let ghost cs = self@.courses;
        let ghost pred = |c: CourseV| c.creator_id == u@;
        let mut res: Vec<CoursesObject> = Vec::new();
        let mut i: usize = 0;
        while i < self.courses.len()
            invariant
                0 <= i <= self.courses.len(),
                courses_view(res@) =~= cs.take(i as int).filter(pred),
            decreases self.courses.len() - i,
        {
            proof {
                reveal(Seq::filter);
                assert(cs.take(i + 1).drop_last() =~= cs.take(i as int));
                assert(cs.take(i + 1).last() == cs[i as int]);
            }
            if self.courses[i].creator_id.eq(u) {
                assert(pred(cs[i as int]));
                let item = self.courses[i].clone();
                res.push(item);
                proof {
                    assert(courses_view(res@) =~= cs.take(i + 1).filter(pred));
                }
            } else {
                assert(!pred(cs[i as int]));
                proof {
                    assert(courses_view(res@) =~= cs.take(i + 1).filter(pred));
                }
            }
            i += 1;
        }
        proof {
            assert(cs.take(cs.len() as int) =~= cs);
        }
        Ok(res)
    }

    /// Counts the courses passing the optional creator and category
    /// filters.
    #[verifier::loop_isolation(false)]
    pub fn get_course_size(&self, creator_id: Option<&String>, category_id: Option<i128>) -> (res:
        u64)
        ensures
            ({
                let cr = match creator_id {
                    Some(u) => Some(u@),
                    None => None::<Seq<char>>,
                };
                let cat = match category_id {
                    Some(g) => Some(g as int),
                    None => None::<int>,
                };
                res as int == market_filtered(self@.courses, cr, cat, None::<int>).len()
            }),
    {
        let ghost cs = self@.courses;
        let ghost cr = match creator_id {
            Some(u) => Some(u@),
            None => None::<Seq<char>>,
        };
        let ghost cat = match category_id {
            Some(g) => Some(g as int),
            None => None::<int>,
        };
        let ghost pred = |c: CourseV| market_pred(c, cr, cat, None::<int>);
        let mut count: u64 = 0;
        let mut i: usize = 0;
        while i < self.courses.len()
            invariant
                0 <= i <= self.courses.len(),
                count as int == cs.take(i as int).filter(pred).len(),
                count <= i,
            decreases self.courses.len() - i,
        {
            proof {
                reveal(Seq::filter);
                assert(cs.take(i + 1).drop_last() =~= cs.take(i as int));
                assert(cs.take(i + 1).last() == cs[i as int]);
            }
            let creator_ok = match creator_id {
                Some(u) => self.courses[i].creator_id.eq(u),
                None => true,
            };
            let category_ok = match category_id {
                Some(g) => self.courses[i].categories.id == g,
                None => true,
            };
            if creator_ok && category_ok {
                assert(pred(cs[i as int]));
                count = count + 1;
            } else {
                assert(!pred(cs[i as int]));
            }
            i += 1;
        }
        proof {
            assert(cs.take(cs.len() as int) =~= cs);
        }
        count
    }

    /// Returns one page of the filtered market: the filters apply
    /// conjunctively in catalog order, then `from_index` entries are
    /// skipped and at most `limit` are returned as market projections.
    /// An offset past the whole catalog or a limit of zero fails with
    /// `InvalidArgument`.
    #[verifier::loop_isolation(false)]
    pub fn get_market_courses(
        &self,
        course_id: Option<i128>,
        creator_id: Option<&String>,
        category_id: Option<i128>,
        from_index: Option<u128>,
        limit: Option<u64>,
    ) -> (res: Result<Vec<MarketView>, ContractError>)
        ensures
            ({
                let cr = match creator_id {
                    Some(u) => Some(u@),
                    None => None::<Seq<char>>,
                };
                let cat = match category_id {
                    Some(g) => Some(g as int),
                    None => None::<int>,
                };
                let cid = match course_id {
                    Some(c) => Some(c as int),
                    None => None::<int>,
                };
                let start = match from_index {
                    Some(f) => f as int,
                    None => 0,
                };
                let lim = match limit {
                    Some(l) => l as int,
                    None => u64::MAX as int,
                };
                &&& start >= self@.courses.len() || lim == 0 ==> res === Err(
                    ContractError::InvalidArgument,
                )
                &&& start < self@.courses.len() && lim != 0 ==> ({
                    &&& res matches Ok(v) && market_views_view(v@) == page_of(
                        market_filtered(self@.courses, cr, cat, cid),
                        start,
                        lim,
                    ).map_values(|c: CourseV| market_view_of(c))
                })
            }),
    {
        let ghost cs = self@.courses;
        let ghost cr = match creator_id {
            Some(u) => Some(u@),
            None => None::<Seq<char>>,
        };
        let ghost cat = match category_id {
            Some(g) => Some(g as int),
            None => None::<int>,
        };
        let ghost cid = match course_id {
            Some(c) => Some(c as int),
            None => None::<int>,
        };
        let start_u128: u128 = match from_index {
            Some(f) => f,
            None => 0,
        };
        if !((self.courses.len() as u128) > start_u128) {
            return Err(ContractError::InvalidArgument);
        }
        let lim_u64: u64 = match limit {
            Some(l) => l,
            None => u64::MAX,
        };
        if lim_u64 == 0 {
            return Err(ContractError::InvalidArgument);
        }
        let start: usize = start_u128 as usize;
        proof {
            assert(start as int == start_u128 as int);
        }
        let ghost pred = |c: CourseV| market_pred(c, cr, cat, cid);
        let ghost filtered = cs.filter(pred);
        // collect the catalog positions of the courses that pass the filters
        let mut idxs: Vec<usize> = Vec::new();
        let mut i: usize = 0;
        while i < self.courses.len()
            invariant
                0 <= i <= self.courses.len(),
                idxs@.len() == cs.take(i as int).filter(pred).len(),
                forall|j: int|
                    0 <= j < idxs@.len() ==> (#[trigger] idxs@[j]) < i && cs.take(
                        i as int,
                    ).filter(pred)[j] == cs[idxs@[j] as int],
            decreases self.courses.len() - i,
        {
            proof {
                reveal(Seq::filter);
                assert(cs.take(i + 1).drop_last() =~= cs.take(i as int));
                assert(cs.take(i + 1).last() == cs[i as int]);
            }
            let creator_ok = match creator_id {
                Some(u) => self.courses[i].creator_id.eq(u),
                None => true,
            };
            let category_ok = match category_id {
                Some(g) => self.courses[i].categories.id == g,
                None => true,
            };
            let id_ok = match course_id {
                Some(c) => self.courses[i].id == c,
                None => true,
            };
            if creator_ok && category_ok && id_ok {
                assert(pred(cs[i as int]));
                idxs.push(i);
            } else {
                assert(!pred(cs[i as int]));
            }
            i += 1;
        }
        proof {
            assert(cs.take(cs.len() as int) =~= cs);
        }
        // emit the requested page of the filtered catalog
        let ghost target = page_of(filtered, start as int, lim_u64 as int).map_values(
            |c: CourseV| market_view_of(c),
        );
        let mut res: Vec<MarketView> = Vec::new();
        let mut j: usize = start;
        let mut produced: u64 = 0;
        while j < idxs.len() && produced < lim_u64
            invariant
                start <= j <= idxs@.len() || (j == start && idxs@.len() < start),
                produced as int == j - start,
                produced <= lim_u64,
                market_views_view(res@) =~= target.take(j - start),
            decreases idxs@.len() - j,
        {
            let item = market_view_of_exec(&self.courses[idxs[j]]);
            res.push(item);
            proof {
                assert(filtered[j as int] == cs[idxs@[j as int] as int]);
                assert(target[j - start] == market_view_of(filtered[j as int]));
                assert(market_views_view(res@) =~= target.take(j + 1 - start));
            }
            j += 1;
            produced += 1;
        }
        proof {
            assert(idxs@.len() == filtered.len());
            if (start as int) >= filtered.len() {
                assert(j == start);
                assert(target.len() == 0);
            } else {
                if j >= idxs.len() {
                    assert(j - start == filtered.len() - start);
                    assert(produced as int <= lim_u64 as int);
                    assert(target.len() == j - start);
                } else {
                    assert(produced == lim_u64);
                    assert((start as int) + (lim_u64 as int) <= filtered.len());
                    assert(target.len() == lim_u64 as int);
                    assert(target.len() == j - start);
                }
            }
            assert(market_views_view(res@) =~= target.take(j - start));
            assert(target.take(target.len() as int) =~= target);
            assert(market_views_view(res@) =~= target);
        }
        Ok(res)
    }

    /// Returns the last `number_courses` catalog entries, oldest first, as
    /// market projections (or every entry when the catalog is smaller).
    #[verifier::loop_isolation(false)]
    pub fn get_recent_courses(&self, number_courses: u64) -> (res: Vec<MarketView>)
        ensures
            ({
                let sk = if self@.courses.len() > number_courses as int {
                    self@.courses.len() - number_courses as int
                } else {
                    0
                };
                market_views_view(res@) == self@.courses.skip(sk as int).map_values(
                    |c: CourseV| market_view_of(c),
                )
            }),
    {
        let ghost cs = self@.courses;
        let sk: usize = if (self.courses.len() as u64) > number_courses {
            self.courses.len() - (number_courses as usize)
        } else {
            0
        };
        let ghost target = cs.skip(sk as int).map_values(|c: CourseV| market_view_of(c));
        let mut res: Vec<MarketView> = Vec::new();
        let mut i: usize = sk;
        while i < self.courses.len()
            invariant
                sk <= i <= self.courses.len(),
                market_views_view(res@) =~= target.take(i - sk),
            decreases self.courses.len() - i,
        {
            let item = market_view_of_exec(&self.courses[i]);
            res.push(item);
            proof {
                assert(target[i - sk] == market_view_of(cs[i as int]));
                assert(market_views_view(res@) =~= target.take(i + 1 - sk));
            }
            i += 1;
        }
        proof {
            assert(market_views_view(res@) =~= target);
        }
        res
    }
}

} // verus!
