//! The laws of the marketplace that relate several operations, each proved
//! once and for all states.

use vstd::prelude::*;

use crate::engine::{creator_share_of, vault_fee_of};
use crate::listing::{market_filtered, page_of};
use crate::state::{
    course_at, course_ids_unique, course_index, has_course, lemma_course_at_position,
    lemma_wf_course_ids_unique, profiles_with_purchase, sum_critics, wf, ContractV,
};
use crate::types::CourseV;

verus! {

/// Law: the fee split is exact.  For every price the vault fee is the
/// basis-point cut rounded down, and vault fee plus creator share give the
/// price back: nothing is created or lost by the split.
pub proof fn law_fee_split(price: int)
    requires
        0 <= price,
    ensures
        vault_fee_of(price) == price * 500 / 10000,
        vault_fee_of(price) + creator_share_of(price) == price,
{
}

/// Law: the stored rating of every course in every well-formed state is
/// the mean of its current critic scores — the stored numerator equals the
/// sum over the full review set, and the count is the review count, so
/// `rating == sum_critics(reviews) / reviews.len()` as an exact rational.
/// Every mutating operation preserves `wf`, so this holds in particular
/// after any review upsert.
pub proof fn law_rating_is_mean(s: ContractV, i: int)
    requires
        wf(s),
        0 <= i < s.courses.len(),
    ensures
        s.courses[i].rating_sum == sum_critics(s.courses[i].reviews),
{
}

/// Law: course purchase is not reentrant per buyer and course.  The state
/// a successful `course_buy` leaves behind lists the buyer as enrolled in
/// the course, so a second `course_buy` of the same pair meets its
/// `Conflict` clause, whatever value is attached.
pub proof fn law_buy_not_reentrant(
    before: ContractV,
    after: ContractV,
    signer: Seq<char>,
    course_id: int,
)
    requires
        wf(before),
        has_course(before.courses, course_id),
        !course_at(before.courses, course_id).inscriptions.contains(signer),
        after == (ContractV {
            courses: before.courses.update(
                course_index(before.courses, course_id),
                CourseV {
                    inscriptions: course_at(before.courses, course_id).inscriptions.push(signer),
                    ..course_at(before.courses, course_id)
                },
            ),
            profiles: profiles_with_purchase(before.profiles, signer, course_id),
            ..before
        }),
    ensures
        has_course(after.courses, course_id),
        course_at(after.courses, course_id).inscriptions.contains(signer),
{
    lemma_wf_course_ids_unique(before);
    let k = course_index(before.courses, course_id);
    assert(0 <= k < before.courses.len() && before.courses[k].id == course_id);
    let updated = CourseV {
        inscriptions: course_at(before.courses, course_id).inscriptions.push(signer),
        ..course_at(before.courses, course_id)
    };
    assert(after.courses == before.courses.update(k, updated));
    assert(after.courses[k] == updated);
    assert(course_ids_unique(after.courses)) by {
        assert forall|x: int, y: int|
            0 <= x < y < after.courses.len() implies after.courses[x].id != after.courses[y].id by {
            assert(after.courses[x].id == before.courses[x].id);
            assert(after.courses[y].id == before.courses[y].id);
        }
    }
    lemma_course_at_position(after.courses, k);
    assert(course_at(after.courses, course_id) == updated);
    assert(updated.inscriptions.last() == signer);
}

/// Law: the first page of the filtered market listing holds exactly
/// `min(k, totalAfterFilter)` entries, and they are the first entries of
/// the filtered catalog in catalog order.  The listing is a function of
/// the state and the arguments alone, so two calls around no mutation
/// return the identical page.
pub proof fn law_first_page(
    cs: Seq<CourseV>,
    creator: Option<Seq<char>>,
    category: Option<int>,
    id: Option<int>,
    k: int,
)
    requires
        0 <= k,
    ensures
        ({
            let f = market_filtered(cs, creator, category, id);
            let p = page_of(f, 0, k);
            &&& p.len() == if k <= f.len() {
                k
            } else {
                f.len() as int
            }
            &&& p == f.take(p.len() as int)
        }),
{
    let f = market_filtered(cs, creator, category, id);
    let p = page_of(f, 0, k);
    if f.len() == 0 {
        assert(p =~= f.take(0));
    } else if k >= f.len() {
        assert(p =~= f.take(f.len() as int));
    } else {
        assert(p =~= f.take(k));
    }
}

} // verus!
