//! The top-rated listing: courses with a positive rating, ordered by their
//! exact mean critic score, ties kept in catalog order.
//!
//! The rating of a course is the rational `rating_sum / reviews.len()`;
//! comparisons are exact, by quotient and cross-multiplied remainders, so
//! no rounding can reorder two courses.

use vstd::prelude::*;

use vstd::arithmetic::div_mod::lemma_fundamental_div_mod;
use vstd::multiset::Multiset;

use crate::listing::{market_view_of, market_view_of_exec, page_of};
use crate::state::{course_wf, sum_critics, wf, Contract};
use crate::types::{courses_view, market_views_view, CoursesObject, CourseV, MarketView};

verus! {

/// A course that enters the top-rated listing: its rating is positive
/// (which under the state invariant forces at least one review).
pub open spec fn rated(c: CourseV) -> bool {
    c.rating_sum > 0
}

/// Both rating numerator and review count are positive, as the comparator
/// needs.
pub open spec fn comparable(c: CourseV) -> bool {
    c.rating_sum >= 1 && c.reviews.len() >= 1
}

/// The mean rating of `a` is at least that of `b`, as exact rationals:
/// `a.rating_sum / |a.reviews| >= b.rating_sum / |b.reviews|` by cross
/// multiplication.
pub open spec fn rating_ge(a: CourseV, b: CourseV) -> bool {
    a.rating_sum * b.reviews.len() >= b.rating_sum * a.reviews.len()
}

/// Inserts `x` into the descending-sorted `s` after every element whose
/// rating is at least that of `x`: a later element never overtakes an
/// earlier one of equal rating.
pub open spec fn insert_desc(s: Seq<CourseV>, x: CourseV) -> Seq<CourseV>
    decreases s.len(),
{
    if s.len() == 0 {
        seq![x]
    } else if rating_ge(s[0], x) {
        seq![s[0]] + insert_desc(s.drop_first(), x)
    } else {
        seq![x] + s
    }
}

/// The stable descending sort by rating: elements are inserted in input
/// order, each after all elements that rate at least as high.
pub open spec fn stable_sort_desc(s: Seq<CourseV>) -> Seq<CourseV>
    decreases s.len(),
{
    if s.len() == 0 {
        Seq::<CourseV>::empty()
    } else {
        insert_desc(stable_sort_desc(s.drop_last()), s.last())
    }
}

/// The top-rated listing: the positively rated courses, stably sorted by
/// descending mean rating, cut to `lim` entries.
pub open spec fn top_rated_spec(cs: Seq<CourseV>, lim: int) -> Seq<CourseV> {
    page_of(stable_sort_desc(cs.filter(|c: CourseV| rated(c))), 0, lim)
}

/// Exact comparison of two fractions by quotient and remainder: with
/// `a == b*qa + ra`, `0 <= ra < b`, `c == d*qb + rb`, `0 <= rb < d`,
/// `a/b >= c/d` (as rationals, that is `a*d >= c*b`) holds exactly when
/// the quotients or else the cross-multiplied remainders say so.
pub proof fn lemma_frac_compare(a: int, b: int, c: int, d: int, qa: int, ra: int, qb: int, rb: int)
    requires
        b >= 1,
        d >= 1,
        a == b * qa + ra,
        0 <= ra < b,
        c == d * qb + rb,
        0 <= rb < d,
    ensures
        (a * d >= c * b) <==> (qa > qb || (qa == qb && ra * d >= rb * b)),
{
    assert((a * d >= c * b) <==> (qa > qb || (qa == qb && ra * d >= rb * b))) by (nonlinear_arith)
        requires
            b >= 1,
            d >= 1,
            a == b * qa + ra,
            0 <= ra < b,
            c == d * qb + rb,
            0 <= rb < d,
    ;
}

/// Decides `rating_ge` for two courses with positive numerator and count,
/// without overflow: quotients first, then cross-multiplied remainders,
/// which fit in `u128` because each factor is below two to the sixty-four.
pub fn rating_at_least(a_sum: i128, a_cnt: usize, b_sum: i128, b_cnt: usize) -> (r: bool)
    requires
        a_sum >= 1,
        b_sum >= 1,
        a_cnt >= 1,
        b_cnt >= 1,
    ensures
        r == ((a_sum as int) * (b_cnt as int) >= (b_sum as int) * (a_cnt as int)),
{
    let qa: u128 = (a_sum as u128) / (a_cnt as u128);
    let ra: u128 = (a_sum as u128) % (a_cnt as u128);
    let qb: u128 = (b_sum as u128) / (b_cnt as u128);
    let rb: u128 = (b_sum as u128) % (b_cnt as u128);
    proof {
        lemma_fundamental_div_mod(a_sum as int, a_cnt as int);
        lemma_fundamental_div_mod(b_sum as int, b_cnt as int);
        lemma_frac_compare(
            a_sum as int,
            a_cnt as int,
            b_sum as int,
            b_cnt as int,
            qa as int,
            ra as int,
            qb as int,
            rb as int,
        );
        assert((ra as int) * (b_cnt as int) < 0x100000000000000000000000000000000int)
            by (nonlinear_arith)
            requires
                0 <= (ra as int) < 0x10000000000000000int,
                0 <= (b_cnt as int) < 0x10000000000000000int,
        ;
        assert((rb as int) * (a_cnt as int) < 0x100000000000000000000000000000000int)
            by (nonlinear_arith)
            requires
                0 <= (rb as int) < 0x10000000000000000int,
                0 <= (a_cnt as int) < 0x10000000000000000int,
        ;
    }
    if qa != qb {
        return qa > qb;
    }
    let left: u128 = ra * (b_cnt as u128);
    let right: u128 = rb * (a_cnt as u128);
    left >= right
}

/// Inserting at the first position whose element rates below `x` is what
/// `insert_desc` computes.
pub proof fn lemma_insert_desc_at(s: Seq<CourseV>, x: CourseV, j: int)
    requires
        0 <= j <= s.len(),
        forall|t: int| 0 <= t < j ==> rating_ge(#[trigger] s[t], x),
        j < s.len() ==> !rating_ge(s[j], x),
    ensures
        insert_desc(s, x) == s.subrange(0, j) + seq![x] + s.subrange(j, s.len() as int),
    decreases s.len(),
{
    if s.len() == 0 {
        assert(insert_desc(s, x) =~= s.subrange(0, j) + seq![x] + s.subrange(j, s.len() as int));
    } else if j == 0 {
        assert(!rating_ge(s[0], x));
        assert(insert_desc(s, x) == seq![x] + s);
        assert(insert_desc(s, x) =~= s.subrange(0, 0) + seq![x] + s.subrange(0, s.len() as int));
    } else {
        assert(rating_ge(s[0], x));
        let rest = s.drop_first();
        assert(forall|t: int| 0 <= t < j - 1 ==> rating_ge(#[trigger] rest[t], x)) by {
            assert(forall|t: int| 0 <= t < j - 1 ==> rest[t] == s[t + 1]);
        }
        assert(j - 1 < rest.len() ==> !rating_ge(rest[j - 1], x));
        lemma_insert_desc_at(rest, x, j - 1);
        assert(insert_desc(s, x) == seq![s[0]] + insert_desc(rest, x));
        assert(insert_desc(s, x) =~= s.subrange(0, j) + seq![x] + s.subrange(j, s.len() as int));
    }
}

/// Descending order by rating: every earlier element rates at least as
/// high as every later one.
pub open spec fn sorted_desc(s: Seq<CourseV>) -> bool {
    forall|i: int, j: int| 0 <= i <= j < s.len() ==> rating_ge(#[trigger] s[i], #[trigger] s[j])
}

/// Every element has a positive rating numerator and review count.
pub open spec fn all_comparable(s: Seq<CourseV>) -> bool {
    forall|i: int| 0 <= i < s.len() ==> comparable(#[trigger] s[i])
}

/// The rating order is transitive on comparable courses.
pub proof fn lemma_rating_ge_trans(a: CourseV, b: CourseV, c: CourseV)
    requires
        comparable(a),
        comparable(b),
        comparable(c),
        rating_ge(a, b),
        rating_ge(b, c),
    ensures
        rating_ge(a, c),
{
    let al = a.reviews.len() as int;
    let bl = b.reviews.len() as int;
    let cl = c.reviews.len() as int;
    assert(a.rating_sum * cl >= c.rating_sum * al) by (nonlinear_arith)
        requires
            a.rating_sum * bl >= b.rating_sum * al,
            b.rating_sum * cl >= c.rating_sum * bl,
            al >= 1,
            bl >= 1,
            cl >= 1,
    ;
}

/// Inserting a comparable course into a sorted comparable sequence keeps
/// it sorted and adds exactly that course.
pub proof fn lemma_insert_desc_sorted(s: Seq<CourseV>, x: CourseV)
    requires
        sorted_desc(s),
        all_comparable(s),
        comparable(x),
    ensures
        sorted_desc(insert_desc(s, x)),
        all_comparable(insert_desc(s, x)),
        insert_desc(s, x).to_multiset() == s.to_multiset().insert(x),
    decreases s.len(),
{
    broadcast use vstd::seq_lib::group_to_multiset_ensures;

    if s.len() == 0 {
        assert(insert_desc(s, x) =~= seq![x]);
        assert(seq![x] =~= Seq::<CourseV>::empty().push(x));
        assert(s.to_multiset() == Multiset::<CourseV>::empty());
        assert(insert_desc(s, x).to_multiset() =~= s.to_multiset().insert(x));
    } else if rating_ge(s[0], x) {
        let rest = s.drop_first();
        assert(forall|t: int| 0 <= t < rest.len() ==> rest[t] == s[t + 1]);
        lemma_insert_desc_sorted(rest, x);
        let inner = insert_desc(rest, x);
        let out = insert_desc(s, x);
        assert(out == seq![s[0]] + inner);
        assert(out[0] == s[0]);
        assert(forall|t: int| 0 <= t < inner.len() ==> out[t + 1] == inner[t]);
        // the head rates at least as high as everything inserted after it
        assert forall|i: int, j: int| 0 <= i <= j < out.len() implies rating_ge(
            out[i],
            out[j],
        ) by {
            if i == 0 {
                if j > 0 {
                    let e = inner[j - 1];
                    assert(inner.to_multiset().contains(e));
                    assert(rest.to_multiset().insert(x).contains(e));
                    if e == x {
                        assert(rating_ge(s[0], x));
                    } else {
                        assert(rest.to_multiset().contains(e));
                        let w = choose|w: int| 0 <= w < rest.len() && rest[w] == e;
                        assert(s[w + 1] == e);
                        assert(rating_ge(s[0], e));
                    }
                }
            } else {
                assert(rating_ge(inner[i - 1], inner[j - 1]));
            }
        }
        assert forall|t: int| 0 <= t < out.len() implies comparable(#[trigger] out[t]) by {
            if t == 0 {
                assert(out[t] == s[0]);
            } else {
                assert(out[t] == inner[t - 1]);
            }
        }
        // multisets: head plus the inner insertion
        assert(out =~= inner.insert(0, s[0]));
        assert(out.to_multiset() == inner.to_multiset().insert(s[0]));
        assert(s =~= rest.insert(0, s[0]));
        assert(s.to_multiset() == rest.to_multiset().insert(s[0]));
        assert(out.to_multiset() =~= s.to_multiset().insert(x));
    } else {
        let out = insert_desc(s, x);
        assert(out == seq![x] + s);
        assert(out[0] == x);
        assert(forall|t: int| 0 <= t < s.len() ==> out[t + 1] == s[t]);
        // x rates strictly above the head, so above the whole sequence
        assert(rating_ge(x, s[0]));
        assert forall|i: int, j: int| 0 <= i <= j < out.len() implies rating_ge(
            out[i],
            out[j],
        ) by {
            if i == 0 {
                if j > 0 {
                    assert(rating_ge(s[0], s[j - 1]));
                    lemma_rating_ge_trans(x, s[0], s[j - 1]);
                }
            } else {
                assert(rating_ge(s[i - 1], s[j - 1]));
            }
        }
        assert forall|t: int| 0 <= t < out.len() implies comparable(#[trigger] out[t]) by {
            if t > 0 {
                assert(out[t] == s[t - 1]);
            }
        }
        assert(out =~= s.insert(0, x));
        assert(out.to_multiset() == s.to_multiset().insert(x));
    }
}

/// Law: the stable sort behind the top-rated listing is a sort — its
/// result is in descending rating order and holds exactly the input
/// courses; ties cannot be reordered because each course is inserted after
/// every course that rates at least as high.
pub proof fn law_top_rated_sorted(s: Seq<CourseV>)
    requires
        all_comparable(s),
    ensures
        sorted_desc(stable_sort_desc(s)),
        all_comparable(stable_sort_desc(s)),
        stable_sort_desc(s).to_multiset() == s.to_multiset(),
    decreases s.len(),
{
    broadcast use vstd::seq_lib::group_to_multiset_ensures;

    if s.len() == 0 {
        assert(stable_sort_desc(s) =~= Seq::<CourseV>::empty());
    } else {
        let head = s.drop_last();
        assert(forall|t: int| 0 <= t < head.len() ==> head[t] == s[t]);
        law_top_rated_sorted(head);
        lemma_insert_desc_sorted(stable_sort_desc(head), s.last());
        assert(s =~= head.push(s.last()));
        assert(s.to_multiset() == head.to_multiset().insert(s.last()));
    }
}

impl Contract {
    /// Returns the positively rated courses as market projections, sorted
    /// by descending exact mean rating with ties in catalog order, cut to
    /// `top` entries (twelve when absent, everything when negative).
    #[verifier::loop_isolation(false)]
    pub fn get_courses_rating(&self, top: Option<i32>) -> (res: Vec<MarketView>)
        requires
            wf(self@),
        ensures
            ({
                let lim = match top {
                    Some(t) => if t < 0 {
                        usize::MAX as int
                    } else {
                        t as int
                    },
                    None => 12,
                };
                market_views_view(res@) == top_rated_spec(self@.courses, lim).map_values(
                    |c: CourseV| market_view_of(c),
                )
            }),
    {
        let ghost cs = self@.courses;
        let ghost pred = |c: CourseV| rated(c);
        // collect the positively rated courses in catalog order
        let mut filtered: Vec<CoursesObject> = Vec::new();
        let mut i: usize = 0;
        while i < self.courses.len()
            invariant
                0 <= i <= self.courses.len(),
                courses_view(filtered@) =~= cs.take(i as int).filter(pred),
                forall|t: int|
                    0 <= t < filtered@.len() ==> comparable(#[trigger] courses_view(filtered@)[t]),
            decreases self.courses.len() - i,
        {
            proof {
                reveal(Seq::filter);
                assert(cs.take(i + 1).drop_last() =~= cs.take(i as int));
                assert(cs.take(i + 1).last() == cs[i as int]);
            }
            if self.courses[i].rating_sum > 0 {
                proof {
                    assert(pred(cs[i as int]));
                    assert(course_wf(cs[i as int]));
                    if cs[i as int].reviews.len() == 0 {
                        assert(sum_critics(cs[i as int].reviews) == 0);
                    }
                    assert(comparable(cs[i as int]));
                }
                let item = self.courses[i].clone();
                filtered.push(item);
                proof {
                    assert(courses_view(filtered@) =~= cs.take(i + 1).filter(pred));
                }
            } else {
                assert(!pred(cs[i as int]));
                proof {
                    assert(courses_view(filtered@) =~= cs.take(i + 1).filter(pred));
                }
            }
            i += 1;
        }
        proof {
            assert(cs.take(cs.len() as int) =~= cs);
        }
        let ghost fv = courses_view(filtered@);
        // stable insertion sort, descending by exact mean rating
        let mut sorted: Vec<CoursesObject> = Vec::new();
        let mut i: usize = 0;
        while i < filtered.len()
            invariant
                0 <= i <= filtered@.len(),
                fv == courses_view(filtered@),
                courses_view(sorted@) == stable_sort_desc(fv.take(i as int)),
                forall|t: int|
                    0 <= t < sorted@.len() ==> comparable(#[trigger] courses_view(sorted@)[t]),
            decreases filtered@.len() - i,
        {
            let x = filtered[i].clone();
            let ghost xv = fv[i as int];
            assert(x@ == xv);
            let ghost sv = courses_view(sorted@);
            let mut j: usize = 0;
            let mut scanning = true;
            while scanning && j < sorted.len()
                invariant
                    0 <= j <= sorted@.len(),
                    sv == courses_view(sorted@),
                    x@ == xv,
                    comparable(xv),
                    forall|t: int| 0 <= t < j ==> rating_ge(#[trigger] sv[t], xv),
                    !scanning ==> j < sorted@.len() && !rating_ge(sv[j as int], xv),
                decreases sorted@.len() - j + (if scanning { 1int } else { 0int }),
            {
                proof {
                    assert(sv[j as int] == sorted@[j as int]@);
                    assert(comparable(sv[j as int]));
                }
                let keep = rating_at_least(
                    sorted[j].rating_sum,
                    sorted[j].reviews.len(),
                    x.rating_sum,
                    x.reviews.len(),
                );
                if keep {
                    assert(rating_ge(sv[j as int], xv));
                    j += 1;
                } else {
                    assert(!rating_ge(sv[j as int], xv));
                    scanning = false;
                }
            }
            sorted.insert(j, x);
            proof {
                lemma_insert_desc_at(sv, xv, j as int);
                assert(courses_view(sorted@) =~= sv.subrange(0, j as int) + seq![xv] + sv.subrange(
                    j as int,
                    sv.len() as int,
                ));
                assert(courses_view(sorted@) == insert_desc(sv, xv));
                assert(fv.take(i + 1).drop_last() =~= fv.take(i as int));
                assert(fv.take(i + 1).last() == fv[i as int]);
                assert(stable_sort_desc(fv.take(i + 1)) == insert_desc(sv, xv));
            }
            i += 1;
        }
        proof {
            assert(fv.take(fv.len() as int) =~= fv);
        }
        let ghost sortedv = courses_view(sorted@);
        // cut to the requested number of entries and project
        let top_limit: i32 = match top {
            Some(t) => t,
            None => 12,
        };
        let lim: usize = if top_limit < 0 {
            usize::MAX
        } else {
            top_limit as usize
        };
        let ghost glim = if top_limit < 0 {
            usize::MAX as int
        } else {
            top_limit as int
        };
        let ghost target = page_of(sortedv, 0, glim).map_values(|c: CourseV| market_view_of(c));
        let mut res: Vec<MarketView> = Vec::new();
        let mut t: usize = 0;
        while t < sorted.len() && t < lim
            invariant
                0 <= t <= sorted@.len(),
                t as int <= glim,
                sortedv == courses_view(sorted@),
                market_views_view(res@) =~= target.take(t as int),
            decreases sorted@.len() - t,
        {
            let item = market_view_of_exec(&sorted[t]);
            res.push(item);
            proof {
                assert(target[t as int] == market_view_of(sortedv[t as int]));
                assert(market_views_view(res@) =~= target.take(t + 1));
            }
            t += 1;
        }
        proof {
            if t >= sorted@.len() {
                assert(target.len() == sortedv.len());
            } else {
                assert(t as int == glim);
                assert(target.len() == glim);
            }
            assert(market_views_view(res@) =~= target.take(target.len() as int));
            assert(target.take(target.len() as int) =~= target);
        }
        res
    }
}

} // verus!
