//! The enrollment/payment engine: payment validation, the exact split of
//! every price between creator and vault, the storage-cost refund, and the
//! two paid operations.
//!
//! Nothing here performs a transfer: each successful operation returns the
//! exact list of [`Payout`] instructions, in the order the host must issue
//! them (creator share, vault fee if any, storage refund if any).

use vstd::prelude::*;

use vstd::arithmetic::div_mod::{lemma_div_is_ordered, lemma_div_multiples_vanish,
    lemma_fundamental_div_mod};
use vstd::arithmetic::mul::lemma_mul_inequality;

use crate::state::{
    account_listed, course_at, course_ids_unique, course_index, course_wf, has_course,
    has_profile, lemma_course_at_position, lemma_profile_at_position, lemma_purchase_at_position,
    lemma_wf_course_ids_unique, profile_has_record, profile_index, profile_wf,
    profiles_with_flag, profiles_with_purchase, purchase_backed, purchase_ids_unique,
    purchase_index, wf, Contract, ContractV,
};
use crate::catalog::find_course;
use crate::profiles::{find_profile, find_purchase};
use crate::types::{
    accounts_view, payouts_view, purchases_view, CoursePurchased, CoursePurchasedV, CoursesObject, CourseV,
    Payout, PayoutV, ProfileV,
};
use crate::ContractError;
use crate::PRICE_LIMIT;
use crate::VAULT_FEE;

verus! {

/// The vault's basis-point cut of a price, rounded down.
pub open spec fn vault_fee_of(price: int) -> int {
    price * (VAULT_FEE as int) / 10000
}

/// What the creator keeps of a price: the price minus the vault fee.
pub open spec fn creator_share_of(price: int) -> int {
    price - vault_fee_of(price)
}

/// The cost in currency units of `storage_used` bytes of new storage.
pub open spec fn storage_cost_of(byte_cost: int, storage_used: int) -> int {
    byte_cost * storage_used
}

/// The payouts of a successful paid operation, in order: the creator's
/// share of the price, the vault fee when it is not zero, and the refund of
/// the surplus to the caller when it exceeds one unit of dust.
pub open spec fn buy_payouts(
    creator: Seq<char>,
    price: int,
    vault: Seq<char>,
    refund: int,
    predecessor: Seq<char>,
) -> Seq<PayoutV> {
    let base = seq![PayoutV { to: creator, amount: creator_share_of(price) }];
    let with_vault = if vault_fee_of(price) != 0 {
        base.push(PayoutV { to: vault, amount: vault_fee_of(price) })
    } else {
        base
    };
    if refund > 1 {
        with_vault.push(PayoutV { to: predecessor, amount: refund })
    } else {
        with_vault
    }
}

/// For a price within `PRICE_LIMIT` the fee numerator stays inside `u128`,
/// and the fee itself never exceeds the price.
pub proof fn lemma_fee_bounds(price: int)
    requires
        0 <= price <= PRICE_LIMIT as int,
    ensures
        price * (VAULT_FEE as int) <= u128::MAX as int,
        0 <= vault_fee_of(price) <= price,
{
    let limit = u128::MAX as int / (VAULT_FEE as int);
    lemma_fundamental_div_mod(u128::MAX as int, VAULT_FEE as int);
    lemma_mul_inequality(price, limit, VAULT_FEE as int);
    assert(limit * (VAULT_FEE as int) <= u128::MAX as int) by (nonlinear_arith)
        requires
            u128::MAX as int == (VAULT_FEE as int) * limit + u128::MAX as int % (VAULT_FEE as int),
            0 <= u128::MAX as int % (VAULT_FEE as int),
    ;
    assert(price * (VAULT_FEE as int) <= price * 10000) by (nonlinear_arith)
        requires
            0 <= price,
    ;
    lemma_div_is_ordered(price * (VAULT_FEE as int), price * 10000, 10000);
    assert(price * 10000 == 10000 * price);
    lemma_div_multiples_vanish(price, 10000);
    assert(price * 10000 / 10000 == price);
    assert(vault_fee_of(price) >= 0) by (nonlinear_arith)
        requires
            0 <= price,
    ;
}

/// Checks that the attached value, after the asset price is taken out,
/// covers the cost of the storage the operation consumed, and returns the
/// refund of any surplus above one unit of dust to the caller.
pub fn refund_deposit(
    storage_used: u64,
    extra_spend: u128,
    attached_deposit: u128,
    storage_byte_cost: u128,
    predecessor: &String,
) -> (res: Result<Option<Payout>, ContractError>)
    requires
        extra_spend <= attached_deposit,
        (storage_byte_cost as int) * (storage_used as int) <= u128::MAX as int,
    ensures
        ({
            let cost = storage_cost_of(storage_byte_cost as int, storage_used as int);
            let avail = attached_deposit - extra_spend;
            &&& cost > avail ==> res === Err(ContractError::InsufficientPayment)
            &&& cost <= avail && avail - cost > 1 ==> ({
                &&& res matches Ok(p)
                &&& p matches Some(pay) && pay@ == (PayoutV {
                    to: predecessor@,
                    amount: avail - cost,
                })
            })
            &&& cost <= avail && avail - cost <= 1 ==> ({
                &&& res matches Ok(p) && p is None
            })
        }),
{
    proof {
        assert((storage_byte_cost as int) * (storage_used as int) >= 0) by (nonlinear_arith);
    }
    let required_cost: u128 = storage_byte_cost * (storage_used as u128);
    let available: u128 = attached_deposit - extra_spend;
    if required_cost > available {
        return Err(ContractError::InsufficientPayment);
    }
    let refund: u128 = available - required_cost;
    if refund > 1 {
        Ok(Some(Payout { to: predecessor.clone(), amount: refund }))
    } else {
        Ok(None)
    }
}

impl Contract {
    /// Enrolls the signer in a course against payment.  The attached value
    /// must cover the price and the storage cost; the price is split
    /// exactly between the course creator and the vault, the surplus goes
    /// back to the caller, and the purchase is recorded in the signer's
    /// profile.  Enrolling twice fails with `Conflict`.
    pub fn course_buy(
        &mut self,
        signer: &String,
        predecessor: &String,
        course_id: i128,
        attached_deposit: u128,
        storage_used: u64,
        storage_byte_cost: u128,
    ) -> (res: Result<(CoursesObject, Vec<Payout>), ContractError>)
        requires
            wf(old(self)@),
            (storage_byte_cost as int) * (storage_used as int) <= u128::MAX as int,
        ensures
            wf(final(self)@),
            res is Err ==> final(self)@ == old(self)@,
            !has_course(old(self)@.courses, course_id as int) ==> res === Err(
                ContractError::NotFound,
            ),
            has_course(old(self)@.courses, course_id as int) ==> ({
                let prior = course_at(old(self)@.courses, course_id as int);
                let cost = storage_cost_of(storage_byte_cost as int, storage_used as int);
                &&& prior.inscriptions.contains(signer@) ==> res === Err(ContractError::Conflict)
                &&& !prior.inscriptions.contains(signer@) && attached_deposit < prior.price
                    ==> res === Err(ContractError::InsufficientPayment)
                &&& !prior.inscriptions.contains(signer@) && attached_deposit >= prior.price
                    && cost > attached_deposit - prior.price ==> res === Err(
                    ContractError::InsufficientPayment,
                )
                &&& !prior.inscriptions.contains(signer@) && attached_deposit >= prior.price
                    && cost <= attached_deposit - prior.price ==> ({
                    let updated = CourseV {
                        inscriptions: prior.inscriptions.push(signer@),
                        ..prior
                    };
                    let refund = attached_deposit - prior.price - cost;
                    &&& res matches Ok(pair)
                    &&& pair.0@ == updated
                    &&& payouts_view(pair.1@) == buy_payouts(
                        prior.creator_id,
                        prior.price,
                        old(self)@.vault_id,
                        refund,
                        predecessor@,
                    )
                    &&& final(self)@ == (ContractV {
                        courses: old(self)@.courses.update(
                            course_index(old(self)@.courses, course_id as int),
                            updated,
                        ),
                        profiles: profiles_with_purchase(
                            old(self)@.profiles,
                            signer@,
                            course_id as int,
                        ),
                        ..old(self)@
                    })
                })
            }),
    {
        let ghost prev = old(self)@;
        let found = find_course(&self.courses, course_id);
        let k = match found {
            None => {
                return Err(ContractError::NotFound);
            },
            Some(k) => k,
        };
        proof {
            lemma_wf_course_ids_unique(prev);
            lemma_course_at_position(prev.courses, k as int);
        }
        let ghost prior = prev.courses[k as int];
        if account_listed(&self.courses[k].inscriptions, signer) {
            return Err(ContractError::Conflict);
        }
        let price: u128 = self.courses[k].price;
        if attached_deposit < price {
            return Err(ContractError::InsufficientPayment);
        }
        proof {
            lemma_fee_bounds(price as int);
        }
        let for_vault: u128 = price * VAULT_FEE / 10000u128;
        let price_deducted: u128 = price - for_vault;
        let mut payouts: Vec<Payout> = Vec::new();
        payouts.push(Payout { to: self.courses[k].creator_id.clone(), amount: price_deducted });
        if for_vault != 0 {
            payouts.push(Payout { to: self.vault_id.clone(), amount: for_vault });
        }
        let refunded = refund_deposit(
            storage_used,
            price,
            attached_deposit,
            storage_byte_cost,
            predecessor,
        );
        match refunded {
            Err(e) => {
                return Err(e);
            },
            Ok(Some(pay)) => {
                payouts.push(pay);
            },
            Ok(None) => {},
        }
        proof {
            let refund = attached_deposit - prior.price
                - storage_cost_of(storage_byte_cost as int, storage_used as int);
            assert(payouts_view(payouts@) =~= buy_payouts(
                prior.creator_id,
                prior.price,
                prev.vault_id,
                refund,
                predecessor@,
            ));
        }
        self.courses[k].inscriptions.push(signer.clone());
        let res_course = self.courses[k].clone();
        let ghost updated = CourseV { inscriptions: prior.inscriptions.push(signer@), ..prior };
        let ghost mid = self@;
        proof {
            let gk = k as int;
            assert(accounts_view(self.courses@[gk].inscriptions@)
                =~= prior.inscriptions.push(signer@));
            assert(self@.courses[gk] =~= updated);
            assert(self@.courses =~= prev.courses.update(gk, updated));
            assert(mid =~= (ContractV { courses: prev.courses.update(gk, updated), ..prev }));
            assert(res_course@ == updated);
            // the catalog stays well formed with one more enrollment
            assert(course_wf(updated)) by {
                assert forall|a: int, b: int|
                    0 <= a < b < updated.inscriptions.len() implies updated.inscriptions[a]
                    != updated.inscriptions[b] by {
                    if b + 1 == updated.inscriptions.len() {
                        assert(updated.inscriptions[a] == prior.inscriptions[a]);
                        assert(!prior.inscriptions.contains(signer@));
                    } else {
                        assert(updated.inscriptions[a] == prior.inscriptions[a]);
                        assert(updated.inscriptions[b] == prior.inscriptions[b]);
                    }
                }
            }
            assert forall|a: int, b: int|
                0 <= a < b < mid.courses.len() implies mid.courses[a].id < mid.courses[b].id by {
                assert(mid.courses[a].id == prev.courses[a].id);
                assert(mid.courses[b].id == prev.courses[b].id);
            }
            assert(course_ids_unique(mid.courses)) by {
                assert forall|x: int, y: int|
                    0 <= x < y < mid.courses.len() implies mid.courses[x].id != mid.courses[y].id by {
                    assert(mid.courses[x].id < mid.courses[y].id);
                }
            }
            // every purchase record stays backed: enrollment only grew
            assert forall|p: int|
                0 <= p < mid.profiles.len() implies profile_wf(
                mid.courses,
                #[trigger] mid.profiles[p],
            ) by {
                let prof = prev.profiles[p];
                assert(profile_wf(prev.courses, prof));
                assert forall|r: int|
                    0 <= r < prof.purchased_courses.len() implies purchase_backed(
                    mid.courses,
                    prof.user_id,
                    #[trigger] prof.purchased_courses[r],
                ) by {
                    let rid = prof.purchased_courses[r].course_id;
                    assert(purchase_backed(prev.courses, prof.user_id, prof.purchased_courses[r]));
                    let i0 = course_index(prev.courses, rid);
                    assert(0 <= i0 < prev.courses.len() && prev.courses[i0].id == rid);
                    assert(mid.courses[i0].id == rid);
                    lemma_course_at_position(mid.courses, i0);
                    if i0 == gk {
                        assert(course_at(mid.courses, rid) == updated);
                        assert(prior.inscriptions.contains(prof.user_id));
                        let w = choose|w: int|
                            0 <= w < prior.inscriptions.len() && prior.inscriptions[w]
                                == prof.user_id;
                        assert(updated.inscriptions[w] == prof.user_id);
                        assert(updated.inscriptions.contains(prof.user_id));
                    } else {
                        assert(course_at(mid.courses, rid) == prev.courses[i0]);
                    }
                }
            }
            assert(wf(mid));
            // the signer was not enrolled, so by `wf` no record exists yet
            assert(!profile_has_record(mid.profiles, signer@, course_id as int)) by {
                if profile_has_record(mid.profiles, signer@, course_id as int) {
                    let pk = profile_index(prev.profiles, signer@);
                    let prof = prev.profiles[pk];
                    let recs = prof.purchased_courses;
                    let rk = purchase_index(recs, course_id as int);
                    assert(0 <= rk < recs.len() && recs[rk].course_id == course_id as int);
                    assert(purchase_backed(prev.courses, prof.user_id, recs[rk]));
                    assert(course_at(prev.courses, course_id as int) == prior);
                    assert(prior.inscriptions.contains(signer@));
                }
            }
            assert(has_course(mid.courses, course_id as int)) by {
                assert(mid.courses[gk].id == course_id as int);
            }
            lemma_course_at_position(mid.courses, gk);
            assert(course_at(mid.courses, course_id as int).inscriptions.contains(signer@)) by {
                assert(updated.inscriptions.last() == signer@);
            }
        }
        self.profile_inscription(signer, course_id);
        proof {
            assert(self@ =~= (ContractV {
                courses: prev.courses.update(k as int, updated),
                profiles: profiles_with_purchase(prev.profiles, signer@, course_id as int),
                ..prev
            }));
        }
        Ok((res_course, payouts))
    }

    /// Buys the certification of a course the signer already purchased,
    /// against payment of the certification price, split and refunded as in
    /// [`Contract::course_buy`]; the purchase record's flag is set.  A
    /// missing profile or purchase record fails with `NotFound`.
    pub fn pass_certification_buy(
        &mut self,
        signer: &String,
        predecessor: &String,
        course_id: i128,
        attached_deposit: u128,
        storage_used: u64,
        storage_byte_cost: u128,
    ) -> (res: Result<(CoursePurchased, Vec<Payout>), ContractError>)
        requires
            wf(old(self)@),
            (storage_byte_cost as int) * (storage_used as int) <= u128::MAX as int,
        ensures
            wf(final(self)@),
            res is Err ==> final(self)@ == old(self)@,
            !has_course(old(self)@.courses, course_id as int) ==> res === Err(
                ContractError::NotFound,
            ),
            has_course(old(self)@.courses, course_id as int) && !has_profile(
                old(self)@.profiles,
                signer@,
            ) ==> res === Err(ContractError::NotFound),
            has_course(old(self)@.courses, course_id as int) && has_profile(
                old(self)@.profiles,
                signer@,
            ) ==> ({
                let prior = course_at(old(self)@.courses, course_id as int);
                let cost = storage_cost_of(storage_byte_cost as int, storage_used as int);
                let cert = prior.price_certification;
                &&& attached_deposit < cert ==> res === Err(ContractError::InsufficientPayment)
                &&& attached_deposit >= cert && cost > attached_deposit - cert ==> res === Err(
                    ContractError::InsufficientPayment,
                )
                &&& attached_deposit >= cert && cost <= attached_deposit - cert
                    && !profile_has_record(old(self)@.profiles, signer@, course_id as int)
                    ==> res === Err(ContractError::NotFound)
                &&& attached_deposit >= cert && cost <= attached_deposit - cert
                    && profile_has_record(old(self)@.profiles, signer@, course_id as int) ==> ({
                    let refund = attached_deposit - cert - cost;
                    &&& res matches Ok(pair)
                    &&& pair.0@ == (CoursePurchasedV {
                        course_id: course_id as int,
                        pass_certification: true,
                    })
                    &&& payouts_view(pair.1@) == buy_payouts(
                        prior.creator_id,
                        cert,
                        old(self)@.vault_id,
                        refund,
                        predecessor@,
                    )
                    &&& final(self)@ == (ContractV {
                        profiles: profiles_with_flag(
                            old(self)@.profiles,
                            signer@,
                            course_id as int,
                            true,
                        ),
                        ..old(self)@
                    })
                })
            }),
    {
        let ghost prev = old(self)@;
        let found = find_course(&self.courses, course_id);
        let k = match found {
            None => {
                return Err(ContractError::NotFound);
            },
            Some(k) => k,
        };
        proof {
            lemma_wf_course_ids_unique(prev);
            lemma_course_at_position(prev.courses, k as int);
        }
        let foundp = find_profile(&self.profiles, signer);
        let pk = match foundp {
            None => {
                return Err(ContractError::NotFound);
            },
            Some(pk) => pk,
        };
        proof {
            lemma_profile_at_position(prev.profiles, pk as int);
        }
        let price_certification: u128 = self.courses[k].price_certification;
        if attached_deposit < price_certification {
            return Err(ContractError::InsufficientPayment);
        }
        proof {
            lemma_fee_bounds(price_certification as int);
        }
        let for_vault: u128 = price_certification * VAULT_FEE / 10000u128;
        let price_deducted: u128 = price_certification - for_vault;
        let mut payouts: Vec<Payout> = Vec::new();
        payouts.push(Payout { to: self.courses[k].creator_id.clone(), amount: price_deducted });
        if for_vault != 0 {
            payouts.push(Payout { to: self.vault_id.clone(), amount: for_vault });
        }
        let refunded = refund_deposit(
            storage_used,
            price_certification,
            attached_deposit,
            storage_byte_cost,
            predecessor,
        );
        match refunded {
            Err(e) => {
                return Err(e);
            },
            Ok(Some(pay)) => {
                payouts.push(pay);
            },
            Ok(None) => {},
        }
        let ghost prior = prev.courses[k as int];
        proof {
            let refund = attached_deposit - prior.price_certification
                - storage_cost_of(storage_byte_cost as int, storage_used as int);
            assert(payouts_view(payouts@) =~= buy_payouts(
                prior.creator_id,
                prior.price_certification,
                prev.vault_id,
                refund,
                predecessor@,
            ));
        }
        let foundr = find_purchase(&self.profiles[pk].purchased_courses, course_id);
        let rk = match foundr {
            None => {
                return Err(ContractError::NotFound);
            },
            Some(rk) => rk,
        };
        proof {
            let recs = prev.profiles[pk as int].purchased_courses;
            assert(purchase_ids_unique(recs));
            lemma_purchase_at_position(recs, rk as int);
        }
        self.profiles[pk].purchased_courses[rk].pass_certification = true;
        let item = self.profiles[pk].purchased_courses[rk].clone();
        proof {
            let gk = pk as int;
            let gr = rk as int;
            let oldp = prev.profiles[gk];
            let newrec = CoursePurchasedV { course_id: course_id as int, pass_certification: true };
            let newp = ProfileV {
                user_id: oldp.user_id,
                purchased_courses: oldp.purchased_courses.update(gr, newrec),
            };
            assert(purchases_view(self.profiles@[gk].purchased_courses@)
                =~= oldp.purchased_courses.update(gr, newrec));
            assert(self@.profiles[gk] =~= newp);
            assert(self@.profiles =~= prev.profiles.update(gk, newp));
            assert(profiles_with_flag(prev.profiles, signer@, course_id as int, true)
                == prev.profiles.update(gk, newp));
            assert(self@ =~= (ContractV { profiles: prev.profiles.update(gk, newp), ..prev }));
            assert(item@ == newrec);
            assert forall|p: int|
                0 <= p < self@.profiles.len() implies profile_wf(
                self@.courses,
                #[trigger] self@.profiles[p],
            ) by {
                if p == gk {
                    let recs = newp.purchased_courses;
                    assert forall|a: int, b: int|
                        0 <= a < b < recs.len() implies recs[a].course_id != recs[b].course_id by {
                        assert(recs[a].course_id == oldp.purchased_courses[a].course_id);
                        assert(recs[b].course_id == oldp.purchased_courses[b].course_id);
                    }
                    assert forall|q: int|
                        0 <= q < recs.len() implies purchase_backed(
                        self@.courses,
                        newp.user_id,
                        #[trigger] recs[q],
                    ) by {
                        assert(purchase_backed(prev.courses, oldp.user_id, oldp.purchased_courses[q]));
                        assert(recs[q].course_id == oldp.purchased_courses[q].course_id);
                    }
                } else {
                    assert(self@.profiles[p] == prev.profiles[p]);
                    assert(profile_wf(prev.courses, prev.profiles[p]));
                }
            }
        }
        Ok((item, payouts))
    }
}

} // verus!
