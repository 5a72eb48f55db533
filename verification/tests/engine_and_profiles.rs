use course_market::engine::refund_deposit;
use course_market::state::Contract;
use course_market::types::{CategoriesJson, TemplateObject};
use course_market::ContractError;
use course_market::PRICE_LIMIT;

// NEAR's actual cost of one byte of storage, in the smallest currency unit.
const BYTE_COST: u128 = 10_000_000_000_000_000_000;

fn fresh() -> Contract {
    Contract::new("owner.testnet".to_string(), "vault.testnet".to_string())
}

fn publish(c: &mut Contract, creator: &str, price: u128, cert: u128) -> i128 {
    let course = c.publish_course(
        creator.to_string(),
        "a course".to_string(),
        CategoriesJson {
            id: 1,
            name: "cat".to_string(),
            img: "cat.png".to_string(),
        },
        "short".to_string(),
        "long".to_string(),
        "img.png".to_string(),
        vec![TemplateObject {
            title: "intro".to_string(),
            description: "d".to_string(),
            content: "c".to_string(),
            tipo: 2,
        }],
        price,
        cert,
    );
    course.id
}

#[test]
fn buy_course_splits_payment_and_records_purchase() {
    let mut c = fresh();
    let id = publish(&mut c, "alice.testnet", 100, 50);
    let buyer = "buyer.testnet".to_string();
    // the buyer attaches exactly the price; no storage grows
    let (course, payouts) = c.course_buy(&buyer, &buyer, id, 100, 0, BYTE_COST).unwrap();
    assert_eq!(payouts.len(), 2);
    assert_eq!(payouts[0].to, "alice.testnet");
    assert_eq!(payouts[0].amount, 95);
    assert_eq!(payouts[1].to, "vault.testnet");
    assert_eq!(payouts[1].amount, 5);
    assert_eq!(course.inscriptions.len(), 1);
    assert_eq!(course.inscriptions[0], "buyer.testnet");
    // the purchase shows up in the buyer's profile, not yet certified
    let profiles = c.get_profile(Some(&buyer));
    assert_eq!(profiles.len(), 1);
    assert_eq!(profiles[0].user_id, "buyer.testnet");
    assert_eq!(profiles[0].purchased_courses.len(), 1);
    assert_eq!(profiles[0].purchased_courses[0].course_id, id);
    assert!(!profiles[0].purchased_courses[0].pass_certification);
}

#[test]
fn buy_course_fee_split_is_exact_for_large_price() {
    let mut c = fresh();
    let id = publish(&mut c, "alice.testnet", 1_000_000, 0);
    let buyer = "buyer.testnet".to_string();
    let (_, payouts) = c
        .course_buy(&buyer, &buyer, id, 1_000_000, 0, BYTE_COST)
        .unwrap();
    assert_eq!(payouts[0].amount, 950_000);
    assert_eq!(payouts[1].amount, 50_000);
    assert_eq!(payouts[0].amount + payouts[1].amount, 1_000_000);
}

#[test]
fn buy_course_zero_fee_skips_vault_payout() {
    let mut c = fresh();
    // a price below twenty units rounds the basis-point fee down to zero
    let id = publish(&mut c, "alice.testnet", 19, 0);
    let buyer = "buyer.testnet".to_string();
    let (_, payouts) = c.course_buy(&buyer, &buyer, id, 19, 0, BYTE_COST).unwrap();
    assert_eq!(payouts.len(), 1);
    assert_eq!(payouts[0].to, "alice.testnet");
    assert_eq!(payouts[0].amount, 19);
}

#[test]
fn buy_course_twice_conflicts() {
    let mut c = fresh();
    let id = publish(&mut c, "alice.testnet", 100, 50);
    let buyer = "buyer.testnet".to_string();
    c.course_buy(&buyer, &buyer, id, 100, 0, BYTE_COST).unwrap();
    let second = c.course_buy(&buyer, &buyer, id, 100, 0, BYTE_COST);
    assert!(matches!(second, Err(ContractError::Conflict)));
    // the profile still holds a single record
    let profiles = c.get_profile(Some(&buyer));
    assert_eq!(profiles[0].purchased_courses.len(), 1);
}

#[test]
fn buy_course_failure_modes() {
    let mut c = fresh();
    let id = publish(&mut c, "alice.testnet", 100, 50);
    let buyer = "buyer.testnet".to_string();
    let missing = c.course_buy(&buyer, &buyer, 42, 100, 0, BYTE_COST);
    assert!(matches!(missing, Err(ContractError::NotFound)));
    let underpaid = c.course_buy(&buyer, &buyer, id, 99, 0, BYTE_COST);
    assert!(matches!(underpaid, Err(ContractError::InsufficientPayment)));
    // covers the price but not one byte of storage
    let no_storage = c.course_buy(&buyer, &buyer, id, 100, 1, BYTE_COST);
    assert!(matches!(no_storage, Err(ContractError::InsufficientPayment)));
    // a failed purchase changes nothing
    assert_eq!(c.courses[0].inscriptions.len(), 0);
    assert_eq!(c.get_profile(None).len(), 0);
}

#[test]
fn buy_course_refunds_surplus_above_dust() {
    let mut c = fresh();
    let id = publish(&mut c, "alice.testnet", 100, 0);
    let buyer = "signer.testnet".to_string();
    let origin = "origin.testnet".to_string();
    // 100 for the price, 2 * BYTE_COST for storage, 7 in surplus
    let attached = 100 + 2 * BYTE_COST + 7;
    let (_, payouts) = c.course_buy(&buyer, &origin, id, attached, 2, BYTE_COST).unwrap();
    assert_eq!(payouts.len(), 3);
    assert_eq!(payouts[2].to, "origin.testnet");
    assert_eq!(payouts[2].amount, 7);
}

#[test]
fn buy_course_keeps_dust() {
    let mut c = fresh();
    let id = publish(&mut c, "alice.testnet", 100, 0);
    let buyer = "buyer.testnet".to_string();
    // one unit of surplus is dust and is not refunded
    let (_, payouts) = c.course_buy(&buyer, &buyer, id, 101, 0, BYTE_COST).unwrap();
    assert_eq!(payouts.len(), 2);
}

#[test]
fn refund_deposit_checks_and_refunds() {
    let caller = "caller.testnet".to_string();
    let short = refund_deposit(3, 100, 100 + 2 * BYTE_COST, BYTE_COST, &caller);
    assert!(matches!(short, Err(ContractError::InsufficientPayment)));
    let exact = refund_deposit(2, 100, 100 + 2 * BYTE_COST, BYTE_COST, &caller).unwrap();
    assert!(exact.is_none());
    let dust = refund_deposit(2, 100, 101 + 2 * BYTE_COST, BYTE_COST, &caller).unwrap();
    assert!(dust.is_none());
    let refunded = refund_deposit(2, 100, 102 + 2 * BYTE_COST, BYTE_COST, &caller)
        .unwrap()
        .unwrap();
    assert_eq!(refunded.to, "caller.testnet");
    assert_eq!(refunded.amount, 2);
}

#[test]
fn certification_buy_sets_the_flag() {
    let mut c = fresh();
    let id = publish(&mut c, "alice.testnet", 100, 50);
    let buyer = "buyer.testnet".to_string();
    c.course_buy(&buyer, &buyer, id, 100, 0, BYTE_COST).unwrap();
    let (record, payouts) = c
        .pass_certification_buy(&buyer, &buyer, id, 50, 0, BYTE_COST)
        .unwrap();
    assert_eq!(record.course_id, id);
    assert!(record.pass_certification);
    assert_eq!(payouts.len(), 2);
    assert_eq!(payouts[0].to, "alice.testnet");
    assert_eq!(payouts[0].amount, 48);
    assert_eq!(payouts[1].to, "vault.testnet");
    assert_eq!(payouts[1].amount, 2);
    let stored = c.get_pass_certification(&buyer, id).unwrap();
    assert!(stored.pass_certification);
}

#[test]
fn certification_buy_failure_modes() {
    let mut c = fresh();
    let a = publish(&mut c, "alice.testnet", 100, 50);
    let b = publish(&mut c, "alice.testnet", 100, 50);
    let buyer = "buyer.testnet".to_string();
    // no profile at all
    let no_profile = c.pass_certification_buy(&buyer, &buyer, a, 50, 0, BYTE_COST);
    assert!(matches!(no_profile, Err(ContractError::NotFound)));
    c.course_buy(&buyer, &buyer, a, 100, 0, BYTE_COST).unwrap();
    // a profile exists but holds no record of the other course
    let no_record = c.pass_certification_buy(&buyer, &buyer, b, 50, 0, BYTE_COST);
    assert!(matches!(no_record, Err(ContractError::NotFound)));
    let underpaid = c.pass_certification_buy(&buyer, &buyer, a, 49, 0, BYTE_COST);
    assert!(matches!(underpaid, Err(ContractError::InsufficientPayment)));
    let missing = c.pass_certification_buy(&buyer, &buyer, 42, 50, 0, BYTE_COST);
    assert!(matches!(missing, Err(ContractError::NotFound)));
    // none of the failures certified anything
    let stored = c.get_pass_certification(&buyer, a).unwrap();
    assert!(!stored.pass_certification);
}

#[test]
fn admin_resets_certification() {
    let mut c = fresh();
    let id = publish(&mut c, "alice.testnet", 100, 50);
    let buyer = "buyer.testnet".to_string();
    let admin = "e-learning.testnet".to_string();
    c.course_buy(&buyer, &buyer, id, 100, 0, BYTE_COST).unwrap();
    c.pass_certification_buy(&buyer, &buyer, id, 50, 0, BYTE_COST)
        .unwrap();
    let denied = c.change_pass_certification(&"rando.testnet".to_string(), &buyer, id);
    assert!(matches!(denied, Err(ContractError::PermissionDenied)));
    let reset = c.change_pass_certification(&admin, &buyer, id).unwrap();
    assert!(!reset.pass_certification);
    let stored = c.get_pass_certification(&buyer, id).unwrap();
    assert!(!stored.pass_certification);
    let missing = c.change_pass_certification(&admin, &"nobody.testnet".to_string(), id);
    assert!(matches!(missing, Err(ContractError::NotFound)));
}

#[test]
fn profile_reads_follow_purchases() {
    let mut c = fresh();
    let a = publish(&mut c, "alice.testnet", 100, 50);
    let b = publish(&mut c, "bob.testnet", 200, 50);
    let buyer = "buyer.testnet".to_string();
    c.course_buy(&buyer, &buyer, a, 100, 0, BYTE_COST).unwrap();
    c.course_buy(&buyer, &buyer, b, 200, 0, BYTE_COST).unwrap();
    let purchased = c.get_courses_purchased(&buyer).unwrap();
    assert_eq!(purchased.len(), 2);
    assert_eq!(purchased[0].id, a);
    assert_eq!(purchased[1].id, b);
    let one = c.get_course_id(&buyer, b).unwrap();
    assert_eq!(one.id, b);
    assert_eq!(one.creator_id, "bob.testnet");
    let other = "other.testnet".to_string();
    let no_profile = c.get_courses_purchased(&other);
    assert!(matches!(no_profile, Err(ContractError::NotFound)));
    c.course_buy(&other, &other, a, 100, 0, BYTE_COST).unwrap();
    let not_purchased = c.get_course_id(&other, b);
    assert!(matches!(not_purchased, Err(ContractError::PermissionDenied)));
    let no_pass = c.get_pass_certification(&other, b);
    assert!(matches!(no_pass, Err(ContractError::NotFound)));
    // both profiles are listed, in creation order
    let all = c.get_profile(None);
    assert_eq!(all.len(), 2);
    assert_eq!(all[0].user_id, "buyer.testnet");
    assert_eq!(all[1].user_id, "other.testnet");
}

#[test]
fn buy_course_at_the_price_limit() {
    let mut c = fresh();
    let id = publish(&mut c, "alice.testnet", PRICE_LIMIT, 0);
    let buyer = "buyer.testnet".to_string();
    let (_, payouts) = c
        .course_buy(&buyer, &buyer, id, PRICE_LIMIT, 0, BYTE_COST)
        .unwrap();
    let fee = PRICE_LIMIT * 500 / 10_000;
    assert_eq!(payouts[0].amount, PRICE_LIMIT - fee);
    assert_eq!(payouts[1].amount, fee);
    assert_eq!(payouts[0].amount + payouts[1].amount, PRICE_LIMIT);
}
