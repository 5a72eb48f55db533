use course_market::state::Contract;
use course_market::types::CategoriesJson;
use course_market::ContractError;

fn fresh() -> Contract {
    Contract::new("owner.testnet".to_string(), "vault.testnet".to_string())
}

fn publish(c: &mut Contract, creator: &str) -> i128 {
    let course = c.publish_course(
        creator.to_string(),
        "a course".to_string(),
        CategoriesJson {
            id: 1,
            name: "cat".to_string(),
            img: "cat.png".to_string(),
        },
        "short".to_string(),
        "long".to_string(),
        "img.png".to_string(),
        Vec::new(),
        100,
        50,
    );
    course.id
}

#[test]
fn review_appends_and_recomputes_rating() {
    let mut c = fresh();
    let id = publish(&mut c, "alice.testnet");
    let r1 = c
        .set_review(&"u1.testnet".to_string(), id, "good".to_string(), 4)
        .unwrap();
    assert_eq!(r1.user_id, "u1.testnet");
    assert_eq!(r1.review, "good");
    assert_eq!(r1.critics, 4);
    // one review of four: rating 4/1
    assert_eq!(c.courses[0].rating_sum, 4);
    assert_eq!(c.courses[0].reviews.len(), 1);
    c.set_review(&"u2.testnet".to_string(), id, "great".to_string(), 5)
        .unwrap();
    // two reviews, four and five: rating 9/2 = 4.5
    assert_eq!(c.courses[0].rating_sum, 9);
    assert_eq!(c.courses[0].reviews.len(), 2);
}

#[test]
fn review_overwrite_keeps_slot_and_recomputes() {
    let mut c = fresh();
    let id = publish(&mut c, "alice.testnet");
    c.set_review(&"u1.testnet".to_string(), id, "good".to_string(), 4)
        .unwrap();
    c.set_review(&"u2.testnet".to_string(), id, "great".to_string(), 5)
        .unwrap();
    c.set_review(&"u1.testnet".to_string(), id, "changed my mind".to_string(), 1)
        .unwrap();
    // the overwritten review keeps the first slot, the rating is recomputed
    // from scratch over the whole set
    assert_eq!(c.courses[0].reviews.len(), 2);
    assert_eq!(c.courses[0].reviews[0].user_id, "u1.testnet");
    assert_eq!(c.courses[0].reviews[0].review, "changed my mind");
    assert_eq!(c.courses[0].reviews[0].critics, 1);
    assert_eq!(c.courses[0].reviews[1].user_id, "u2.testnet");
    assert_eq!(c.courses[0].rating_sum, 6);
}

#[test]
fn review_accepts_negative_critics() {
    let mut c = fresh();
    let id = publish(&mut c, "alice.testnet");
    c.set_review(&"u1.testnet".to_string(), id, "bad".to_string(), -5)
        .unwrap();
    assert_eq!(c.courses[0].rating_sum, -5);
}

#[test]
fn review_of_missing_course_not_found() {
    let mut c = fresh();
    let r = c.set_review(&"u1.testnet".to_string(), 42, "x".to_string(), 3);
    assert!(matches!(r, Err(ContractError::NotFound)));
}

#[test]
fn get_review_filters_by_identity() {
    let mut c = fresh();
    let id = publish(&mut c, "alice.testnet");
    c.set_review(&"u1.testnet".to_string(), id, "good".to_string(), 4)
        .unwrap();
    c.set_review(&"u2.testnet".to_string(), id, "great".to_string(), 5)
        .unwrap();
    let mine = c.get_review(id, &"u2.testnet".to_string()).unwrap();
    assert_eq!(mine.len(), 1);
    assert_eq!(mine[0].review, "great");
    let nothing = c.get_review(id, &"u3.testnet".to_string()).unwrap();
    assert_eq!(nothing.len(), 0);
    let missing = c.get_review(42, &"u1.testnet".to_string());
    assert!(matches!(missing, Err(ContractError::NotFound)));
}

#[test]
fn top_rated_orders_by_exact_mean_and_excludes_unrated() {
    let mut c = fresh();
    let a = publish(&mut c, "alice.testnet");
    let b = publish(&mut c, "bob.testnet");
    let d = publish(&mut c, "carol.testnet");
    // course a: one review of three, mean 3.0
    c.set_review(&"u1.testnet".to_string(), a, "ok".to_string(), 3)
        .unwrap();
    // course b: no reviews, rating zero, excluded
    // course d: reviews of four and five, mean 4.5
    c.set_review(&"u1.testnet".to_string(), d, "good".to_string(), 4)
        .unwrap();
    c.set_review(&"u2.testnet".to_string(), d, "great".to_string(), 5)
        .unwrap();
    let top = c.get_courses_rating(Some(2));
    assert_eq!(top.len(), 2);
    assert_eq!(top[0].id, d);
    assert_eq!(top[1].id, a);
    assert!(top.iter().all(|m| m.id != b));
}

#[test]
fn top_rated_breaks_ties_in_catalog_order() {
    let mut c = fresh();
    let a = publish(&mut c, "alice.testnet");
    let b = publish(&mut c, "bob.testnet");
    // both courses end at mean two: 2/1 and 4/2
    c.set_review(&"u1.testnet".to_string(), a, "two".to_string(), 2)
        .unwrap();
    c.set_review(&"u1.testnet".to_string(), b, "one".to_string(), 1)
        .unwrap();
    c.set_review(&"u2.testnet".to_string(), b, "three".to_string(), 3)
        .unwrap();
    let top = c.get_courses_rating(None);
    assert_eq!(top.len(), 2);
    assert_eq!(top[0].id, a);
    assert_eq!(top[1].id, b);
}

#[test]
fn top_rated_default_and_negative_limits() {
    let mut c = fresh();
    for i in 0..15 {
        let id = publish(&mut c, &format!("creator{}.testnet", i));
        c.set_review(&"u1.testnet".to_string(), id, "fine".to_string(), (i % 5) as i8 + 1)
            .unwrap();
    }
    // the default cut is twelve entries
    let top = c.get_courses_rating(None);
    assert_eq!(top.len(), 12);
    // a negative limit returns every rated course
    let all = c.get_courses_rating(Some(-1));
    assert_eq!(all.len(), 15);
    // an explicit limit cuts exactly
    let three = c.get_courses_rating(Some(3));
    assert_eq!(three.len(), 3);
    // the highest means come first: three courses rated five
    assert_eq!(three[0].rating_sum, 5);
}

#[test]
fn top_rated_mean_not_sum_decides() {
    let mut c = fresh();
    let a = publish(&mut c, "alice.testnet");
    let b = publish(&mut c, "bob.testnet");
    // course a: sum six over two reviews, mean three
    c.set_review(&"u1.testnet".to_string(), a, "x".to_string(), 3)
        .unwrap();
    c.set_review(&"u2.testnet".to_string(), a, "y".to_string(), 3)
        .unwrap();
    // course b: sum four over one review, mean four: smaller sum, higher mean
    c.set_review(&"u1.testnet".to_string(), b, "z".to_string(), 4)
        .unwrap();
    let top = c.get_courses_rating(None);
    assert_eq!(top[0].id, b);
    assert_eq!(top[1].id, a);
}
