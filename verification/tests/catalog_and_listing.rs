use course_market::state::Contract;
use course_market::types::{CategoriesJson, TemplateObject};
use course_market::ContractError;

fn fresh() -> Contract {
    Contract::new("owner.testnet".to_string(), "vault.testnet".to_string())
}

fn cat(id: i128) -> CategoriesJson {
    CategoriesJson {
        id,
        name: format!("category {}", id),
        img: "cat.png".to_string(),
    }
}

fn lesson(title: &str) -> TemplateObject {
    TemplateObject {
        title: title.to_string(),
        description: "a lesson".to_string(),
        content: "the full body".to_string(),
        tipo: 1,
    }
}

fn publish(c: &mut Contract, creator: &str, category: i128, price: u128) -> i128 {
    let course = c.publish_course(
        creator.to_string(),
        format!("course by {}", creator),
        cat(category),
        "short".to_string(),
        "long".to_string(),
        "img.png".to_string(),
        vec![lesson("intro"), lesson("outro")],
        price,
        price / 2,
    );
    course.id
}

#[test]
fn publish_assigns_increasing_ids() {
    let mut c = fresh();
    let a = publish(&mut c, "alice.testnet", 1, 100);
    let b = publish(&mut c, "bob.testnet", 1, 200);
    assert_eq!(a, 1);
    assert_eq!(b, 2);
    assert_eq!(c.id_courses, 2);
    assert_eq!(c.courses[0].creator_id, "alice.testnet");
    assert_eq!(c.courses[0].inscriptions.len(), 0);
    assert_eq!(c.courses[0].rating_sum, 0);
    assert_eq!(c.courses[0].reviews.len(), 0);
    assert_eq!(c.courses[0].content.len(), 2);
}

#[test]
fn put_course_updates_only_mutable_fields() {
    let mut c = fresh();
    let id = publish(&mut c, "alice.testnet", 1, 100);
    let updated = c
        .put_course(
            &"alice.testnet".to_string(),
            id,
            "new title".to_string(),
            cat(7),
            "new short".to_string(),
            "new long".to_string(),
            "new.png".to_string(),
            250,
            99,
        )
        .unwrap();
    assert_eq!(updated.title, "new title");
    assert_eq!(updated.price, 250);
    assert_eq!(updated.price_certification, 99);
    assert_eq!(updated.categories.id, 7);
    // immutable after publish
    assert_eq!(updated.id, id);
    assert_eq!(updated.creator_id, "alice.testnet");
    assert_eq!(updated.content.len(), 2);
    assert_eq!(updated.content[0].title, "intro");
    let denied = c.put_course(
        &"mallory.testnet".to_string(),
        id,
        "t".to_string(),
        cat(1),
        "s".to_string(),
        "l".to_string(),
        "i".to_string(),
        1,
        1,
    );
    assert!(matches!(denied, Err(ContractError::PermissionDenied)));
    let missing = c.put_course(
        &"alice.testnet".to_string(),
        42,
        "t".to_string(),
        cat(1),
        "s".to_string(),
        "l".to_string(),
        "i".to_string(),
        1,
        1,
    );
    assert!(matches!(missing, Err(ContractError::NotFound)));
}

#[test]
fn delete_course_when_no_enrollments() {
    let mut c = fresh();
    let a = publish(&mut c, "alice.testnet", 1, 100);
    publish(&mut c, "alice.testnet", 1, 100);
    assert_eq!(
        c.delete_course(&"mallory.testnet".to_string(), a),
        Err(ContractError::PermissionDenied)
    );
    assert_eq!(c.delete_course(&"alice.testnet".to_string(), a), Ok(()));
    assert_eq!(c.courses.len(), 1);
    // the deleted course is no longer retrievable through the market
    let left = c
        .get_market_courses(Some(a), None, None, None, Some(10))
        .unwrap();
    assert_eq!(left.len(), 0);
    assert_eq!(
        c.delete_course(&"alice.testnet".to_string(), a),
        Err(ContractError::NotFound)
    );
}

#[test]
fn delete_course_with_enrollments_conflicts() {
    let mut c = fresh();
    let id = publish(&mut c, "alice.testnet", 1, 100);
    c.course_buy(
        &"buyer.testnet".to_string(),
        &"buyer.testnet".to_string(),
        id,
        100,
        0,
        10_000_000_000_000_000_000,
    )
    .unwrap();
    assert_eq!(
        c.delete_course(&"alice.testnet".to_string(), id),
        Err(ContractError::Conflict)
    );
    assert_eq!(c.courses.len(), 1);
}

#[test]
fn course_size_counts_by_filters() {
    let mut c = fresh();
    publish(&mut c, "alice.testnet", 1, 100);
    publish(&mut c, "alice.testnet", 2, 100);
    publish(&mut c, "bob.testnet", 1, 100);
    assert_eq!(c.get_course_size(None, None), 3);
    assert_eq!(c.get_course_size(Some(&"alice.testnet".to_string()), None), 2);
    assert_eq!(c.get_course_size(None, Some(1)), 2);
    assert_eq!(
        c.get_course_size(Some(&"alice.testnet".to_string()), Some(2)),
        1
    );
    assert_eq!(c.get_course_size(Some(&"eve.testnet".to_string()), None), 0);
}

#[test]
fn market_pagination_first_page() {
    let mut c = fresh();
    publish(&mut c, "alice.testnet", 1, 100);
    publish(&mut c, "bob.testnet", 1, 100);
    publish(&mut c, "carol.testnet", 1, 100);
    // offset 0, limit 2: exactly two entries, in catalog order
    let page = c
        .get_market_courses(None, None, None, Some(0), Some(2))
        .unwrap();
    assert_eq!(page.len(), 2);
    assert_eq!(page[0].id, 1);
    assert_eq!(page[1].id, 2);
    // the same call twice returns the identical page
    let again = c
        .get_market_courses(None, None, None, Some(0), Some(2))
        .unwrap();
    assert_eq!(again.len(), 2);
    assert_eq!(again[0].id, page[0].id);
    assert_eq!(again[1].id, page[1].id);
    // a limit above the total returns everything
    let all = c
        .get_market_courses(None, None, None, None, Some(10))
        .unwrap();
    assert_eq!(all.len(), 3);
}

#[test]
fn market_pagination_rejects_bad_arguments() {
    let mut c = fresh();
    publish(&mut c, "alice.testnet", 1, 100);
    let past_end = c.get_market_courses(None, None, None, Some(1), Some(10));
    assert!(matches!(past_end, Err(ContractError::InvalidArgument)));
    let zero_limit = c.get_market_courses(None, None, None, Some(0), Some(0));
    assert!(matches!(zero_limit, Err(ContractError::InvalidArgument)));
}

#[test]
fn market_filters_conjunctively() {
    let mut c = fresh();
    publish(&mut c, "alice.testnet", 1, 100);
    publish(&mut c, "alice.testnet", 2, 100);
    publish(&mut c, "bob.testnet", 2, 100);
    let alice = c
        .get_market_courses(None, Some(&"alice.testnet".to_string()), None, None, Some(10))
        .unwrap();
    assert_eq!(alice.len(), 2);
    let alice_cat2 = c
        .get_market_courses(
            None,
            Some(&"alice.testnet".to_string()),
            Some(2),
            None,
            Some(10),
        )
        .unwrap();
    assert_eq!(alice_cat2.len(), 1);
    assert_eq!(alice_cat2[0].id, 2);
    let by_id = c
        .get_market_courses(Some(3), None, None, None, Some(10))
        .unwrap();
    assert_eq!(by_id.len(), 1);
    assert_eq!(by_id[0].creator_id, "bob.testnet");
}

#[test]
fn market_view_hides_paid_content() {
    let mut c = fresh();
    publish(&mut c, "alice.testnet", 1, 100);
    let page = c
        .get_market_courses(None, None, None, None, Some(10))
        .unwrap();
    assert_eq!(page[0].content.len(), 2);
    assert_eq!(page[0].content[0].title, "intro");
    assert_eq!(page[0].content[0].tipo, 1);
}

#[test]
fn recent_courses_returns_last_in_order() {
    let mut c = fresh();
    publish(&mut c, "alice.testnet", 1, 100);
    publish(&mut c, "bob.testnet", 1, 100);
    publish(&mut c, "carol.testnet", 1, 100);
    let last_two = c.get_recent_courses(2);
    assert_eq!(last_two.len(), 2);
    assert_eq!(last_two[0].id, 2);
    assert_eq!(last_two[1].id, 3);
    let all = c.get_recent_courses(9);
    assert_eq!(all.len(), 3);
}

#[test]
fn instructor_listing_requires_a_user() {
    let mut c = fresh();
    publish(&mut c, "alice.testnet", 1, 100);
    publish(&mut c, "bob.testnet", 1, 100);
    let no_user = c.get_courses_intructor(None);
    assert!(matches!(no_user, Err(ContractError::InvalidArgument)));
    let mine = c
        .get_courses_intructor(Some(&"alice.testnet".to_string()))
        .unwrap();
    assert_eq!(mine.len(), 1);
    assert_eq!(mine[0].creator_id, "alice.testnet");
    // full records, content bodies included
    assert_eq!(mine[0].content[0].content, "the full body");
}

#[test]
fn market_on_empty_catalog_is_out_of_bounds() {
    let c = fresh();
    let r = c.get_market_courses(None, None, None, None, Some(10));
    assert!(matches!(r, Err(ContractError::InvalidArgument)));
}

#[test]
fn market_tail_page_is_short() {
    let mut c = fresh();
    publish(&mut c, "alice.testnet", 1, 100);
    publish(&mut c, "bob.testnet", 1, 100);
    publish(&mut c, "carol.testnet", 1, 100);
    let tail = c
        .get_market_courses(None, None, None, Some(2), Some(10))
        .unwrap();
    assert_eq!(tail.len(), 1);
    assert_eq!(tail[0].id, 3);
}

#[test]
fn recent_courses_zero_is_empty() {
    let mut c = fresh();
    publish(&mut c, "alice.testnet", 1, 100);
    let none = c.get_recent_courses(0);
    assert_eq!(none.len(), 0);
}
