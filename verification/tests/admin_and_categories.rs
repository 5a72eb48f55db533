use course_market::state::Contract;
use course_market::types::CategoriesJson;
use course_market::ContractError;

fn fresh() -> Contract {
    Contract::new("owner.testnet".to_string(), "vault.testnet".to_string())
}

fn admin() -> String {
    "e-learning.testnet".to_string()
}

#[test]
fn seed_administrators() {
    let c = fresh();
    assert_eq!(c.administrators.len(), 2);
    assert_eq!(c.administrators[0], "e-learning.testnet");
    assert_eq!(c.administrators[1], "juanochando.testnet");
    assert_eq!(c.vault_id, "vault.testnet");
    assert_eq!(c.id_courses, 0);
    assert_eq!(c.id_categories, 0);
}

#[test]
fn non_admin_cannot_add_admin() {
    let mut c = fresh();
    let r = c.set_admin(&"rando.testnet".to_string(), "x.testnet".to_string());
    assert_eq!(r, Err(ContractError::PermissionDenied));
    assert_eq!(c.administrators.len(), 2);
}

#[test]
fn adding_present_admin_already_exists() {
    let mut c = fresh();
    let r = c.set_admin(&admin(), "juanochando.testnet".to_string());
    assert_eq!(r, Err(ContractError::AlreadyExists));
    assert_eq!(c.administrators.len(), 2);
}

#[test]
fn add_and_remove_admin() {
    let mut c = fresh();
    assert_eq!(c.set_admin(&admin(), "third.testnet".to_string()), Ok(()));
    assert_eq!(c.administrators.len(), 3);
    assert_eq!(c.administrators[2], "third.testnet");
    assert_eq!(c.delete_admin(&admin(), &"third.testnet".to_string()), Ok(()));
    assert_eq!(c.administrators.len(), 2);
    assert_eq!(
        c.delete_admin(&admin(), &"third.testnet".to_string()),
        Err(ContractError::NotFound)
    );
}

#[test]
fn admin_may_remove_itself() {
    let mut c = fresh();
    assert_eq!(c.delete_admin(&admin(), &admin()), Ok(()));
    assert_eq!(c.administrators.len(), 1);
    assert_eq!(c.administrators[0], "juanochando.testnet");
}

#[test]
fn set_category_assigns_increasing_ids() {
    let mut c = fresh();
    let a = c
        .set_category(&admin(), "Rust".to_string(), "rust.png".to_string())
        .unwrap();
    let b = c
        .set_category(&admin(), "Maths".to_string(), "maths.png".to_string())
        .unwrap();
    assert_eq!(a.id, 1);
    assert_eq!(b.id, 2);
    assert_eq!(c.id_categories, 2);
    let r = c.set_category(
        &"rando.testnet".to_string(),
        "Nope".to_string(),
        "nope.png".to_string(),
    );
    assert!(matches!(r, Err(ContractError::PermissionDenied)));
}

#[test]
fn put_category_replaces_attributes() {
    let mut c = fresh();
    c.set_category(&admin(), "Rust".to_string(), "rust.png".to_string())
        .unwrap();
    let updated = c
        .put_category(&admin(), 1, "Verified Rust".to_string(), "v.png".to_string())
        .unwrap();
    assert_eq!(updated.id, 1);
    assert_eq!(updated.name, "Verified Rust");
    assert_eq!(c.categories[0].name, "Verified Rust");
    assert_eq!(c.categories[0].img, "v.png");
    let missing = c.put_category(&admin(), 9, "X".to_string(), "x".to_string());
    assert!(matches!(missing, Err(ContractError::NotFound)));
}

#[test]
fn get_category_filters_by_id() {
    let mut c = fresh();
    c.set_category(&admin(), "Rust".to_string(), "rust.png".to_string())
        .unwrap();
    c.set_category(&admin(), "Maths".to_string(), "maths.png".to_string())
        .unwrap();
    let all = c.get_category(None);
    assert_eq!(all.len(), 2);
    let one = c.get_category(Some(2));
    assert_eq!(one.len(), 1);
    assert_eq!(one[0].name, "Maths");
    let none: Vec<CategoriesJson> = c.get_category(Some(5));
    assert_eq!(none.len(), 0);
}

#[test]
fn delete_category_removes() {
    let mut c = fresh();
    c.set_category(&admin(), "Rust".to_string(), "rust.png".to_string())
        .unwrap();
    c.set_category(&admin(), "Maths".to_string(), "maths.png".to_string())
        .unwrap();
    assert_eq!(c.delete_category(&admin(), 1), Ok(()));
    assert_eq!(c.categories.len(), 1);
    assert_eq!(c.categories[0].id, 2);
    assert_eq!(c.delete_category(&admin(), 1), Err(ContractError::NotFound));
    assert_eq!(
        c.delete_category(&"rando.testnet".to_string(), 2),
        Err(ContractError::PermissionDenied)
    );
}
