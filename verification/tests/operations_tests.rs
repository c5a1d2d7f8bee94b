use rustaceans::auth::BasicAuth;
use rustaceans::credentials::{validate, CredentialRecord, CredentialStore, Identity};
use rustaceans::models::{NewRustacean, Rustacean};
use rustaceans::operations::{execute, Operation, Outcome, LISTING_LIMIT};
use rustaceans::repositories::{RustaceanRepository, StoreError};

fn ada() -> Identity {
    let store = CredentialStore {
        records: vec![CredentialRecord { username: "ada".to_string(), verifier: vec![1] }],
    };
    let claim = BasicAuth { username: "ada".to_string(), password: "secret".to_string() };
    validate(&store, &claim, &[1]).expect("the store bears ada out")
}

fn input(name: &str) -> NewRustacean {
    NewRustacean { name: name.to_string(), email: format!("{}@example.com", name) }
}

fn record(id: i32, name: &str, created_at: &str) -> Rustacean {
    Rustacean {
        id,
        name: name.to_string(),
        email: format!("{}@example.com", name),
        created_at: created_at.to_string(),
    }
}

#[test]
fn listing_limit_is_one_hundred() {
    assert_eq!(LISTING_LIMIT, 100);
}

#[test]
fn each_operation_runs_on_the_repository() {
    let identity = ada();
    let mut repository = RustaceanRepository::new();

    let created = execute(&identity, &mut repository, Operation::Create(input("ada")), "t1".to_string());
    assert!(matches!(created, Outcome::Created(Ok(r)) if r == record(1, "ada", "t1")));
    let created = execute(&identity, &mut repository, Operation::Create(input("grace")), "t2".to_string());
    assert!(matches!(created, Outcome::Created(Ok(r)) if r == record(2, "grace", "t2")));

    let listed = execute(&identity, &mut repository, Operation::List, "t3".to_string());
    assert!(matches!(
        listed,
        Outcome::Listed(Ok(rows)) if rows == vec![record(2, "grace", "t2"), record(1, "ada", "t1")]
    ));

    let viewed = execute(&identity, &mut repository, Operation::View(2), "t4".to_string());
    assert!(matches!(viewed, Outcome::Viewed(Ok(r)) if r == record(2, "grace", "t2")));

    let updated = execute(
        &identity,
        &mut repository,
        Operation::Update(1, record(9, "linus", "t9")),
        "t5".to_string(),
    );
    assert!(matches!(updated, Outcome::Updated(Ok(r)) if r == record(1, "linus", "t1")));

    let deleted = execute(&identity, &mut repository, Operation::Delete(2), "t6".to_string());
    assert!(matches!(deleted, Outcome::Deleted(Ok(()))));
    assert_eq!(repository.find_multiple(10), Ok(vec![record(1, "linus", "t1")]));
}

#[test]
fn each_operation_on_an_absent_id_is_not_found() {
    let identity = ada();
    let mut repository = RustaceanRepository::new();
    let viewed = execute(&identity, &mut repository, Operation::View(999999), "t".to_string());
    assert!(matches!(viewed, Outcome::Viewed(Err(StoreError::NotFound))));
    let updated = execute(
        &identity,
        &mut repository,
        Operation::Update(999999, record(999999, "x", "t")),
        "t".to_string(),
    );
    assert!(matches!(updated, Outcome::Updated(Err(StoreError::NotFound))));
    let deleted = execute(&identity, &mut repository, Operation::Delete(999999), "t".to_string());
    assert!(matches!(deleted, Outcome::Deleted(Err(StoreError::NotFound))));
    let listed = execute(&identity, &mut repository, Operation::List, "t".to_string());
    assert!(matches!(listed, Outcome::Listed(Ok(rows)) if rows.is_empty()));
}
