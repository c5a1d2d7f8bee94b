use diesel::result::{DatabaseErrorKind, Error};
use rustaceans::failures::{from_diesel, from_failure, queried, written, StoreFailure};
use rustaceans::repositories::StoreError;

fn database_error(kind: DatabaseErrorKind) -> Error {
    Error::DatabaseError(kind, Box::new("the store's own words".to_string()))
}

#[test]
fn each_failure_has_its_store_error() {
    assert_eq!(from_failure(StoreFailure::NoRows), StoreError::NotFound);
    assert_eq!(from_failure(StoreFailure::UniqueViolation), StoreError::Conflict);
    assert_eq!(from_failure(StoreFailure::SerializationFailure), StoreError::Conflict);
    assert_eq!(from_failure(StoreFailure::Other), StoreError::Other);
}

#[test]
fn no_rows_is_not_found() {
    assert_eq!(from_diesel(&Error::NotFound), StoreError::NotFound);
}

#[test]
fn violated_uniqueness_is_conflict() {
    assert_eq!(from_diesel(&database_error(DatabaseErrorKind::UniqueViolation)), StoreError::Conflict);
}

#[test]
fn failed_serialization_is_conflict() {
    assert_eq!(
        from_diesel(&database_error(DatabaseErrorKind::SerializationFailure)),
        StoreError::Conflict
    );
}

#[test]
fn every_other_error_is_other() {
    assert_eq!(from_diesel(&database_error(DatabaseErrorKind::ForeignKeyViolation)), StoreError::Other);
    assert_eq!(from_diesel(&database_error(DatabaseErrorKind::NotNullViolation)), StoreError::Other);
    assert_eq!(from_diesel(&database_error(DatabaseErrorKind::CheckViolation)), StoreError::Other);
    assert_eq!(from_diesel(&database_error(DatabaseErrorKind::ClosedConnection)), StoreError::Other);
    assert_eq!(from_diesel(&database_error(DatabaseErrorKind::Unknown)), StoreError::Other);
    assert_eq!(from_diesel(&Error::RollbackTransaction), StoreError::Other);
    assert_eq!(from_diesel(&Error::AlreadyInTransaction), StoreError::Other);
    assert_eq!(from_diesel(&Error::NotInTransaction), StoreError::Other);
    assert_eq!(from_diesel(&Error::BrokenTransactionManager), StoreError::Other);
    assert_eq!(
        from_diesel(&Error::QueryBuilderError("no changes".to_string().into())),
        StoreError::Other
    );
}

#[test]
fn query_keeps_its_value_or_translates_its_error() {
    assert_eq!(queried(Ok::<i32, Error>(7)), Ok(7));
    assert_eq!(queried(Ok::<Vec<i32>, Error>(vec![])), Ok(vec![]));
    assert_eq!(queried(Err::<i32, Error>(Error::NotFound)), Err(StoreError::NotFound));
    assert_eq!(
        queried(Err::<i32, Error>(database_error(DatabaseErrorKind::UniqueViolation))),
        Err(StoreError::Conflict)
    );
    assert_eq!(queried(Err::<i32, Error>(Error::RollbackTransaction)), Err(StoreError::Other));
}

#[test]
fn write_that_touched_no_row_is_not_found() {
    assert_eq!(written(Ok(0)), Err(StoreError::NotFound));
    assert_eq!(written(Ok(1)), Ok(()));
    assert_eq!(written(Ok(3)), Ok(()));
    assert_eq!(written(Err(Error::NotFound)), Err(StoreError::NotFound));
    assert_eq!(
        written(Err(database_error(DatabaseErrorKind::UniqueViolation))),
        Err(StoreError::Conflict)
    );
    assert_eq!(written(Err(Error::BrokenTransactionManager)), Err(StoreError::Other));
}
