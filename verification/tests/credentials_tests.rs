use rustaceans::auth::{AuthError, BasicAuth};
use rustaceans::credentials::{
    constant_time_eq, validate, verify, CredentialRecord, CredentialStore,
};

fn store() -> CredentialStore {
    CredentialStore {
        records: vec![
            CredentialRecord { username: "ada".to_string(), verifier: vec![1, 2, 3] },
            CredentialRecord { username: "grace".to_string(), verifier: vec![9, 9] },
            CredentialRecord { username: "ada".to_string(), verifier: vec![7] },
        ],
    }
}

fn claim(username: &str) -> BasicAuth {
    BasicAuth { username: username.to_string(), password: "secret".to_string() }
}

#[test]
fn equal_byte_strings_are_equal() {
    assert!(constant_time_eq(b"", b""));
    assert!(constant_time_eq(b"abc", b"abc"));
    assert!(constant_time_eq(&[0, 255, 128], &[0, 255, 128]));
}

#[test]
fn different_byte_strings_are_not_equal() {
    assert!(!constant_time_eq(b"abc", b"abd"));
    assert!(!constant_time_eq(b"abc", b"xbc"));
    assert!(!constant_time_eq(b"abc", b"ab"));
    assert!(!constant_time_eq(b"", b"a"));
    assert!(!constant_time_eq(&[1, 2], &[2, 1]));
    // Differences that cancel under exclusive or of the whole are still differences.
    assert!(!constant_time_eq(&[1, 1], &[2, 2]));
}

#[test]
fn lookup_finds_the_first_record_of_a_user() {
    let store = store();
    assert_eq!(store.lookup(&"ada".to_string()), Some(&store.records[0]));
    assert_eq!(store.lookup(&"grace".to_string()), Some(&store.records[1]));
    assert_eq!(store.lookup(&"linus".to_string()), None);
    assert_eq!(store.lookup(&"".to_string()), None);
}

#[test]
fn right_verifier_authenticates() {
    let identity = validate(&store(), &claim("ada"), &[1, 2, 3]).expect("ada is known");
    assert_eq!(identity.username(), "ada");
    let identity = validate(&store(), &claim("grace"), &[9, 9]).expect("grace is known");
    assert_eq!(identity.username(), "grace");
}

#[test]
fn wrong_verifier_is_invalid_credentials() {
    assert_eq!(validate(&store(), &claim("ada"), &[1, 2, 4]).err(), Some(AuthError::InvalidCredentials));
    assert_eq!(validate(&store(), &claim("ada"), &[]).err(), Some(AuthError::InvalidCredentials));
    // Only the first record of a user counts.
    assert_eq!(validate(&store(), &claim("ada"), &[7]).err(), Some(AuthError::InvalidCredentials));
    assert_eq!(validate(&store(), &claim("grace"), &[1, 2, 3]).err(), Some(AuthError::InvalidCredentials));
}

#[test]
fn unknown_user_is_invalid_credentials_too() {
    assert_eq!(validate(&store(), &claim("linus"), &[1, 2, 3]).err(), Some(AuthError::InvalidCredentials));
    let empty = CredentialStore { records: vec![] };
    assert_eq!(validate(&empty, &claim("ada"), &[1, 2, 3]).err(), Some(AuthError::InvalidCredentials));
}

#[test]
fn verify_checks_the_record_it_is_given() {
    let record = CredentialRecord { username: "ada".to_string(), verifier: vec![1, 2, 3] };
    let identity = verify(&claim("ada"), Some(&record), &[1, 2, 3]).expect("the record bears ada out");
    assert_eq!(identity.username(), "ada");
    assert_eq!(verify(&claim("ada"), Some(&record), &[3, 2, 1]).err(), Some(AuthError::InvalidCredentials));
    assert_eq!(verify(&claim("ada"), None, &[1, 2, 3]).err(), Some(AuthError::InvalidCredentials));
    // The record of another user authenticates nobody else.
    assert_eq!(verify(&claim("grace"), Some(&record), &[1, 2, 3]).err(), Some(AuthError::InvalidCredentials));
}
