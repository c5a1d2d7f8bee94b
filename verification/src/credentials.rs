//! Checking claimed credentials against the credential store.
//!
//! The store holds, for each user, the verifier of the user's password. How a
//! verifier is derived from a password is the store's own business: the
//! caller derives the verifier of the presented password and hands it in. A
//! request is authenticated when the store holds the claimed username and the
//! two verifiers are equal.

use crate::auth::{AuthError, BasicAuth};
use vstd::prelude::*;

verus! {

/// One entry of the credential store.
#[derive(Clone, Debug, PartialEq, Eq)]
pub struct CredentialRecord {
    pub username: String,
    pub verifier: Vec<u8>,
}

/// The verifier that `records` hold for `username`: that of the first record
/// with this username.
pub open spec fn stored_verifier(records: Seq<CredentialRecord>, username: Seq<char>) -> Option<
    Seq<u8>,
>
    decreases records.len(),
{
    if records.len() == 0 {
        None
    } else if records[0].username@ == username {
        Some(records[0].verifier@)
    } else {
        stored_verifier(records.skip(1), username)
    }
}

/// The credential store, which this service only reads.
#[derive(Clone, Debug)]
pub struct CredentialStore {
    pub records: Vec<CredentialRecord>,
}

/// The identity of an authenticated user. Only `verify` and `validate` make
/// one, so whoever holds an `Identity` holds it for a request whose
/// credentials the credential store bore out.
#[derive(Debug)]
pub struct Identity {
    username: String,
}

impl View for Identity {
    type V = Seq<char>;

    closed spec fn view(&self) -> Seq<char> {
        self.username@
    }
}

impl Identity {
    /// The name of the authenticated user.
    pub fn username(&self) -> (name: &String)
        ensures
            name@ == self@,
    {
        &self.username
    }
}

/// Whether two byte strings are equal. The time taken depends on the lengths
/// alone: byte strings of one length are compared to the end, wherever they
/// first differ.
pub fn constant_time_eq(a: &[u8], b: &[u8]) -> (same: bool)
    ensures
        same == (a@ == b@),
{
    let n = a.len();
    if n != b.len() {
        return false;
    }
    let mut difference: u8 = 0;
    let mut i: usize = 0;
    while i < n
        invariant
            n == a@.len(),
            n == b@.len(),
            i <= n,
            difference == 0 <==> (forall|j: int| 0 <= j < i ==> a@[j] == b@[j]),
        decreases n - i,
    {
        let x = a[i];
        let y = b[i];
        assert((x ^ y) == 0 <==> x == y) by (bit_vector);
        assert((difference | (x ^ y)) == 0 <==> difference == 0 && (x ^ y) == 0) by (bit_vector);
        difference = difference | (x ^ y);
        i = i + 1;
    }
    assert(a@ == b@ <==> (forall|j: int| 0 <= j < n ==> a@[j] == b@[j])) by {
        if forall|j: int| 0 <= j < n ==> a@[j] == b@[j] {
            assert(a@ =~= b@);
        }
    }
    difference == 0
}

impl CredentialStore {
    /// The verifier that the store holds for `username`.
    pub open spec fn verifier_of(&self, username: Seq<char>) -> Option<Seq<u8>> {
        stored_verifier(self.records@, username)
    }

    /// Looks up the record of `username`.
    pub fn lookup(&self, username: &String) -> (found: Option<&CredentialRecord>)
        ensures
            match found {
                Some(record) => record.username@ == username@ && self.verifier_of(username@)
                    == Some(record.verifier@),
                None => self.verifier_of(username@) is None,
            },
    {
        let n = self.records.len();
        let mut i: usize = 0;
        assert(self.records@.skip(0) =~= self.records@);
        while i < n
            invariant
                n == self.records@.len(),
                i <= n,
                stored_verifier(self.records@, username@) == stored_verifier(
                    self.records@.skip(i as int),
                    username@,
                ),
            decreases n - i,
        {
            if self.records[i].username == *username {
                return Some(&self.records[i]);
            }
            assert(self.records@.skip(i as int).skip(1) =~= self.records@.skip(i + 1));
            i = i + 1;
        }
        None
    }
}

/// Whether `record` is the record of `username` and holds the verifier
/// `presented`. No record authenticates nobody.
pub open spec fn record_authenticates(
    record: Option<CredentialRecord>,
    username: Seq<char>,
    presented: Seq<u8>,
) -> bool {
    record matches Some(r) && r.username@ == username && r.verifier@ == presented
}

/// Whether the store authenticates `username` with a password whose verifier
/// is `presented`.
pub open spec fn authenticates(
    store: &CredentialStore,
    username: Seq<char>,
    presented: Seq<u8>,
) -> bool {
    store.verifier_of(username) == Some(presented)
}

/// Checks claimed credentials against the record that the credential store
/// holds for the claimed username, `None` where it holds none. `presented` is
/// the verifier of the claimed password.
///
/// An unknown user and a wrong password both give `InvalidCredentials`: the
/// result does not tell which of the two it was.
pub fn verify(credentials: &BasicAuth, record: Option<&CredentialRecord>, presented: &[u8]) -> (r:
    Result<Identity, AuthError>)
    ensures
        match r {
            Ok(identity) => identity@ == credentials.username@ && record_authenticates(
                match record {
                    Some(found) => Some(*found),
                    None => None,
                },
                credentials.username@,
                presented@,
            ),
            Err(e) => e == AuthError::InvalidCredentials && !record_authenticates(
                match record {
                    Some(found) => Some(*found),
                    None => None,
                },
                credentials.username@,
                presented@,
            ),
        },
{
    match record {
        None => Err(AuthError::InvalidCredentials),
        Some(found) => {
            let same_verifier = constant_time_eq(found.verifier.as_slice(), presented);
            if found.username == credentials.username && same_verifier {
                Ok(Identity { username: credentials.username.clone() })
            } else {
                Err(AuthError::InvalidCredentials)
            }
        },
    }
}

/// Looks the claimed username up in the store and checks the claimed
/// credentials against what it holds. `presented` is the verifier of the
/// claimed password.
pub fn validate(store: &CredentialStore, credentials: &BasicAuth, presented: &[u8]) -> (r: Result<
    Identity,
    AuthError,
>)
    ensures
        match r {
            Ok(identity) => authenticates(store, credentials.username@, presented@) && identity@
                == credentials.username@,
            Err(e) => e == AuthError::InvalidCredentials && !authenticates(
                store,
                credentials.username@,
                presented@,
            ),
        },
{
    verify(credentials, store.lookup(&credentials.username), presented)
}

} // verus!
