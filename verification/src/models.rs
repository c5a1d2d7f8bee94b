//! The records that the service stores and the inputs it accepts.

use vstd::prelude::*;

verus! {

/// The mathematical value of a stored record.
pub struct RustaceanView {
    pub id: int,
    pub name: Seq<char>,
    pub email: Seq<char>,
    pub created_at: Seq<char>,
}

/// A stored record. `id` and `created_at` are assigned by the repository
/// when the record is created and never change afterwards.
#[derive(Clone, Debug, PartialEq, Eq)]
pub struct Rustacean {
    pub id: i32,
    pub name: String,
    pub email: String,
    pub created_at: String,
}

impl View for Rustacean {
    type V = RustaceanView;

    open spec fn view(&self) -> RustaceanView {
        RustaceanView {
            id: self.id as int,
            name: self.name@,
            email: self.email@,
            created_at: self.created_at@,
        }
    }
}

/// The input from which a record is created: the client chooses neither the
/// `id` nor the creation time.
#[derive(Clone, Debug, PartialEq, Eq)]
pub struct NewRustacean {
    pub name: String,
    pub email: String,
}

impl Rustacean {
    /// A copy of this record, equal to it in every field.
    pub fn duplicate(&self) -> (copy: Rustacean)
        ensures
            copy == *self,
    {
        Rustacean {
            id: self.id,
            name: self.name.clone(),
            email: self.email.clone(),
            created_at: self.created_at.clone(),
        }
    }
}

} // verus!
