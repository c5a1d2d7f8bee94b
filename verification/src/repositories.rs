//! The repository of rustaceans: a table of records, each with an `id` of its
//! own, and the five operations on it.
//!
//! The table is modelled by `TableView`: the rows in ascending order of `id`,
//! and the last `id` that was ever assigned. A new record gets the next `id`,
//! so an `id` is never assigned twice, also not after its record was deleted.
//! Each operation of `RustaceanRepository` does to the table exactly what the
//! function of the same name does to its `TableView`.

use crate::models::{NewRustacean, Rustacean, RustaceanView};
use vstd::prelude::*;

verus! {

/// Why an operation of the repository failed.
#[derive(Clone, Copy, Debug, PartialEq, Eq, Structural)]
pub enum StoreError {
    /// No record has the `id` that was asked for.
    NotFound,
    /// The store refused the write because it conflicts with another.
    Conflict,
    /// Any other failure of the store.
    Other,
}

/// The greatest `id` that can be assigned.
pub const MAX_ID: i32 = 2147483647;

/// The mathematical value of the table.
pub struct TableView {
    /// The records, in ascending order of `id`.
    pub rows: Seq<RustaceanView>,
    /// The last `id` that was assigned, 0 before the first.
    pub last_id: int,
}

/// The values of a sequence of records.
pub open spec fn views(records: Seq<Rustacean>) -> Seq<RustaceanView> {
    Seq::new(records.len(), |i: int| records[i]@)
}

impl TableView {
    /// The table before anything was stored.
    pub open spec fn empty() -> TableView {
        TableView { rows: Seq::empty(), last_id: 0 }
    }

    /// Every `id` was assigned, none of them twice, and the rows are in
    /// ascending order of `id`.
    pub open spec fn wf(self) -> bool {
        &&& 0 <= self.last_id <= MAX_ID
        &&& forall|i: int| 0 <= i < self.rows.len() ==> 1 <= (#[trigger] self.rows[i]).id <= self.last_id
        &&& forall|i: int, j: int|
            0 <= i < j < self.rows.len() ==> (#[trigger] self.rows[i]).id < (#[trigger] self.rows[j]).id
    }

    /// Whether a record has this `id`.
    pub open spec fn contains(self, id: int) -> bool {
        exists|i: int| 0 <= i < self.rows.len() && (#[trigger] self.rows[i]).id == id
    }

    /// The row of the record with this `id`, where there is one.
    pub open spec fn index_of(self, id: int) -> int {
        choose|i: int| 0 <= i < self.rows.len() && (#[trigger] self.rows[i]).id == id
    }

    /// The record with this `id`.
    pub open spec fn find(self, id: int) -> Result<RustaceanView, StoreError> {
        if self.contains(id) {
            Ok(self.rows[self.index_of(id)])
        } else {
            Err(StoreError::NotFound)
        }
    }

    /// The `limit` records with the greatest `id`s, or all of them where
    /// there are fewer, the greatest `id` first.
    pub open spec fn find_multiple(self, limit: nat) -> Seq<RustaceanView> {
        let count = if limit <= self.rows.len() {
            limit
        } else {
            self.rows.len()
        };
        Seq::new(count, |k: int| self.rows[self.rows.len() - 1 - k])
    }

    /// The table after a record was created, and the record. Where no `id` is
    /// left to assign, nothing changes and the outcome is `Other`.
    pub open spec fn create(self, name: Seq<char>, email: Seq<char>, created_at: Seq<char>) -> (
        TableView,
        Result<RustaceanView, StoreError>,
    ) {
        if self.last_id >= MAX_ID {
            (self, Err(StoreError::Other))
        } else {
            let record = RustaceanView { id: self.last_id + 1, name, email, created_at };
            (TableView { rows: self.rows.push(record), last_id: self.last_id + 1 }, Ok(record))
        }
    }

    /// The table after the name and the email of the record with this `id`
    /// were replaced, and the record as it then is. Where there is no such
    /// record, nothing changes and the outcome is `NotFound`.
    pub open spec fn save(self, id: int, name: Seq<char>, email: Seq<char>) -> (
        TableView,
        Result<RustaceanView, StoreError>,
    ) {
        if self.contains(id) {
            let at = self.index_of(id);
            let record = RustaceanView {
                id: self.rows[at].id,
                name,
                email,
                created_at: self.rows[at].created_at,
            };
            (TableView { rows: self.rows.update(at, record), last_id: self.last_id }, Ok(record))
        } else {
            (self, Err(StoreError::NotFound))
        }
    }

    /// The table after the record with this `id` was removed. Where there is
    /// no such record, nothing changes and the outcome is `NotFound`.
    pub open spec fn delete(self, id: int) -> (TableView, Result<(), StoreError>) {
        if self.contains(id) {
            (
                TableView { rows: self.rows.remove(self.index_of(id)), last_id: self.last_id },
                Ok(()),
            )
        } else {
            (self, Err(StoreError::NotFound))
        }
    }

    /// In a well-formed table the row of an `id` is the only row with it.
    pub proof fn lemma_index_of(self, at: int)
        requires
            self.wf(),
            0 <= at < self.rows.len(),
        ensures
            self.contains(self.rows[at].id),
            self.index_of(self.rows[at].id) == at,
    {
        let id = self.rows[at].id;
        let found = self.index_of(id);
        assert(0 <= found < self.rows.len() && self.rows[found].id == id);
        if found < at {
            assert(self.rows[found].id < self.rows[at].id);
        } else if at < found {
            assert(self.rows[at].id < self.rows[found].id);
        }
    }
}

/// Every operation leaves a well-formed table well-formed, and none of them
/// lowers the last `id` that was assigned.
pub proof fn lemma_operations_keep_wf(
    table: TableView,
    id: int,
    name: Seq<char>,
    email: Seq<char>,
    created_at: Seq<char>,
)
    requires
        table.wf(),
    ensures
        table.create(name, email, created_at).0.wf(),
        table.save(id, name, email).0.wf(),
        table.delete(id).0.wf(),
        table.create(name, email, created_at).0.last_id >= table.last_id,
        table.save(id, name, email).0.last_id == table.last_id,
        table.delete(id).0.last_id == table.last_id,
{
}

/// A listing holds at most `limit` records, in strictly descending order of
/// `id`; each of them is a record of the table, and every record that is left
/// out has a smaller `id` than all that are listed.
pub proof fn lemma_find_multiple_descending(table: TableView, limit: nat)
    requires
        table.wf(),
    ensures
        table.find_multiple(limit).len() <= limit,
        table.find_multiple(limit).len() <= table.rows.len(),
        table.find_multiple(limit).len() == limit || table.find_multiple(limit).len()
            == table.rows.len(),
        forall|i: int, j: int|
            0 <= i < j < table.find_multiple(limit).len() ==> (#[trigger] table.find_multiple(
                limit,
            )[i]).id > (#[trigger] table.find_multiple(limit)[j]).id,
        forall|i: int|
            0 <= i < table.find_multiple(limit).len() ==> table.find(
                (#[trigger] table.find_multiple(limit)[i]).id,
            ) == Ok::<RustaceanView, StoreError>(table.find_multiple(limit)[i]),
        forall|k: int, i: int|
            0 <= k < table.rows.len() - table.find_multiple(limit).len() && 0 <= i
                < table.find_multiple(limit).len() ==> (#[trigger] table.rows[k]).id < (
            #[trigger] table.find_multiple(limit)[i]).id,
{
    let listed = table.find_multiple(limit);
    let n = table.rows.len() as int;
    assert forall|i: int| 0 <= i < listed.len() implies table.find((#[trigger] listed[i]).id)
        == Ok::<RustaceanView, StoreError>(listed[i]) by {
        table.lemma_index_of(n - 1 - i);
    }
    assert forall|i: int, j: int| 0 <= i < j < listed.len() implies (#[trigger] listed[i]).id > (
    #[trigger] listed[j]).id by {
        assert(table.rows[n - 1 - j].id < table.rows[n - 1 - i].id);
    }
    assert forall|k: int, i: int|
        0 <= k < table.rows.len() - listed.len() && 0 <= i < listed.len() implies (
    #[trigger] table.rows[k]).id < (#[trigger] listed[i]).id by {
        assert(table.rows[k].id < table.rows[n - 1 - i].id);
    }
}

/// A record that was just created has an `id` that no record had before, the
/// name, email and creation time that were given, and is found under its `id`
/// with these same values. The records that were there are found as before.
pub proof fn lemma_create_then_find(
    table: TableView,
    name: Seq<char>,
    email: Seq<char>,
    created_at: Seq<char>,
)
    requires
        table.wf(),
        table.last_id < MAX_ID,
    ensures
        ({
            let (after, outcome) = table.create(name, email, created_at);
            &&& outcome matches Ok(record)
            &&& record.id == table.last_id + 1
            &&& !table.contains(record.id)
            &&& record.name == name
            &&& record.email == email
            &&& record.created_at == created_at
            &&& after.find(record.id) == outcome
            &&& forall|id: int| id != record.id ==> after.find(id) == table.find(id)
        }),
{
    let (after, outcome) = table.create(name, email, created_at);
    let record = outcome->Ok_0;
    let n = table.rows.len() as int;
    assert(after.rows[n] == record);
    after.lemma_index_of(n);
    assert forall|id: int| id != record.id implies after.find(id) == table.find(id) by {
        if table.contains(id) {
            let at = table.index_of(id);
            assert(after.rows[at] == table.rows[at]);
            after.lemma_index_of(at);
        } else if after.contains(id) {
            let at = after.index_of(id);
            assert(at < n);
            assert(table.rows[at].id == id);
        }
    }
}

/// Saving under an `id` that exists replaces the name and the email and
/// leaves the `id` and the creation time as they were; the record is then
/// found with the new values, and every other record as before.
pub proof fn lemma_save_keeps_id_and_creation_time(
    table: TableView,
    id: int,
    name: Seq<char>,
    email: Seq<char>,
)
    requires
        table.wf(),
        table.contains(id),
    ensures
        ({
            let (after, outcome) = table.save(id, name, email);
            &&& outcome matches Ok(record)
            &&& table.find(id) matches Ok(before)
            &&& record.id == id
            &&& record.id == before.id
            &&& record.created_at == before.created_at
            &&& record.name == name
            &&& record.email == email
            &&& after.find(id) == outcome
            &&& after.rows.len() == table.rows.len()
            &&& forall|other: int| other != id ==> after.find(other) == table.find(other)
        }),
{
    let (after, outcome) = table.save(id, name, email);
    let at = table.index_of(id);
    after.lemma_index_of(at);
    assert forall|other: int| other != id implies after.find(other) == table.find(other) by {
        if table.contains(other) {
            let k = table.index_of(other);
            assert(after.rows[k] == table.rows[k]);
            after.lemma_index_of(k);
        } else if after.contains(other) {
            let k = after.index_of(other);
            assert(table.rows[k].id == other);
        }
    }
}

/// Under an `id` that no record has, finding, saving and deleting each fail
/// with `NotFound`, and the table stays as it is.
pub proof fn lemma_absent_id_is_not_found(
    table: TableView,
    id: int,
    name: Seq<char>,
    email: Seq<char>,
)
    requires
        !table.contains(id),
    ensures
        table.find(id) == Err::<RustaceanView, StoreError>(StoreError::NotFound),
        table.save(id, name, email) == (
            table,
            Err::<RustaceanView, StoreError>(StoreError::NotFound),
        ),
        table.delete(id) == (table, Err::<(), StoreError>(StoreError::NotFound)),
{
}

/// Deleting under an `id` that exists succeeds; afterwards the `id` is not
/// found, a second delete fails with `NotFound`, and every other record is
/// found as before.
pub proof fn lemma_delete_then_find(table: TableView, id: int)
    requires
        table.wf(),
        table.contains(id),
    ensures
        ({
            let (after, outcome) = table.delete(id);
            &&& outcome == Ok::<(), StoreError>(())
            &&& !after.contains(id)
            &&& after.find(id) == Err::<RustaceanView, StoreError>(StoreError::NotFound)
            &&& after.delete(id) == (after, Err::<(), StoreError>(StoreError::NotFound))
            &&& after.rows.len() == table.rows.len() - 1
            &&& forall|other: int| other != id ==> after.find(other) == table.find(other)
        }),
{
    let (after, outcome) = table.delete(id);
    let at = table.index_of(id);
    assert(after.wf());
    if after.contains(id) {
        let k = after.index_of(id);
        if k < at {
            assert(table.rows[k].id == id);
            table.lemma_index_of(k);
        } else {
            assert(table.rows[k + 1].id == id);
            table.lemma_index_of(k + 1);
        }
    }
    assert forall|other: int| other != id implies after.find(other) == table.find(other) by {
        if table.contains(other) {
            let k = table.index_of(other);
            if k < at {
                assert(after.rows[k] == table.rows[k]);
                after.lemma_index_of(k);
            } else {
                assert(after.rows[k - 1] == table.rows[k]);
                after.lemma_index_of(k - 1);
            }
        } else if after.contains(other) {
            let k = after.index_of(other);
            if k < at {
                assert(table.rows[k].id == other);
            } else {
                assert(table.rows[k + 1].id == other);
            }
        }
    }
}

/// An `id` is never assigned again: whatever was stored and deleted before, a
/// new record gets an `id` above every `id` that was ever assigned, so above
/// those of all records that are or were in the table.
pub proof fn lemma_ids_are_not_reused(
    table: TableView,
    deleted: int,
    name: Seq<char>,
    email: Seq<char>,
    created_at: Seq<char>,
)
    requires
        table.wf(),
        table.contains(deleted),
    ensures
        table.delete(deleted).0.create(name, email, created_at).1 matches Ok(record) ==> {
            &&& record.id != deleted
            &&& record.id > table.last_id
            &&& forall|i: int| 0 <= i < table.rows.len() ==> (#[trigger] table.rows[i]).id < record.id
        },
{
    let at = table.index_of(deleted);
    assert(table.rows[at].id <= table.last_id);
}

/// The value of an outcome that holds a record.
pub open spec fn record_view(r: Result<Rustacean, StoreError>) -> Result<
    RustaceanView,
    StoreError,
> {
    match r {
        Ok(record) => Ok(record@),
        Err(e) => Err(e),
    }
}

/// The table of rustaceans.
#[derive(Debug)]
pub struct RustaceanRepository {
    rows: Vec<Rustacean>,
    last_id: i32,
}

impl View for RustaceanRepository {
    type V = TableView;

    closed spec fn view(&self) -> TableView {
        TableView { rows: views(self.rows@), last_id: self.last_id as int }
    }
}

impl RustaceanRepository {
    #[verifier::type_invariant]
    spec fn well_formed(&self) -> bool {
        self@.wf()
    }

    /// An empty table.
    pub fn new() -> (repository: RustaceanRepository)
        ensures
            repository@ == TableView::empty(),
            repository@.wf(),
    {
        let repository = RustaceanRepository { rows: Vec::new(), last_id: 0 };
        assert(repository@.rows =~= Seq::empty());
        repository
    }

    /// An empty table in which every `id` up to `last_id` counts as assigned,
    /// so that the first record gets the `id` after it. `None` where `last_id`
    /// is negative.
    pub fn starting_after(last_id: i32) -> (r: Option<RustaceanRepository>)
        ensures
            match r {
                Some(repository) => last_id >= 0 && repository@ == (TableView {
                    rows: Seq::empty(),
                    last_id: last_id as int,
                }) && repository@.wf(),
                None => last_id < 0,
            },
    {
        if last_id < 0 {
            return None;
        }
        let repository = RustaceanRepository { rows: Vec::new(), last_id };
        assert(repository@.rows =~= Seq::empty());
        Some(repository)
    }

    /// The row of the record with this `id`, found by halving the range of
    /// rows in which it can be.
    fn position(&self, id: i32) -> (found: Option<usize>)
        ensures
            self@.wf(),
            match found {
                Some(at) => at < self@.rows.len() && self@.contains(id as int) && self@.index_of(
                    id as int,
                ) == at,
                None => !self@.contains(id as int),
            },
    {
        proof {
            use_type_invariant(self);
        }
        let ghost table = self@;
        let mut low: usize = 0;
        let mut high: usize = self.rows.len();
        while low < high
            invariant
                table == self@,
                table.wf(),
                low <= high <= self.rows.len(),
                self.rows.len() == table.rows.len(),
                forall|i: int| 0 <= i < low ==> (#[trigger] table.rows[i]).id < id,
                forall|i: int| high <= i < table.rows.len() ==> (#[trigger] table.rows[i]).id > id,
            decreases high - low,
        {
            let middle = low + (high - low) / 2;
            let here = self.rows[middle].id;
            assert(table.rows[middle as int].id == here);
            if here == id {
                proof {
                    table.lemma_index_of(middle as int);
                }
                return Some(middle);
            } else if here < id {
                assert forall|i: int| 0 <= i < middle + 1 implies (#[trigger] table.rows[i]).id
                    < id by {
                    if i < middle {
                        assert(table.rows[i].id < table.rows[middle as int].id);
                    }
                }
                low = middle + 1;
            } else {
                assert forall|i: int| middle <= i < table.rows.len() implies (
                #[trigger] table.rows[i]).id > id by {
                    if middle < i {
                        assert(table.rows[middle as int].id < table.rows[i].id);
                    }
                }
                high = middle;
            }
        }
        None
    }

    /// The record with this `id`, or `NotFound`.
    pub fn find(&self, id: i32) -> (r: Result<Rustacean, StoreError>)
        ensures
            self@.wf(),
            record_view(r) == self@.find(id as int),
    {
        match self.position(id) {
            Some(at) => Ok(self.rows[at].duplicate()),
            None => Err(StoreError::NotFound),
        }
    }

    /// Up to `limit` records, the one with the greatest `id` first. An empty
    /// table gives an empty list, never an error.
    pub fn find_multiple(&self, limit: usize) -> (r: Result<Vec<Rustacean>, StoreError>)
        ensures
            self@.wf(),
            r matches Ok(records) && views(records@) == self@.find_multiple(limit as nat)
                && records@.len() <= limit,
    {
        proof {
            use_type_invariant(self);
        }
        let n = self.rows.len();
        let count = if limit <= n {
            limit
        } else {
            n
        };
        let mut records: Vec<Rustacean> = Vec::new();
        let mut k: usize = 0;
        while k < count
            invariant
                n == self.rows.len(),
                count <= n,
                k <= count,
                records@.len() == k,
                forall|j: int| 0 <= j < k ==> (#[trigger] records@[j])@ == self.rows@[n - 1 - j]@,
            decreases count - k,
        {
            records.push(self.rows[n - 1 - k].duplicate());
            k = k + 1;
        }
        assert(views(records@) =~= self@.find_multiple(limit as nat));
        Ok(records)
    }

    /// Stores a new record with the next `id` and the given creation time,
    /// and returns it as stored. Fails with `Other`, and changes nothing,
    /// where no `id` is left.
    pub fn create(&mut self, new_rustacean: NewRustacean, created_at: String) -> (r: Result<
        Rustacean,
        StoreError,
    >)
        ensures
            old(self)@.wf(),
            final(self)@.wf(),
            (final(self)@, record_view(r)) == old(self)@.create(
                new_rustacean.name@,
                new_rustacean.email@,
                created_at@,
            ),
    {
        proof {
            use_type_invariant(&*self);
        }
        if self.last_id >= MAX_ID {
            return Err(StoreError::Other);
        }
        let id = self.last_id + 1;
        let record = Rustacean {
            id,
            name: new_rustacean.name,
            email: new_rustacean.email,
            created_at,
        };
        let stored = record.duplicate();
        let ghost before = self@;
        let mut rows: Vec<Rustacean> = Vec::new();
        core::mem::swap(&mut self.rows, &mut rows);
        self.last_id = id;
        rows.push(record);
        proof {
            let after = TableView { rows: views(rows@), last_id: id as int };
            assert(after.rows =~= before.rows.push(stored@));
            assert(after.wf());
        }
        core::mem::swap(&mut self.rows, &mut rows);
        assert(self@.rows =~= before.rows.push(stored@));
        Ok(stored)
    }

    /// Replaces the name and the email of the record with this `id` by those
    /// of `rustacean` and returns the record as it then is. The `id` and the
    /// creation time of `rustacean` are not looked at. Fails with `NotFound`,
    /// and changes nothing, where there is no such record.
    pub fn save(&mut self, id: i32, rustacean: Rustacean) -> (r: Result<Rustacean, StoreError>)
        ensures
            old(self)@.wf(),
            final(self)@.wf(),
            (final(self)@, record_view(r)) == old(self)@.save(
                id as int,
                rustacean.name@,
                rustacean.email@,
            ),
    {
        proof {
            use_type_invariant(&*self);
        }
        match self.position(id) {
            None => Err(StoreError::NotFound),
            Some(at) => {
                let ghost before = self@;
                let record = Rustacean {
                    id: self.rows[at].id,
                    name: rustacean.name,
                    email: rustacean.email,
                    created_at: self.rows[at].created_at.clone(),
                };
                let stored = record.duplicate();
                let mut rows: Vec<Rustacean> = Vec::new();
                core::mem::swap(&mut self.rows, &mut rows);
                rows[at] = record;
                proof {
                    let after = TableView { rows: views(rows@), last_id: before.last_id };
                    assert(after.rows =~= before.rows.update(at as int, stored@));
                    assert(after.wf());
                }
                core::mem::swap(&mut self.rows, &mut rows);
                assert(self@.rows =~= before.rows.update(at as int, stored@));
                Ok(stored)
            },
        }
    }

    /// Removes the record with this `id`. Fails with `NotFound`, and changes
    /// nothing, where there is no such record.
    pub fn delete(&mut self, id: i32) -> (r: Result<(), StoreError>)
        ensures
            old(self)@.wf(),
            final(self)@.wf(),
            (final(self)@, r) == old(self)@.delete(id as int),
    {
        proof {
            use_type_invariant(&*self);
        }
        match self.position(id) {
            None => Err(StoreError::NotFound),
            Some(at) => {
                let ghost before = self@;
                let mut rows: Vec<Rustacean> = Vec::new();
                core::mem::swap(&mut self.rows, &mut rows);
                let _ = rows.remove(at);
                proof {
                    let after = TableView { rows: views(rows@), last_id: before.last_id };
                    assert(after.rows =~= before.rows.remove(at as int));
                    assert(after.wf());
                }
                core::mem::swap(&mut self.rows, &mut rows);
                assert(self@.rows =~= before.rows.remove(at as int));
                Ok(())
            },
        }
    }
}

} // verus!
