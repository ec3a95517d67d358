//! The five operations on the store. Each one is a single scan of the
//! records; what it answers and what it leaves in the store are given by the
//! spec functions that stand above it.

use vstd::prelude::*;
use crate::db::{
    first_at, guids_unique, has_guid, is_first_at, lemma_first_at_exists, lemma_first_at_is, Db,
};
use crate::models::{views, Customer, CustomerView};
use crate::reply::{Reply, ReplyView};

verus! {

/// The most bytes that the body of a request may have: 16 KiB. A record to
/// create or to update comes in such a body.
pub const MAX_BODY_BYTES: u64 = 1024 * 16;

/// The store after a creation: the record is appended unless its `guid` is
/// already stored; then nothing changes.
pub open spec fn after_create(records: Seq<CustomerView>, new_customer: CustomerView) -> Seq<
    CustomerView,
> {
    if has_guid(records, new_customer.guid) {
        records
    } else {
        records.push(new_customer)
    }
}

/// The answer to a creation: a conflict exactly where the `guid` is already
/// stored.
pub open spec fn create_reply(records: Seq<CustomerView>, new_customer: CustomerView) -> ReplyView {
    if has_guid(records, new_customer.guid) {
        ReplyView::Conflict
    } else {
        ReplyView::Created
    }
}

/// The answer to a read: the first record with the `guid`, or not found.
pub open spec fn read_reply(records: Seq<CustomerView>, guid: Seq<char>) -> ReplyView {
    if has_guid(records, guid) {
        ReplyView::Record(records[first_at(records, guid)])
    } else {
        ReplyView::NotFound
    }
}

/// The store after an update: the first record with the `guid` of the new one
/// is replaced by it, at the same place; without such a record nothing
/// changes.
pub open spec fn after_update(records: Seq<CustomerView>, updated_customer: CustomerView) -> Seq<
    CustomerView,
> {
    if has_guid(records, updated_customer.guid) {
        records.update(first_at(records, updated_customer.guid), updated_customer)
    } else {
        records
    }
}

/// The answer to an update: not found exactly where no record has the `guid`.
pub open spec fn update_reply(records: Seq<CustomerView>, updated_customer: CustomerView) -> ReplyView {
    if has_guid(records, updated_customer.guid) {
        ReplyView::Updated
    } else {
        ReplyView::NotFound
    }
}

/// The test that a removal applies to each record: it stays unless it has
/// the `guid`.
pub open spec fn other_than(guid: Seq<char>) -> spec_fn(CustomerView) -> bool {
    |record: CustomerView| record.guid != guid
}

/// The store after a removal: the records with another `guid`, in their
/// order.
pub open spec fn after_delete(records: Seq<CustomerView>, guid: Seq<char>) -> Seq<CustomerView> {
    records.filter(other_than(guid))
}

/// The answer to a removal: not found exactly where no record had the `guid`.
pub open spec fn delete_reply(records: Seq<CustomerView>, guid: Seq<char>) -> ReplyView {
    if has_guid(records, guid) {
        ReplyView::Deleted
    } else {
        ReplyView::NotFound
    }
}

/// A creation keeps the `guid`s unique.
pub proof fn lemma_create_keeps_unique(records: Seq<CustomerView>, new_customer: CustomerView)
    requires
        guids_unique(records),
    ensures
        guids_unique(after_create(records, new_customer)),
{
    let after = after_create(records, new_customer);
    if !has_guid(records, new_customer.guid) {
        assert forall|i: int, j: int| 0 <= i < j < after.len() implies #[trigger] after[i].guid
            != #[trigger] after[j].guid by {
            assert(after[i] == records[i]);
            if j < records.len() {
                assert(after[j] == records[j]);
            }
        }
    }
}

/// An update keeps the `guid`s unique: the record that comes in has the
/// `guid` of the one that leaves.
pub proof fn lemma_update_keeps_unique(records: Seq<CustomerView>, updated_customer: CustomerView)
    requires
        guids_unique(records),
    ensures
        guids_unique(after_update(records, updated_customer)),
{
    let after = after_update(records, updated_customer);
    if has_guid(records, updated_customer.guid) {
        lemma_first_at_exists(records, updated_customer.guid);
        assert forall|i: int, j: int| 0 <= i < j < after.len() implies #[trigger] after[i].guid
            != #[trigger] after[j].guid by {
            assert(after[i].guid == records[i].guid);
            assert(after[j].guid == records[j].guid);
        }
    }
}

/// Without its last record a sequence still holds no `guid` twice.
proof fn lemma_drop_last_keeps_unique(records: Seq<CustomerView>)
    requires
        guids_unique(records),
        records.len() > 0,
    ensures
        guids_unique(records.drop_last()),
{
    let rest = records.drop_last();
    assert forall|i: int, j: int| 0 <= i < j < rest.len() implies #[trigger] rest[i].guid
        != #[trigger] rest[j].guid by {
        assert(rest[i] == records[i]);
        assert(rest[j] == records[j]);
    }
}

/// What a removal leaves: no record with the `guid`, and only records that
/// were there, so that the store is unchanged where none had the `guid` and
/// shorter where one had.
pub proof fn lemma_delete_leaves(records: Seq<CustomerView>, guid: Seq<char>)
    ensures
        !has_guid(after_delete(records, guid), guid),
        after_delete(records, guid).len() <= records.len(),
        !has_guid(records, guid) ==> after_delete(records, guid) == records,
        has_guid(records, guid) ==> after_delete(records, guid).len() < records.len(),
        forall|i: int|
            0 <= i < after_delete(records, guid).len() ==> records.contains(
                #[trigger] after_delete(records, guid)[i],
            ),
    decreases records.len(),
{
    reveal(Seq::filter);
    let after = after_delete(records, guid);
    if records.len() > 0 {
        let rest = records.drop_last();
        let last = records.last();
        let sub = after_delete(rest, guid);
        lemma_delete_leaves(rest, guid);
        if has_guid(after, guid) {
            let i = choose|i: int| 0 <= i < after.len() && #[trigger] after[i].guid == guid;
            assert(i < sub.len() ==> sub[i].guid == guid);
        }
        if has_guid(rest, guid) {
            let i = choose|i: int| 0 <= i < rest.len() && #[trigger] rest[i].guid == guid;
            assert(records[i].guid == guid);
        }
        if has_guid(records, guid) {
            let i = choose|i: int| 0 <= i < records.len() && #[trigger] records[i].guid == guid;
            assert(i < rest.len() ==> rest[i].guid == guid);
        } else {
            assert(last.guid != guid);
            assert(rest.push(last) =~= records);
        }
        assert forall|i: int| 0 <= i < after.len() implies records.contains(#[trigger] after[i]) by {
            if i < sub.len() {
                assert(rest.contains(sub[i]));
                let j = choose|j: int| 0 <= j < rest.len() && rest[j] == sub[i];
                assert(records[j] == after[i]);
            } else {
                assert(records[records.len() - 1] == after[i]);
            }
        }
    }
}

/// A removal keeps the `guid`s unique.
pub proof fn lemma_delete_keeps_unique(records: Seq<CustomerView>, guid: Seq<char>)
    requires
        guids_unique(records),
    ensures
        guids_unique(after_delete(records, guid)),
    decreases records.len(),
{
    reveal(Seq::filter);
    let after = after_delete(records, guid);
    if records.len() > 0 {
        let rest = records.drop_last();
        let sub = after_delete(rest, guid);
        lemma_drop_last_keeps_unique(records);
        lemma_delete_keeps_unique(rest, guid);
        lemma_delete_leaves(rest, guid);
        assert forall|i: int, j: int| 0 <= i < j < after.len() implies #[trigger] after[i].guid
            != #[trigger] after[j].guid by {
            if j < sub.len() {
                assert(after[i] == sub[i] && after[j] == sub[j]);
            } else {
                assert(rest.contains(sub[i]));
                let k = choose|k: int| 0 <= k < rest.len() && rest[k] == sub[i];
                assert(records[k].guid != records[records.len() - 1].guid);
            }
        }
    }
}

/// Where no two records share a `guid`, the removal of a stored `guid` takes
/// out one record, the one that has it, and leaves the others in their
/// order.
pub proof fn lemma_delete_removes_one(records: Seq<CustomerView>, guid: Seq<char>)
    requires
        guids_unique(records),
        has_guid(records, guid),
    ensures
        after_delete(records, guid) == records.remove(first_at(records, guid)),
        after_delete(records, guid).len() == records.len() - 1,
    decreases records.len(),
{
    reveal(Seq::filter);
    lemma_first_at_exists(records, guid);
    let k = first_at(records, guid);
    let rest = records.drop_last();
    let last = records.last();
    if k == records.len() - 1 {
        if has_guid(rest, guid) {
            let j = choose|j: int| 0 <= j < rest.len() && #[trigger] rest[j].guid == guid;
            assert(records[j].guid == guid);
        }
        lemma_delete_leaves(rest, guid);
        assert(records.remove(k) =~= rest);
    } else {
        assert(is_first_at(rest, guid, k)) by {
            assert(rest[k] == records[k]);
            assert forall|j: int| 0 <= j < k implies #[trigger] rest[j].guid != guid by {
                assert(rest[j] == records[j]);
            }
        }
        lemma_first_at_is(rest, guid, k);
        lemma_drop_last_keeps_unique(records);
        lemma_delete_removes_one(rest, guid);
        assert(records[k].guid != records[records.len() - 1].guid);
        assert(other_than(guid)(last));
        assert(rest.remove(k).push(last) =~= records.remove(k));
    }
}

/// Returns the list of customers: a copy of every record, in insertion order.
/// The store is left as it is.
///
/// # Arguments
///
/// * `db` - `Db` -> the data store
pub fn list_customers(db: &Db) -> (reply: Reply)
    ensures
        reply@ == ReplyView::Listing(db@),
{
    let customers: Vec<Customer> = db.customers.clone();
    assert(views(customers@) =~= views(db.customers@));
    Reply::Listing(customers)
}

/// Creates a new customer
///
/// Adds a new customer object to the end of the data store if no stored
/// customer has its `guid`; otherwise the store is left as it is and the
/// answer is a conflict.
///
/// # Arguments
///
/// * `new_customer` - `Customer` type
/// * `db` - `Db` -> the data store
pub fn create_customer(new_customer: Customer, db: &mut Db) -> (reply: Reply)
    ensures
        final(db)@ == after_create(old(db)@, new_customer@),
        reply@ == create_reply(old(db)@, new_customer@),
        guids_unique(old(db)@) ==> guids_unique(final(db)@),
{
    proof {
        if guids_unique(db@) {
            lemma_create_keeps_unique(db@, new_customer@);
        }
    }
    match db.position(&new_customer.guid) {
        Some(i) => {
            proof {
                lemma_first_at_is(db@, new_customer@.guid, i as int);
            }
            Reply::Conflict
        },
        None => {
            db.customers.push(new_customer);
            assert(db@ =~= old(db)@.push(new_customer@));
            Reply::Created
        },
    }
}

/// Gets a single customer from the data store
///
/// Answers with a copy of the first stored customer that has the `guid`. If
/// no customer has it, the answer is not found.
///
/// # Arguments
///
/// * `guid` - String -> the id of the customer to retrieve
/// * `db` - `Db` -> the data store
pub fn get_customer(guid: String, db: &Db) -> (reply: Reply)
    ensures
        reply@ == read_reply(db@, guid@),
{
    match db.position(&guid) {
        Some(i) => {
            proof {
                lemma_first_at_is(db@, guid@, i as int);
            }
            Reply::Record(db.customers[i].clone())
        },
        None => Reply::NotFound,
    }
}

/// Updates an existing customer
///
/// Overwrites, at its place, the first stored customer that has the `guid`
/// of the new one. If no customer has it, the store is left as it is and the
/// answer is not found.
///
/// # Arguments
///
/// * `updated_customer` - `Customer` -> updated customer info
/// * `db` - `Db` -> the data store
pub fn update_customer(updated_customer: Customer, db: &mut Db) -> (reply: Reply)
    ensures
        final(db)@ == after_update(old(db)@, updated_customer@),
        reply@ == update_reply(old(db)@, updated_customer@),
        guids_unique(old(db)@) ==> guids_unique(final(db)@),
{
    proof {
        if guids_unique(db@) {
            lemma_update_keeps_unique(db@, updated_customer@);
        }
    }
    match db.position(&updated_customer.guid) {
        Some(i) => {
            proof {
                lemma_first_at_is(db@, updated_customer@.guid, i as int);
            }
            db.customers.set(i, updated_customer);
            assert(db@ =~= old(db)@.update(i as int, updated_customer@));
            Reply::Updated
        },
        None => Reply::NotFound,
    }
}

/// Keeps the records with another `guid`, in their order, and takes every
/// record with this `guid` out of the store, in one pass over the records.
fn retain_others(db: &mut Db, guid: &String)
    ensures
        final(db)@ == after_delete(old(db)@, guid@),
{
    let ghost before = db@;
    let ghost keep = other_than(guid@);
    let mut scanned: Vec<Customer> = Vec::new();
    core::mem::swap(&mut db.customers, &mut scanned);
    proof {
        reveal(Seq::filter);
        assert(before.take(0).filter(keep) =~= Seq::<CustomerView>::empty());
        assert(db@ =~= Seq::<CustomerView>::empty());
    }
    for record in it: scanned
        invariant
            keep == other_than(guid@),
            views(it.seq()) == before,
            db@ == before.take(it.index() as int).filter(keep),
    {
        proof {
            let i = it.index() as int;
            assert(before.take(i + 1) =~= before.take(i).push(before[i]));
            before.take(i).lemma_filter_push(before[i], keep);
            assert(record@ == before[i]);
        }
        if record.guid != *guid {
            let ghost held = db@;
            db.customers.push(record);
            assert(db@ =~= held.push(record@));
        }
    }
    proof {
        assert(before.take(before.len() as int) =~= before);
    }
}

/// Deletes a customer from the data store
///
/// Every stored customer that has the `guid` is removed; the others stay in
/// their order. If no customer had the `guid`, the answer is not found.
///
/// # Arguments
///
/// * `guid` - String -> the id of the customer to delete
/// * `db` - `Db` -> the data store
pub fn delete_customer(guid: String, db: &mut Db) -> (reply: Reply)
    ensures
        final(db)@ == after_delete(old(db)@, guid@),
        reply@ == delete_reply(old(db)@, guid@),
        guids_unique(old(db)@) ==> guids_unique(final(db)@),
{
    proof {
        lemma_delete_leaves(db@, guid@);
        if guids_unique(db@) {
            lemma_delete_keeps_unique(db@, guid@);
        }
    }
    let customer_count = db.customers.len();

    retain_others(db, &guid);

    let deleted = db.customers.len() != customer_count;
    if deleted {
        Reply::Deleted
    } else {
        Reply::NotFound
    }
}

} // verus!
