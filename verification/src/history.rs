//! Sequences of operations on the store, and what holds of every one of them.

use vstd::prelude::*;
use crate::db::{
    first_at, guids_unique, has_guid, is_first_at, lemma_first_at_exists, lemma_first_at_is,
};
use crate::handlers::{
    after_create, after_delete, after_update, create_reply, delete_reply, lemma_create_keeps_unique,
    lemma_delete_keeps_unique, lemma_delete_leaves, lemma_update_keeps_unique, read_reply,
    update_reply,
};
use crate::models::CustomerView;
use crate::reply::ReplyView;

verus! {

/// One operation on the store, with what it is given.
pub enum Operation {
    /// List every record.
    List,
    /// Create this record.
    Create(CustomerView),
    /// Read the record with this `guid`.
    Read(Seq<char>),
    /// Replace the record that has the `guid` of this one.
    Update(CustomerView),
    /// Remove the record with this `guid`.
    Delete(Seq<char>),
}

/// The store after one operation.
pub open spec fn after(records: Seq<CustomerView>, operation: Operation) -> Seq<CustomerView> {
    match operation {
        Operation::List => records,
        Operation::Create(new_customer) => after_create(records, new_customer),
        Operation::Read(_) => records,
        Operation::Update(updated_customer) => after_update(records, updated_customer),
        Operation::Delete(guid) => after_delete(records, guid),
    }
}

/// The answer of one operation.
pub open spec fn reply_to(records: Seq<CustomerView>, operation: Operation) -> ReplyView {
    match operation {
        Operation::List => ReplyView::Listing(records),
        Operation::Create(new_customer) => create_reply(records, new_customer),
        Operation::Read(guid) => read_reply(records, guid),
        Operation::Update(updated_customer) => update_reply(records, updated_customer),
        Operation::Delete(guid) => delete_reply(records, guid),
    }
}

/// The store after a sequence of operations, each one done on what the one
/// before it left.
pub open spec fn after_all(records: Seq<CustomerView>, operations: Seq<Operation>) -> Seq<
    CustomerView,
>
    decreases operations.len(),
{
    if operations.len() == 0 {
        records
    } else {
        after(after_all(records, operations.drop_last()), operations.last())
    }
}

/// The answer of the operation at index `k` of a sequence of operations.
pub open spec fn reply_at(records: Seq<CustomerView>, operations: Seq<Operation>, k: int) -> ReplyView {
    reply_to(after_all(records, operations.take(k)), operations[k])
}

/// The operations that create these records, one after the other.
pub open spec fn creations(new_customers: Seq<CustomerView>) -> Seq<Operation> {
    Seq::new(new_customers.len(), |i: int| Operation::Create(new_customers[i]))
}

/// The same creation, `n` times over.
pub open spec fn repeated_creation(new_customer: CustomerView, n: nat) -> Seq<Operation> {
    Seq::new(n, |i: int| Operation::Create(new_customer))
}

/// No operation makes two records share a `guid`.
pub proof fn lemma_operation_keeps_unique(records: Seq<CustomerView>, operation: Operation)
    requires
        guids_unique(records),
    ensures
        guids_unique(after(records, operation)),
{
    match operation {
        Operation::List => {},
        Operation::Create(new_customer) => lemma_create_keeps_unique(records, new_customer),
        Operation::Read(_) => {},
        Operation::Update(updated_customer) => lemma_update_keeps_unique(records, updated_customer),
        Operation::Delete(guid) => lemma_delete_keeps_unique(records, guid),
    }
}

/// A store in which no two records share a `guid` stays so through every
/// sequence of operations, at every point of it.
pub proof fn lemma_operations_keep_unique(records: Seq<CustomerView>, operations: Seq<Operation>)
    requires
        guids_unique(records),
    ensures
        forall|k: int|
            0 <= k <= operations.len() ==> guids_unique(
                #[trigger] after_all(records, operations.take(k)),
            ),
    decreases operations.len(),
{
    assert forall|k: int| 0 <= k <= operations.len() implies guids_unique(
        #[trigger] after_all(records, operations.take(k)),
    ) by {
        if k == 0 {
            assert(operations.take(0).len() == 0);
        } else if k < operations.len() {
            lemma_operations_keep_unique(records, operations.drop_last());
            assert(operations.drop_last().take(k) =~= operations.take(k));
        } else {
            lemma_operations_keep_unique(records, operations.drop_last());
            assert(operations.take(k) =~= operations);
            assert(operations.drop_last().take(k - 1) =~= operations.drop_last());
            lemma_operation_keeps_unique(
                after_all(records, operations.drop_last()),
                operations.last(),
            );
        }
    }
}

/// The creation of a record whose `guid` is already stored is rejected as a
/// conflict and leaves the store as it was, however often it is repeated.
pub proof fn lemma_rejected_creation_repeats(
    records: Seq<CustomerView>,
    new_customer: CustomerView,
    n: nat,
)
    requires
        has_guid(records, new_customer.guid),
    ensures
        after_all(records, repeated_creation(new_customer, n)) == records,
        forall|k: int|
            0 <= k < n ==> #[trigger] reply_at(records, repeated_creation(new_customer, n), k)
                == ReplyView::Conflict,
    decreases n,
{
    let operations = repeated_creation(new_customer, n);
    if n > 0 {
        lemma_rejected_creation_repeats(records, new_customer, (n - 1) as nat);
        assert(operations.drop_last() =~= repeated_creation(new_customer, (n - 1) as nat));
    }
    assert forall|k: int| 0 <= k < n implies #[trigger] reply_at(records, operations, k)
        == ReplyView::Conflict by {
        lemma_rejected_creation_repeats(records, new_customer, k as nat);
        assert(operations.take(k) =~= repeated_creation(new_customer, k as nat));
    }
}

/// A record that was created is read back by its `guid` with every field as
/// it was given. Where the creation was rejected, the read gives what it
/// gave before.
pub proof fn lemma_create_then_read(records: Seq<CustomerView>, new_customer: CustomerView)
    ensures
        create_reply(records, new_customer) == ReplyView::Created ==> read_reply(
            after_create(records, new_customer),
            new_customer.guid,
        ) == ReplyView::Record(new_customer),
        create_reply(records, new_customer) == ReplyView::Conflict ==> read_reply(
            after_create(records, new_customer),
            new_customer.guid,
        ) == read_reply(records, new_customer.guid),
{
    if !has_guid(records, new_customer.guid) {
        let after = after_create(records, new_customer);
        let last = records.len() as int;
        assert(after[last] == new_customer);
        assert forall|j: int| 0 <= j < last implies (#[trigger] after[j]).guid
            != new_customer.guid by {
            assert(after[j] == records[j]);
        }
        assert(is_first_at(after, new_customer.guid, last));
        lemma_first_at_is(after, new_customer.guid, last);
    }
}

/// After the update of a stored record, a read of its `guid` gives the new
/// record as a whole, and nothing of the one that it replaced. An update
/// moves no record and changes no other.
pub proof fn lemma_update_then_read(records: Seq<CustomerView>, updated_customer: CustomerView)
    requires
        has_guid(records, updated_customer.guid),
    ensures
        read_reply(after_update(records, updated_customer), updated_customer.guid)
            == ReplyView::Record(updated_customer),
        after_update(records, updated_customer).len() == records.len(),
        forall|i: int|
            0 <= i < records.len() && i != first_at(records, updated_customer.guid)
                ==> #[trigger] after_update(records, updated_customer)[i] == records[i],
{
    let guid = updated_customer.guid;
    let after = after_update(records, updated_customer);
    lemma_first_at_exists(records, guid);
    let k = first_at(records, guid);
    assert(after[k] == updated_customer);
    assert forall|j: int| 0 <= j < k implies (#[trigger] after[j]).guid != guid by {
        assert(after[j] == records[j]);
    }
    assert(is_first_at(after, guid, k));
    lemma_first_at_is(after, guid, k);
}

/// After a removal a read of the `guid` finds nothing. The removal of a
/// `guid` that is not stored answers not found and leaves the store as it
/// was.
pub proof fn lemma_delete_then_read(records: Seq<CustomerView>, guid: Seq<char>)
    ensures
        read_reply(after_delete(records, guid), guid) == ReplyView::NotFound,
        !has_guid(records, guid) ==> delete_reply(records, guid) == ReplyView::NotFound
            && after_delete(records, guid) == records,
{
    lemma_delete_leaves(records, guid);
}

/// What an operation answered does not depend on the operations that
/// follow it: a listing shows the records as they were when it was made.
pub proof fn lemma_later_operations_leave_replies(
    records: Seq<CustomerView>,
    operations: Seq<Operation>,
    later: Seq<Operation>,
    k: int,
)
    requires
        0 <= k < operations.len(),
    ensures
        reply_at(records, operations + later, k) == reply_at(records, operations, k),
        operations[k] == Operation::List ==> reply_at(records, operations + later, k)
            == ReplyView::Listing(after_all(records, operations.take(k))),
{
    assert((operations + later).take(k) =~= operations.take(k));
    assert((operations + later)[k] == operations[k]);
}

/// Creations of records with `guid`s that differ from one another and from
/// those stored all succeed, in whatever order they are done: the store then
/// holds the earlier records and every new one once, none lost and none
/// twice.
pub proof fn lemma_distinct_creations_all_stored(
    records: Seq<CustomerView>,
    new_customers: Seq<CustomerView>,
)
    requires
        guids_unique(new_customers),
        forall|i: int|
            0 <= i < new_customers.len() ==> !has_guid(records, (#[trigger] new_customers[i]).guid),
    ensures
        after_all(records, creations(new_customers)) == records + new_customers,
        after_all(records, creations(new_customers)).len() == records.len() + new_customers.len(),
        forall|k: int|
            0 <= k < new_customers.len() ==> #[trigger] reply_at(
                records,
                creations(new_customers),
                k,
            ) == ReplyView::Created,
        guids_unique(records) ==> guids_unique(after_all(records, creations(new_customers))),
    decreases new_customers.len(),
{
    let operations = creations(new_customers);
    if new_customers.len() > 0 {
        let earlier = new_customers.drop_last();
        let last = new_customers.last();
        lemma_absent_from_both(records, new_customers, new_customers.len() - 1);
        lemma_distinct_creations_all_stored(records, earlier);
        assert(operations.drop_last() =~= creations(earlier));
        assert((records + earlier).push(last) =~= records + new_customers);
    } else {
        assert(records + new_customers =~= records);
    }
    assert forall|k: int| 0 <= k < new_customers.len() implies #[trigger] reply_at(
        records,
        operations,
        k,
    ) == ReplyView::Created by {
        let before = new_customers.take(k);
        lemma_absent_from_both(records, new_customers, k);
        lemma_distinct_creations_all_stored(records, before);
        assert(operations.take(k) =~= creations(before));
    }
    if guids_unique(records) {
        lemma_operations_keep_unique(records, operations);
        assert(operations.take(operations.len() as int) =~= operations);
    }
}

/// Two orders of the same creations leave the same records in the store: the
/// earlier ones and every new one once. Only the places of the new records
/// follow the order.
pub proof fn lemma_creation_order_keeps_contents(
    records: Seq<CustomerView>,
    one_order: Seq<CustomerView>,
    other_order: Seq<CustomerView>,
)
    requires
        one_order.to_multiset() == other_order.to_multiset(),
        guids_unique(one_order),
        guids_unique(other_order),
        forall|i: int|
            0 <= i < one_order.len() ==> !has_guid(records, (#[trigger] one_order[i]).guid),
        forall|i: int|
            0 <= i < other_order.len() ==> !has_guid(records, (#[trigger] other_order[i]).guid),
    ensures
        after_all(records, creations(one_order)).to_multiset() == after_all(
            records,
            creations(other_order),
        ).to_multiset(),
        after_all(records, creations(one_order)).len() == after_all(
            records,
            creations(other_order),
        ).len(),
{
    lemma_distinct_creations_all_stored(records, one_order);
    lemma_distinct_creations_all_stored(records, other_order);
    vstd::seq_lib::lemma_multiset_commutative(records, one_order);
    vstd::seq_lib::lemma_multiset_commutative(records, other_order);
    one_order.to_multiset_ensures();
    other_order.to_multiset_ensures();
}

/// The `guid` of the new record at `k` is neither stored nor that of a new
/// record before it, and the new records before it differ from one another
/// as all of them do.
proof fn lemma_absent_from_both(
    records: Seq<CustomerView>,
    new_customers: Seq<CustomerView>,
    k: int,
)
    requires
        0 <= k < new_customers.len(),
        guids_unique(new_customers),
        forall|i: int|
            0 <= i < new_customers.len() ==> !has_guid(records, (#[trigger] new_customers[i]).guid),
    ensures
        !has_guid(records + new_customers.take(k), new_customers[k].guid),
        guids_unique(new_customers.take(k)),
        forall|i: int|
            0 <= i < k ==> !has_guid(records, (#[trigger] new_customers.take(k)[i]).guid),
{
    let before = new_customers.take(k);
    let both = records + before;
    let guid = new_customers[k].guid;
    if has_guid(both, guid) {
        let i = choose|i: int| 0 <= i < both.len() && (#[trigger] both[i]).guid == guid;
        if i < records.len() {
            assert(records[i].guid == guid);
        } else {
            assert(both[i] == new_customers[i - records.len()]);
            assert(new_customers[i - records.len()].guid != new_customers[k].guid);
        }
    }
    assert forall|i: int, j: int| 0 <= i < j < before.len() implies #[trigger] before[i].guid
        != #[trigger] before[j].guid by {
        assert(before[i] == new_customers[i]);
        assert(before[j] == new_customers[j]);
    }
    assert forall|i: int| 0 <= i < k implies !has_guid(records, (#[trigger] before[i]).guid) by {
        assert(before[i] == new_customers[i]);
    }
}

} // verus!
