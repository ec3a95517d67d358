//! The store: customer records in insertion order, and what can be said of
//! such a sequence.

use vstd::prelude::*;
use crate::models::{views, Customer, CustomerView};

verus! {

/// Represents an in memory data store of customer data
#[derive(Debug)]
pub struct Db {
    /// The records, oldest first.
    pub customers: Vec<Customer>,
}

impl View for Db {
    type V = Seq<CustomerView>;

    open spec fn view(&self) -> Seq<CustomerView> {
        views(self.customers@)
    }
}

impl Db {
    /// A store without records.
    pub fn new() -> (db: Db)
        ensures
            db@ == Seq::<CustomerView>::empty(),
            guids_unique(db@),
    {
        Db { customers: Vec::new() }
    }

    /// The number of records.
    pub fn len(&self) -> (n: usize)
        ensures
            n == self@.len(),
    {
        self.customers.len()
    }

    /// Scans the records from the oldest on and gives the index of the first
    /// one with this `guid`, or `None` where no record has it.
    pub fn position(&self, guid: &String) -> (found: Option<usize>)
        ensures
            match found {
                Some(i) => is_first_at(self@, guid@, i as int),
                None => !has_guid(self@, guid@),
            },
    {
        let mut i: usize = 0;
        while i < self.customers.len()
            invariant
                i <= self.customers.len(),
                forall|j: int| 0 <= j < i ==> (#[trigger] self@[j]).guid != guid@,
            decreases self.customers.len() - i,
        {
            if self.customers[i].guid == *guid {
                return Some(i);
            }
            i += 1;
        }
        None
    }
}

/// Some record of `records` has this `guid`.
pub open spec fn has_guid(records: Seq<CustomerView>, guid: Seq<char>) -> bool {
    exists|i: int| 0 <= i < records.len() && (#[trigger] records[i]).guid == guid
}

/// The record at `i` has this `guid`, and no record before it has.
pub open spec fn is_first_at(records: Seq<CustomerView>, guid: Seq<char>, i: int) -> bool {
    &&& 0 <= i < records.len()
    &&& records[i].guid == guid
    &&& forall|j: int| 0 <= j < i ==> (#[trigger] records[j]).guid != guid
}

/// The index of the first record with this `guid`, where there is one.
pub open spec fn first_at(records: Seq<CustomerView>, guid: Seq<char>) -> int {
    choose|i: int| is_first_at(records, guid, i)
}

/// No two records share a `guid`.
pub open spec fn guids_unique(records: Seq<CustomerView>) -> bool {
    forall|i: int, j: int|
        0 <= i < j < records.len() ==> (#[trigger] records[i]).guid != (#[trigger] records[j]).guid
}

/// There is only one first record with a `guid`: where `i` is such an index,
/// `first_at` is `i`.
pub proof fn lemma_first_at_is(records: Seq<CustomerView>, guid: Seq<char>, i: int)
    requires
        is_first_at(records, guid, i),
    ensures
        first_at(records, guid) == i,
        has_guid(records, guid),
{
    let k = first_at(records, guid);
    assert(is_first_at(records, guid, k));
    if k < i {
        assert(records[k].guid != guid);
    }
    if i < k {
        assert(records[i].guid != guid);
    }
}

/// The record at `bound` has the `guid`, so one record is the first to have
/// it.
proof fn lemma_first_below(records: Seq<CustomerView>, guid: Seq<char>, bound: int)
    requires
        0 <= bound < records.len(),
        records[bound].guid == guid,
    ensures
        exists|i: int| is_first_at(records, guid, i),
    decreases bound,
{
    if exists|j: int| 0 <= j < bound && (#[trigger] records[j]).guid == guid {
        let j = choose|j: int| 0 <= j < bound && (#[trigger] records[j]).guid == guid;
        lemma_first_below(records, guid, j);
    } else {
        assert(is_first_at(records, guid, bound));
    }
}

/// Where some record has the `guid`, `first_at` is the index of the first.
pub proof fn lemma_first_at_exists(records: Seq<CustomerView>, guid: Seq<char>)
    requires
        has_guid(records, guid),
    ensures
        is_first_at(records, guid, first_at(records, guid)),
{
    let j = choose|j: int| 0 <= j < records.len() && (#[trigger] records[j]).guid == guid;
    lemma_first_below(records, guid, j);
}

/// What was found where the snapshot of the store is kept.
#[derive(Debug)]
pub enum Snapshot {
    /// There is no snapshot.
    Absent,
    /// The snapshot held these records, in this order.
    Records(Vec<Customer>),
    /// There is a snapshot, but it is not a list of customer records; the
    /// text says what is wrong with it.
    Corrupt(String),
}

/// Why the store could not be set up.
#[derive(Debug, PartialEq, Eq)]
pub enum StartupError {
    /// The snapshot is not a list of customer records; the text says what is
    /// wrong with it.
    CorruptSnapshot(String),
}

impl StartupError {
    /// What is wrong with the snapshot, as the one who read it said.
    pub fn reason(&self) -> (text: String)
        ensures
            self matches StartupError::CorruptSnapshot(given) && text@ == given@,
    {
        match self {
            StartupError::CorruptSnapshot(given) => given.clone(),
        }
    }
}

/// Initializes the data store
///
/// Without a snapshot the store starts empty. With one it starts with the
/// records of the snapshot, all of them and in their order. A snapshot that
/// is not a list of customer records is an error: the store is not set up,
/// neither empty nor with a part of the records.
pub fn init_db(snapshot: Snapshot) -> (started: Result<Db, StartupError>)
    ensures
        match snapshot {
            Snapshot::Absent => started matches Ok(db) && db@ == Seq::<CustomerView>::empty()
                && guids_unique(db@),
            Snapshot::Records(records) => started matches Ok(db) && db@ == views(records@),
            Snapshot::Corrupt(reason) => started matches Err(StartupError::CorruptSnapshot(given))
                && given@ == reason@,
        },
{
    match snapshot {
        Snapshot::Absent => Ok(Db::new()),
        Snapshot::Records(records) => Ok(Db { customers: records }),
        Snapshot::Corrupt(reason) => Err(StartupError::CorruptSnapshot(reason)),
    }
}

} // verus!
