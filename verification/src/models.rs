//! The customer record and its mathematical view.

use vstd::prelude::*;

verus! {

/// Represents a customer
#[derive(Debug)]
pub struct Customer {
    /// A unique identifier for a customer record
    pub guid: String,
    /// First name
    pub first_name: String,
    /// Last name
    pub last_name: String,
    /// Email address
    pub email: String,
    /// Physical address
    pub address: String,
}

/// What a customer record holds, as sequences of characters.
pub struct CustomerView {
    pub guid: Seq<char>,
    pub first_name: Seq<char>,
    pub last_name: Seq<char>,
    pub email: Seq<char>,
    pub address: Seq<char>,
}

impl View for Customer {
    type V = CustomerView;

    open spec fn view(&self) -> CustomerView {
        CustomerView {
            guid: self.guid@,
            first_name: self.first_name@,
            last_name: self.last_name@,
            email: self.email@,
            address: self.address@,
        }
    }
}

impl Clone for Customer {
    /// A copy that holds the same five fields.
    fn clone(&self) -> (copy: Self)
        ensures
            copy == *self,
    {
        Customer {
            guid: self.guid.clone(),
            first_name: self.first_name.clone(),
            last_name: self.last_name.clone(),
            email: self.email.clone(),
            address: self.address.clone(),
        }
    }
}

impl PartialEq for Customer {
    /// Two records are equal where each of the five fields holds the same
    /// text in both.
    fn eq(&self, other: &Customer) -> (same: bool) {
        self.guid == other.guid && self.first_name == other.first_name && self.last_name
            == other.last_name && self.email == other.email && self.address == other.address
    }
}

impl vstd::std_specs::cmp::PartialEqSpecImpl for Customer {
    open spec fn obeys_eq_spec() -> bool {
        true
    }

    open spec fn eq_spec(&self, other: &Customer) -> bool {
        self@ == other@
    }
}

impl Eq for Customer {

}

/// The views of a sequence of records, in the same order.
pub open spec fn views(records: Seq<Customer>) -> Seq<CustomerView> {
    Seq::new(records.len(), |i: int| records[i]@)
}

} // verus!
