//! What an operation answers, and the HTTP status that stands for each answer.

use vstd::prelude::*;
use crate::models::{views, Customer, CustomerView};

verus! {

/// The answer of one operation on the store.
#[derive(Debug, PartialEq, Eq)]
pub enum Reply {
    /// Every record of the store, in insertion order.
    Listing(Vec<Customer>),
    /// The record that was asked for.
    Record(Customer),
    /// The record was appended to the store.
    Created,
    /// The record replaced the one with the same `guid`.
    Updated,
    /// The record was removed.
    Deleted,
    /// A record with the same `guid` is already stored.
    Conflict,
    /// No record has the `guid`.
    NotFound,
}

/// The answer of one operation, over the views of the records it carries.
pub enum ReplyView {
    Listing(Seq<CustomerView>),
    Record(CustomerView),
    Created,
    Updated,
    Deleted,
    Conflict,
    NotFound,
}

impl View for Reply {
    type V = ReplyView;

    open spec fn view(&self) -> ReplyView {
        match self {
            Reply::Listing(records) => ReplyView::Listing(views(records@)),
            Reply::Record(record) => ReplyView::Record(record@),
            Reply::Created => ReplyView::Created,
            Reply::Updated => ReplyView::Updated,
            Reply::Deleted => ReplyView::Deleted,
            Reply::Conflict => ReplyView::Conflict,
            Reply::NotFound => ReplyView::NotFound,
        }
    }
}

impl ReplyView {
    /// The HTTP status of an answer: 200 with a body for a listing or a
    /// record, 201 for a creation, 200 for an update, 204 for a removal,
    /// 400 for a conflict and 404 where nothing was found.
    pub open spec fn status(self) -> int {
        match self {
            ReplyView::Listing(_) => 200,
            ReplyView::Record(_) => 200,
            ReplyView::Created => 201,
            ReplyView::Updated => 200,
            ReplyView::Deleted => 204,
            ReplyView::Conflict => 400,
            ReplyView::NotFound => 404,
        }
    }

    /// Whether the operation did what it was asked to do.
    pub open spec fn is_success(self) -> bool {
        !(self is Conflict) && !(self is NotFound)
    }
}

impl Reply {
    /// The HTTP status code that stands for this answer.
    pub fn status_code(&self) -> (code: u16)
        ensures
            code == self@.status(),
            self@.is_success() <==> 200 <= code < 300,
    {
        match self {
            Reply::Listing(_) => 200,
            Reply::Record(_) => 200,
            Reply::Created => 201,
            Reply::Updated => 200,
            Reply::Deleted => 204,
            Reply::Conflict => 400,
            Reply::NotFound => 404,
        }
    }
}

} // verus!
