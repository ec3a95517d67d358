//! An in-memory store of customer records and the operations a service offers
//! on it: list, create, read, update and delete. Every operation is stated
//! over a mathematical model of the store, a sequence of records in insertion
//! order, and proved against it.

pub mod db;
pub mod handlers;
pub mod history;
pub mod models;
pub mod reply;
