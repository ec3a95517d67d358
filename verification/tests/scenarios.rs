use customer_store::db::Db;
use customer_store::handlers::{
    create_customer, delete_customer, get_customer, list_customers, update_customer,
};
use customer_store::models::Customer;
use customer_store::reply::Reply;

fn customer(guid: &str, first_name: &str) -> Customer {
    Customer {
        guid: guid.to_string(),
        first_name: first_name.to_string(),
        last_name: "Doe".to_string(),
        email: format!("{}@example.com", first_name.to_lowercase()),
        address: "1 Main Street".to_string(),
    }
}

fn store_with_a() -> Db {
    let mut db = Db::new();
    assert_eq!(create_customer(customer("a", "Jane"), &mut db), Reply::Created);
    db
}

#[test]
fn post_to_empty_store_then_get_returns_that_record() {
    let mut db = Db::new();
    let posted = create_customer(customer("a", "Jane"), &mut db);
    assert_eq!(posted, Reply::Created);
    assert_eq!(posted.status_code(), 201);

    let got = get_customer("a".to_string(), &db);
    assert_eq!(got.status_code(), 200);
    match got {
        Reply::Record(record) => {
            assert_eq!(record.guid, "a");
            assert_eq!(record.first_name, "Jane");
            assert_eq!(record.last_name, "Doe");
            assert_eq!(record.email, "jane@example.com");
            assert_eq!(record.address, "1 Main Street");
        }
        other => panic!("expected the record, got {:?}", other),
    }
}

#[test]
fn post_of_a_stored_guid_is_a_bad_request() {
    let mut db = store_with_a();
    let again = create_customer(customer("a", "Janet"), &mut db);
    assert_eq!(again, Reply::Conflict);
    assert_eq!(again.status_code(), 400);
    assert_eq!(db.len(), 1);
    assert_eq!(list_customers(&db), Reply::Listing(vec![customer("a", "Jane")]));
}

#[test]
fn put_of_a_stored_guid_replaces_the_record() {
    let mut db = store_with_a();
    let put = update_customer(customer("a", "NewName"), &mut db);
    assert_eq!(put, Reply::Updated);
    assert_eq!(put.status_code(), 200);
    match get_customer("a".to_string(), &db) {
        Reply::Record(record) => assert_eq!(record.first_name, "NewName"),
        other => panic!("expected the record, got {:?}", other),
    }
}

#[test]
fn get_and_delete_on_an_empty_store_are_not_found() {
    let mut db = Db::new();
    let got = get_customer("x".to_string(), &db);
    assert_eq!(got, Reply::NotFound);
    assert_eq!(got.status_code(), 404);
    let deleted = delete_customer("x".to_string(), &mut db);
    assert_eq!(deleted, Reply::NotFound);
    assert_eq!(deleted.status_code(), 404);
    assert_eq!(db.len(), 0);
}

#[test]
fn delete_of_a_stored_guid_then_get_and_list() {
    let mut db = store_with_a();
    let deleted = delete_customer("a".to_string(), &mut db);
    assert_eq!(deleted, Reply::Deleted);
    assert_eq!(deleted.status_code(), 204);

    let got = get_customer("a".to_string(), &db);
    assert_eq!(got, Reply::NotFound);
    assert_eq!(got.status_code(), 404);

    let listed = list_customers(&db);
    assert_eq!(listed.status_code(), 200);
    assert_eq!(listed, Reply::Listing(vec![]));
}
