use products::decimal::Decimal;
use products::error::Error;
use products::http::{check_put, delete_reply, get_reply, list_reply, missing_id, put_reply, Reply};
use products::model::{Product, ProductRange};

fn product(id: &str) -> Product {
    Product { id: id.to_string(), name: "name".to_string(), price: Decimal::new(false, 150, 2) }
}

fn message_of(r: &Reply) -> (u16, String) {
    match r {
        Reply::Message { status, message } => (*status, message.clone()),
        _ => panic!("expected a message"),
    }
}

#[test]
fn missing_id_is_bad_request() {
    let r = missing_id();
    assert_eq!(r.status(), 400);
    assert_eq!(message_of(&r), (400, "Missing 'id' parameter in path".to_string()));
}

#[test]
fn put_request_checks() {
    let e = check_put(None, Ok(Some(product("1")))).err().unwrap();
    assert_eq!(message_of(&e).0, 400);
    let e = check_put(Some("1"), Ok(None)).err().unwrap();
    assert_eq!(message_of(&e), (400, "Missing product in request body".to_string()));
    let e = check_put(Some("1"), Err("invalid body".to_string())).err().unwrap();
    assert_eq!(message_of(&e), (400, "Failed to parse product from request body".to_string()));
    let e = check_put(Some("not-the-same-id"), Ok(Some(product("1")))).err().unwrap();
    assert_eq!(
        message_of(&e),
        (400, "Product ID in path does not match product ID in body".to_string())
    );
    assert_eq!(check_put(Some("1"), Ok(Some(product("1")))).ok(), Some(product("1")));
}

#[test]
fn store_outcomes_map_to_statuses() {
    let fail = Err(Error::InternalError("boom".to_string()));
    assert_eq!(message_of(&put_reply(&Ok(()))), (201, "Product created".to_string()));
    assert_eq!(message_of(&put_reply(&fail)).0, 500);
    assert_eq!(message_of(&delete_reply(&Ok(()))), (200, "Product deleted".to_string()));
    assert_eq!(message_of(&delete_reply(&fail)).0, 500);
    assert_eq!(get_reply(Ok(None)).status(), 404);
    assert_eq!(get_reply(Err(Error::SdkError("x".to_string()))).status(), 500);
    match get_reply(Ok(Some(product("7")))) {
        Reply::Found { product: p } => assert_eq!(p, product("7")),
        _ => panic!("expected the product"),
    }
    let page = ProductRange { products: vec![product("1")], next: None };
    match list_reply(Ok(page)) {
        Reply::Page { range } => assert_eq!(range.products.len(), 1),
        _ => panic!("expected a page"),
    }
    assert_eq!(list_reply(Err(Error::SdkError("x".to_string()))).status(), 500);
}
