use products::decimal::Decimal;
use products::model::Product;
use products::attribute::{AttributeMap, AttributeValue};
use products::store::{key_of, page_from_items, MemoryStore};

fn product(id: &str, name: &str, cents: u64) -> Product {
    Product { id: id.to_string(), name: name.to_string(), price: Decimal::new(false, cents, 2) }
}

#[test]
fn memory_store_starts_empty() {
    let store = MemoryStore::new();
    let range = store.all(None).unwrap();
    assert!(range.products.is_empty());
    assert_eq!(range.next, None);
    assert_eq!(store.get("1").unwrap(), None);
}

#[test]
fn memory_store_put_then_get() {
    let mut store = MemoryStore::new();
    store.put(&product("1", "one", 100)).unwrap();
    store.put(&product("2", "two", 250)).unwrap();
    assert_eq!(store.get("1").unwrap(), Some(product("1", "one", 100)));
    assert_eq!(store.get("2").unwrap(), Some(product("2", "two", 250)));
    assert_eq!(store.get("3").unwrap(), None);
    assert_eq!(store.all(None).unwrap().products.len(), 2);
}

#[test]
fn memory_store_put_replaces_same_id() {
    let mut store = MemoryStore::new();
    store.put(&product("1", "one", 100)).unwrap();
    store.put(&product("1", "uno", 199)).unwrap();
    let range = store.all(None).unwrap();
    assert_eq!(range.products, vec![product("1", "uno", 199)]);
}

#[test]
fn memory_store_delete() {
    let mut store = MemoryStore::new();
    store.put(&product("1", "one", 100)).unwrap();
    store.put(&product("2", "two", 200)).unwrap();
    store.delete("1").unwrap();
    assert_eq!(store.get("1").unwrap(), None);
    assert_eq!(store.get("2").unwrap(), Some(product("2", "two", 200)));
    store.delete("missing").unwrap();
    assert_eq!(store.all(None).unwrap().products, vec![product("2", "two", 200)]);
}

#[test]
fn rounding_to_cents_goes_half_away_from_zero() {
    let cases = [
        ("1.005", "1.01"),
        ("1.004", "1"),
        ("-2.675", "-2.68"),
        ("0.001", "0"),
        ("10.999", "11"),
        ("3.14", "3.14"),
        ("7", "7"),
        ("0.0000000000000000000000000009", "0"),
    ];
    for (input, expected) in cases {
        let d = Decimal::parse(input).unwrap();
        assert_eq!(d.round_to_cents().to_text(), expected, "{}", input);
    }
}

#[test]
fn put_product_rounds_the_price() {
    let mut store = MemoryStore::new();
    let p = Product {
        id: "1".to_string(),
        name: "one".to_string(),
        price: Decimal::parse("12.345").unwrap(),
    };
    products::domain::put_product(&mut store, &p).unwrap();
    let stored = store.get("1").unwrap().unwrap();
    assert_eq!(stored.price, Decimal::new(false, 1235, 2));
    assert_eq!(stored.name, "one");
}

#[test]
fn domain_operations_go_through_the_store() {
    let mut store = MemoryStore::new();
    products::domain::put_product(&mut store, &product("a", "alpha", 105)).unwrap();
    assert_eq!(
        products::domain::get_product(&store, "a").unwrap(),
        Some(product("a", "alpha", 105))
    );
    assert_eq!(products::domain::get_products(&store, None).unwrap().products.len(), 1);
    products::domain::delete_product(&mut store, "a").unwrap();
    assert_eq!(products::domain::get_product(&store, "a").unwrap(), None);
}

fn product_0() -> Product {
    Product { id: "1".to_string(), name: "foo".to_string(), price: Decimal::new(false, 10, 0) }
}

fn product_1() -> Product {
    Product { id: "2".to_string(), name: "foo".to_string(), price: Decimal::new(false, 10, 0) }
}

#[test]
fn test_new() {
    let store = MemoryStore::new();
    assert_eq!(store.len(), 0);
}

#[test]
fn memory_test_all_empty() {
    let store = MemoryStore::new();
    let all = store.all(None).unwrap();
    assert_eq!(all.products.len(), 0);
}

#[test]
fn test_all1() {
    let product0 = product_0();
    let mut store = MemoryStore::new();
    store.put(&product0).unwrap();
    let all = store.all(None).unwrap();
    assert_eq!(all.products.len(), 1);
    assert_eq!(all.products[0], product0);
}

#[test]
fn test_all2() {
    let product0 = product_0();
    let product1 = product_1();
    let mut store = MemoryStore::new();
    store.put(&product0).unwrap();
    store.put(&product1).unwrap();
    let all = store.all(None).unwrap();
    assert_eq!(all.products.len(), 2);
    assert!(all.products.contains(&product0));
    assert!(all.products.contains(&product1));
}

#[test]
fn memory_test_delete() {
    let product0 = product_0();
    let mut store = MemoryStore::new();
    store.put(&product0).unwrap();
    store.delete(&product0.id).unwrap();
    assert_eq!(store.len(), 0);
    assert_eq!(store.get(&product0.id).unwrap(), None);
}

#[test]
fn test_delete2() {
    let product0 = product_0();
    let product1 = product_1();
    let mut store = MemoryStore::new();
    store.put(&product0).unwrap();
    store.put(&product1).unwrap();
    store.delete(&product0.id).unwrap();
    assert_eq!(store.len(), 1);
    assert_eq!(store.get(&product0.id).unwrap(), None);
    assert_eq!(store.get(&product1.id).unwrap(), Some(product1));
}

#[test]
fn memory_test_get() {
    let product0 = product_0();
    let mut store = MemoryStore::new();
    store.put(&product0).unwrap();
    let product = store.get(&product0.id).unwrap();
    assert_eq!(product, Some(product0));
}

#[test]
fn memory_test_put() {
    let mut store = MemoryStore::new();
    let product0 = product_0();
    store.put(&product0).unwrap();
    assert_eq!(store.len(), 1);
    assert_eq!(store.get(&product0.id).unwrap(), Some(product0));
}

#[test]
fn test_put2() {
    let mut store = MemoryStore::new();
    let product0 = product_0();
    let product1 = product_1();
    store.put(&product0).unwrap();
    store.put(&product1).unwrap();
    assert_eq!(store.len(), 2);
    assert_eq!(store.get(&product0.id).unwrap(), Some(product0));
    assert_eq!(store.get(&product1.id).unwrap(), Some(product1));
}

#[test]
fn page_from_scan_items() {
    let items = vec![product_0().to_dynamodb(), product_1().to_dynamodb()];
    let last = key_of("2");
    let page = page_from_items(&items, Some(&last)).unwrap();
    assert_eq!(page.products, vec![product_0(), product_1()]);
    assert_eq!(page.next, Some("2".to_string()));
    let page = page_from_items(&vec![], None).unwrap();
    assert!(page.products.is_empty());
    assert_eq!(page.next, None);
    let mut bad = AttributeMap::new();
    bad.insert("id".to_string(), AttributeValue::S("3".to_string()));
    assert!(matches!(
        page_from_items(&vec![product_0().to_dynamodb(), bad], None),
        Err(products::error::Error::Decode { record: 1, .. })
    ));
    assert!(matches!(
        page_from_items(&items, Some(&AttributeMap::new())),
        Err(products::error::Error::InternalError(_))
    ));
}
