use products::attribute::{AttributeMap, AttributeValue};
use products::codec::{
    decode_bool, decode_list, decode_map, decode_null, decode_number, decode_number_set,
    decode_string, decode_string_set, encode_bool, encode_list, encode_map, encode_null,
    encode_number, encode_number_set, encode_string, encode_string_set,
};
use products::decimal::Decimal;
use products::error::{DecodeError, FieldError, ProductField};
use products::model::Product;

#[test]
fn attributevalue_get_s() {
    let mut item = AttributeMap::new();
    item.insert("id".to_owned(), AttributeValue::S("foo".to_owned()));

    assert_eq!(item.get("id").and_then(|v| v.as_s()), Some("foo"));
}

#[test]
fn attributevalue_get_s_missing() {
    let mut item = AttributeMap::new();
    item.insert("id".to_owned(), AttributeValue::S("foo".to_owned()));

    assert_eq!(item.get("foo").and_then(|v| v.as_s()), None);
}

#[test]
fn attributevalue_get_n() {
    let mut item = AttributeMap::new();
    item.insert("price".to_owned(), AttributeValue::N("10.0".to_owned()));

    assert_eq!(
        item.get("price").and_then(|v| v.as_n()),
        Some(Decimal::new(false, 10, 0))
    );
}

#[test]
fn attributevalue_get_n_missing() {
    let mut item = AttributeMap::new();
    item.insert("price".to_owned(), AttributeValue::N("10.0".to_owned()));

    assert_eq!(item.get("foo").and_then(|v| v.as_n()), None);
}

fn sample_item(id: &str, name: &str, price: &str) -> AttributeMap {
    let mut value = AttributeMap::new();
    value.insert("id".to_owned(), AttributeValue::S(id.to_owned()));
    value.insert("name".to_owned(), AttributeValue::S(name.to_owned()));
    value.insert("price".to_owned(), AttributeValue::N(price.to_owned()));
    value
}

#[test]
fn product_from_dynamodb() {
    let value = sample_item("id", "name", "1.0");
    let product = Product::from_dynamodb(&value).unwrap();
    assert_eq!(product.id, "id");
    assert_eq!(product.name, "name");
    assert_eq!(product.price.to_text().parse::<f64>().unwrap(), 1.0);
}

#[test]
fn product_to_dynamodb() {
    let product = Product {
        id: "id".to_owned(),
        name: "name".to_owned(),
        price: Decimal::parse("1.5").unwrap(),
    };

    let value = product.to_dynamodb();
    assert_eq!(value.get("id").unwrap().as_s().unwrap(), "id");
    assert_eq!(value.get("name").unwrap().as_s().unwrap(), "name");
    match value.get("price").unwrap() {
        AttributeValue::N(n) => assert_eq!(n, "1.5"),
        _ => panic!("price is not a number"),
    }
}

#[test]
fn test_from_dynamodb() {
    let value = sample_item("id", "name", "1.0");
    let product = Product::from_dynamodb(&value).unwrap();
    assert_eq!(product.id, "id");
    assert_eq!(product.name, "name");
    assert_eq!(product.price.to_text().parse::<f64>().unwrap(), 1.0);
}

#[test]
fn test_to_dynamodb() {
    let product = Product {
        id: "id".to_owned(),
        name: "name".to_owned(),
        price: Decimal::new(false, 15, 1),
    };

    let value = product.to_dynamodb();
    assert_eq!(value.get("id").unwrap().as_s().unwrap(), "id");
    assert_eq!(value.get("name").unwrap().as_s().unwrap(), "name");
    assert_eq!(value.get("price").unwrap().as_n().unwrap(), Decimal::new(false, 15, 1));
    match value.get("price").unwrap() {
        AttributeValue::N(n) => assert_eq!(n, "1.5"),
        _ => panic!("price is not a number"),
    }
}

#[test]
fn product_round_trips_through_its_wire_map() {
    let product = Product {
        id: "p-1".to_owned(),
        name: "Widget".to_owned(),
        price: Decimal::new(true, 1205, 2),
    };
    let value = product.to_dynamodb();
    assert_eq!(Product::from_dynamodb(&value), Ok(product));
}

#[test]
fn product_with_all_fields_decodes_field_for_field() {
    let value = sample_item("1", "a", "10.5");
    assert_eq!(
        Product::from_dynamodb(&value),
        Ok(Product {
            id: "1".to_owned(),
            name: "a".to_owned(),
            price: Decimal::new(false, 105, 1),
        })
    );
}

#[test]
fn product_missing_a_field_names_it() {
    let mut no_id = AttributeMap::new();
    no_id.insert("name".to_owned(), AttributeValue::S("a".to_owned()));
    no_id.insert("price".to_owned(), AttributeValue::N("1".to_owned()));
    assert_eq!(
        Product::from_dynamodb(&no_id),
        Err(DecodeError::Field { field: ProductField::Id, error: FieldError::Missing })
    );

    let mut no_name = AttributeMap::new();
    no_name.insert("id".to_owned(), AttributeValue::S("1".to_owned()));
    no_name.insert("price".to_owned(), AttributeValue::N("1".to_owned()));
    assert_eq!(
        Product::from_dynamodb(&no_name),
        Err(DecodeError::Field { field: ProductField::Name, error: FieldError::Missing })
    );

    let mut no_price = AttributeMap::new();
    no_price.insert("id".to_owned(), AttributeValue::S("1".to_owned()));
    no_price.insert("name".to_owned(), AttributeValue::S("a".to_owned()));
    assert_eq!(
        Product::from_dynamodb(&no_price),
        Err(DecodeError::Field { field: ProductField::Price, error: FieldError::Missing })
    );
}

#[test]
fn product_with_wrong_types_names_the_field() {
    let mut value = sample_item("1", "a", "1");
    value.insert("name".to_owned(), AttributeValue::Bool(true));
    assert_eq!(
        Product::from_dynamodb(&value),
        Err(DecodeError::Field { field: ProductField::Name, error: FieldError::WrongType })
    );
    let mut value = sample_item("1", "a", "1");
    value.insert("price".to_owned(), AttributeValue::S("1".to_owned()));
    assert_eq!(
        Product::from_dynamodb(&value),
        Err(DecodeError::Field { field: ProductField::Price, error: FieldError::WrongType })
    );
    let value = sample_item("1", "a", "1e3");
    assert_eq!(
        Product::from_dynamodb(&value),
        Err(DecodeError::Field { field: ProductField::Price, error: FieldError::BadNumber })
    );
}

#[test]
fn later_insert_replaces_earlier() {
    let mut item = AttributeMap::new();
    item.insert("k".to_owned(), AttributeValue::Bool(false));
    item.insert("k".to_owned(), AttributeValue::Bool(true));
    assert_eq!(item.get("k"), Some(&AttributeValue::Bool(true)));
    assert_eq!(item.into_entries().len(), 1);
}

#[test]
fn scalar_values_round_trip() {
    assert_eq!(decode_bool(Some(&encode_bool(true))), Ok(true));
    assert_eq!(decode_null(Some(&encode_null(true))), Ok(true));
    assert_eq!(decode_string(Some(&encode_string("hé".to_owned()))), Ok("hé".to_owned()));
    let d = Decimal::new(true, 31415, 4);
    let wire = encode_number(&d);
    assert_eq!(wire, AttributeValue::N("-3.1415".to_owned()));
    assert_eq!(decode_number(Some(&wire)), Ok(d));
}

#[test]
fn collection_values_round_trip() {
    let l = encode_list(vec![AttributeValue::Bool(true), AttributeValue::Null(true)]);
    assert_eq!(
        decode_list(Some(&l)),
        Ok(&vec![AttributeValue::Bool(true), AttributeValue::Null(true)])
    );
    let mut m = AttributeMap::new();
    m.insert("a".to_owned(), AttributeValue::S("b".to_owned()));
    let wire = encode_map(m);
    let back = decode_map(Some(&wire)).unwrap();
    assert_eq!(back.get("a"), Some(&AttributeValue::S("b".to_owned())));
    let ss = encode_string_set(vec!["x".to_owned(), "y".to_owned()]);
    assert_eq!(decode_string_set(Some(&ss)), Ok(vec!["x".to_owned(), "y".to_owned()]));
    let ds = vec![Decimal::new(false, 0, 0), Decimal::new(false, 1, 3), Decimal::new(true, 12, 0)];
    let wire = encode_number_set(&ds);
    assert_eq!(
        wire,
        AttributeValue::Ns(vec!["0".to_owned(), "0.001".to_owned(), "-12".to_owned()])
    );
    assert_eq!(decode_number_set(Some(&wire)), Ok(ds));
}

#[test]
fn decoders_report_missing_and_wrong_type() {
    assert_eq!(decode_string(None), Err(FieldError::Missing));
    assert_eq!(decode_string(Some(&AttributeValue::Bool(true))), Err(FieldError::WrongType));
    assert_eq!(decode_number(Some(&AttributeValue::S("1".to_owned()))), Err(FieldError::WrongType));
    assert_eq!(decode_number(Some(&AttributeValue::N("abc".to_owned()))), Err(FieldError::BadNumber));
    assert_eq!(decode_bool(None), Err(FieldError::Missing));
    assert_eq!(decode_null(Some(&AttributeValue::Bool(true))), Err(FieldError::WrongType));
    assert_eq!(decode_list(None), Err(FieldError::Missing));
    assert_eq!(decode_map(Some(&AttributeValue::Null(true))).err(), Some(FieldError::WrongType));
    assert_eq!(decode_string_set(Some(&AttributeValue::Null(true))), Err(FieldError::WrongType));
    assert_eq!(
        decode_number_set(Some(&AttributeValue::Ns(vec!["1".to_owned(), "x".to_owned()]))),
        Err(FieldError::BadNumber)
    );
}

#[test]
fn accessors_pick_their_variant() {
    let ns = AttributeValue::Ns(vec!["1".to_owned(), "bad".to_owned(), "2.50".to_owned()]);
    assert_eq!(ns.as_ns(), None);
    let good = AttributeValue::Ns(vec!["1".to_owned(), "2.50".to_owned()]);
    assert_eq!(good.as_ns(), Some(vec![Decimal::new(false, 1, 0), Decimal::new(false, 25, 1)]));
    assert_eq!(ns.as_s(), None);
    assert_eq!(ns.as_ss(), None);
    assert_eq!(AttributeValue::Bool(true).as_ss(), None);
    assert_eq!(AttributeValue::Ss(vec![]).as_ss(), Some(vec![]));
    let ss = AttributeValue::Ss(vec!["a".to_owned()]);
    assert_eq!(ss.as_ss(), Some(vec!["a".to_owned()]));
    assert_eq!(ss.as_ns(), None);
    assert_eq!(AttributeValue::Bool(false).as_bool(), Some(false));
    assert_eq!(AttributeValue::Null(true).as_null(), Some(true));
    assert_eq!(AttributeValue::Null(true).as_bool(), None);
    assert!(AttributeValue::L(vec![]).as_l().is_some());
    assert!(AttributeValue::M(AttributeMap::new()).as_m().is_some());
    assert!(AttributeValue::S("x".to_owned()).as_m().is_none());
}
