use products::attribute::{AttributeMap, AttributeValue};
use products::batch::batch;
use products::bus::{MemoryBus, VoidBus};
use products::decimal::Decimal;
use products::error::Error;
use products::model::{Event, Product};
use products::pipeline::{decode_records, parse_events};
use products::publisher::{first_failure, plan_submissions, BusPublisher, MAX_BATCH_SIZE};
use products::record::{DynamoDBEvent, DynamoDBRecord, DynamoDBStreamRecord};

fn created(i: u64) -> Event {
    Event::Created {
        product: Product {
            id: format!("test-id-{}", i),
            name: format!("test-name-{}", i),
            price: Decimal::new(false, 10 + i, 0),
        },
    }
}

fn events(n: u64) -> Vec<Event> {
    (0..n).map(created).collect()
}

#[test]
fn test_to_eventbridge() {
    let event = Event::Created {
        product: Product {
            id: "123".to_string(),
            name: "test".to_string(),
            price: Decimal::new(false, 10, 0),
        },
    };
    let entry = event.to_eventbridge("test-bus");
    assert_eq!(entry.event_bus_name, "test-bus");
    assert_eq!(entry.source, "rust-products");
    assert_eq!(entry.detail_type, "ProductCreated");
    assert_eq!(vec![entry.resource.clone()], vec!["123".to_string()]);
    assert_eq!(entry.detail, event);
}

#[test]
fn entries_name_the_variant() {
    let p = Product { id: "9".to_string(), name: "n".to_string(), price: Decimal::new(false, 1, 0) };
    let q = Product { id: "10".to_string(), name: "m".to_string(), price: Decimal::new(false, 2, 0) };
    let updated = Event::Updated { old: p.clone(), new: q };
    let entry = updated.to_eventbridge("bus");
    assert_eq!(entry.detail_type, "ProductUpdated");
    assert_eq!(entry.resource, "10");
    let deleted = Event::Deleted { product: p };
    assert_eq!(deleted.to_eventbridge("bus").detail_type, "ProductDeleted");
    assert_eq!(deleted.to_eventbridge("bus").resource, "9");
}

#[test]
fn batch_counts_for_sizes() {
    for (n, count) in [(0u64, 0usize), (1, 1), (10, 1), (11, 2), (25, 3)] {
        let input = events(n);
        let chunks = batch(&input, 10);
        assert_eq!(chunks.len(), count, "{} events", n);
        assert!(chunks.iter().all(|c| !c.is_empty() && c.len() <= 10));
        let joined: Vec<Event> = chunks.into_iter().flatten().collect();
        assert_eq!(joined, input);
    }
}

#[test]
fn batch_of_three_by_two() {
    let input = events(3);
    let chunks = batch(&input, 2);
    assert_eq!(chunks, vec![vec![created(0), created(1)], vec![created(2)]]);
}

#[test]
fn plan_holds_one_submission_per_batch() {
    let plan = plan_submissions(&events(15), "test-bus");
    assert_eq!(plan.len(), 2);
    assert_eq!(plan[0].len(), MAX_BATCH_SIZE);
    assert_eq!(plan[1].len(), 5);
    assert_eq!(plan[1][0].resource, "test-id-10");
    assert_eq!(plan[1][4].detail, created(14));
}

#[test]
fn first_failure_reports_first_error() {
    assert_eq!(first_failure(&vec![]), Ok(()));
    assert_eq!(first_failure(&vec![Ok(()), Ok(())]), Ok(()));
    assert_eq!(
        first_failure(&vec![Ok(()), Err("b".to_string()), Err("c".to_string())]),
        Err(Error::Publish { batch: 1, message: "b".to_string() })
    );
}

#[test]
fn test_send_events0() {
    let mut publisher = BusPublisher::new(MemoryBus::new(), "test-bus".to_string());
    assert_eq!(publisher.publish_all(&vec![]), Ok(()));
    assert_eq!(publisher.bus.submissions().len(), 0);
}

#[test]
fn publish_fifteen_makes_two_submissions() {
    let mut publisher = BusPublisher::new(MemoryBus::new(), "test-bus".to_string());
    assert_eq!(publisher.publish_all(&events(15)), Ok(()));
    let subs = publisher.bus.submissions();
    assert_eq!(subs.len(), 2);
    assert_eq!(subs[0].0.len(), 10);
    assert_eq!(subs[1].0.len(), 5);
    assert!(publisher.bus.accepted(0) && publisher.bus.accepted(1));
    assert_eq!(subs[0].0[0].event_bus_name, "test-bus");
}

#[test]
fn second_submission_failing_keeps_first_published() {
    let mut publisher = BusPublisher::new(MemoryBus::refusing(1), "test-bus".to_string());
    let result = publisher.publish_all(&events(15));
    assert!(matches!(result, Err(Error::Publish { batch: 1, .. })));
    let subs = publisher.bus.submissions();
    assert_eq!(subs.len(), 2);
    assert_eq!(subs[0].0.len(), 10);
    assert!(publisher.bus.accepted(0));
    assert_eq!(subs[1].0.len(), 5);
    assert!(!publisher.bus.accepted(1));
    assert_eq!(
        result,
        Err(Error::Publish {
            batch: 1,
            message: subs[1].1.clone().unwrap_err(),
        })
    );
}

#[test]
fn first_submission_failing_still_sends_the_rest() {
    let mut publisher = BusPublisher::new(MemoryBus::refusing(0), "b".to_string());
    let result = publisher.publish_all(&events(25));
    assert!(matches!(result, Err(Error::Publish { batch: 0, .. })));
    assert_eq!(publisher.bus.submissions().len(), 3);
}

#[test]
fn void_test_send_event() {
    let mut publisher = BusPublisher::new(VoidBus::new(), "test".to_string());
    let event = Event::Created {
        product: Product {
            id: "123".to_string(),
            name: "test".to_string(),
            price: Decimal::new(false, 10, 0),
        },
    };
    let result = publisher.publish_one(&event);
    assert!(result.is_err());
}

#[test]
fn void_test_send_events() {
    let mut publisher = BusPublisher::new(VoidBus::new(), "test".to_string());
    let event = Event::Created {
        product: Product {
            id: "123".to_string(),
            name: "test".to_string(),
            price: Decimal::new(false, 10, 0),
        },
    };
    let result = publisher.publish_all(&vec![event]);
    assert!(result.is_err());
}

#[test]
fn publish_one_sends_a_single_entry() {
    let mut publisher = BusPublisher::new(MemoryBus::new(), "test-bus".to_string());
    assert_eq!(publisher.publish_one(&created(3)), Ok(()));
    let subs = publisher.bus.submissions();
    assert_eq!(subs.len(), 1);
    assert_eq!(subs[0].0.len(), 1);
    assert_eq!(subs[0].0[0].resource, "test-id-3");
}

fn image(id: &str, price: &str) -> AttributeMap {
    let mut m = AttributeMap::new();
    m.insert("id".to_string(), AttributeValue::S(id.to_string()));
    m.insert("name".to_string(), AttributeValue::S(format!("name-{}", id)));
    m.insert("price".to_string(), AttributeValue::N(price.to_string()));
    m
}

fn insert_record(new_image: AttributeMap) -> DynamoDBRecord {
    DynamoDBRecord {
        aws_region: "us-west-2".to_string(),
        dynamodb: DynamoDBStreamRecord {
            approximate_creation_date_time: None,
            keys: AttributeMap::new(),
            new_image,
            old_image: AttributeMap::new(),
            sequence_number: "111".to_string(),
            size_bytes: 26,
            stream_view_type: "NEW_AND_OLD_IMAGES".to_string(),
        },
        event_id: "1".to_string(),
        event_name: "INSERT".to_string(),
        event_source: "aws:dynamodb".to_string(),
        event_source_arn: "someARN".to_string(),
        event_version: "1.1".to_string(),
    }
}

#[test]
fn malformed_price_stops_before_any_submission() {
    let payload = DynamoDBEvent {
        records: vec![insert_record(image("1", "10.5")), insert_record(image("2", "ten"))],
    };
    let mut publisher = BusPublisher::new(MemoryBus::new(), "test-bus".to_string());
    let result = parse_events(&mut publisher, &payload);
    assert!(matches!(result, Err(Error::Decode { record: 1, .. })));
    assert_eq!(publisher.bus.submissions().len(), 0);
}

#[test]
fn valid_payload_is_published() {
    let payload = DynamoDBEvent {
        records: vec![insert_record(image("1", "10.5")), insert_record(image("2", "3"))],
    };
    let decoded = decode_records(&payload.records).unwrap();
    assert_eq!(decoded.len(), 2);
    let mut publisher = BusPublisher::new(MemoryBus::new(), "test-bus".to_string());
    assert_eq!(parse_events(&mut publisher, &payload), Ok(()));
    let subs = publisher.bus.submissions();
    assert_eq!(subs.len(), 1);
    assert_eq!(subs[0].0.len(), 2);
    assert_eq!(subs[0].0[1].resource, "2");
}

#[test]
fn mod_test_send_event() {
    let mut publisher = BusPublisher::new(MemoryBus::new(), "test-bus".to_string());
    let event = Event::Created {
        product: Product {
            id: "test-id".to_string(),
            name: "test-name".to_string(),
            price: Decimal::new(false, 10, 0),
        },
    };
    publisher.publish_one(&event).unwrap();
    let subs = publisher.bus.submissions();
    assert_eq!(subs.len(), 1);
    assert_eq!(subs[0].0[0].source, "rust-products");
    assert_eq!(subs[0].0[0].resource, "test-id");
    assert_eq!(subs[0].0[0].detail_type, "ProductCreated");
    assert_eq!(subs[0].0[0].event_bus_name, "test-bus");
}

#[test]
fn mod_test_send_events() {
    let mut publisher = BusPublisher::new(MemoryBus::new(), "test-bus".to_string());
    let events = vec![
        Event::Created {
            product: Product {
                id: "test-id".to_string(),
                name: "test-name".to_string(),
                price: Decimal::new(false, 10, 0),
            },
        },
        Event::Deleted {
            product: Product {
                id: "test-id-2".to_string(),
                name: "test-name-2".to_string(),
                price: Decimal::new(false, 20, 0),
            },
        },
    ];
    publisher.publish_all(&events).unwrap();
    let subs = publisher.bus.submissions();
    assert_eq!(subs.len(), 1);
    assert_eq!(subs[0].0[1].detail_type, "ProductDeleted");
    assert_eq!(subs[0].0[1].resource, "test-id-2");
}

#[test]
fn test_send_events15() {
    let mut publisher = BusPublisher::new(MemoryBus::new(), "test-bus".to_string());
    publisher.publish_all(&events(15)).unwrap();
    let subs = publisher.bus.submissions();
    assert_eq!(subs.len(), 2);
    for (i, entry) in subs.iter().flat_map(|s| s.0.iter()).enumerate() {
        assert_eq!(entry.resource, format!("test-id-{}", i));
        assert_eq!(entry.detail, created(i as u64));
    }
}
