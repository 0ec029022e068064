//! Change-stream records and their decoding into domain events.
use crate::attribute::AttributeMap;
use crate::codec::product_of;
use crate::decimal::Decimal;
use crate::error::DecodeError;
use crate::model::{Event, Product};
use crate::text::str_eq;
use vstd::prelude::*;

verus! {

/// A payload of the change stream: its records, in stream order.
pub struct DynamoDBEvent {
    pub records: Vec<DynamoDBRecord>,
}

/// One entry of the change stream.
pub struct DynamoDBRecord {
    pub aws_region: String,
    pub dynamodb: DynamoDBStreamRecord,
    pub event_id: String,
    /// `INSERT`, `MODIFY` or `REMOVE`.
    pub event_name: String,
    pub event_source: String,
    pub event_source_arn: String,
    pub event_version: String,
}

/// The data part of a change-stream entry.
pub struct DynamoDBStreamRecord {
    /// Seconds since the epoch, as the stream sends them.
    pub approximate_creation_date_time: Option<Decimal>,
    pub keys: AttributeMap,
    /// The record after the change (inserts and modifications).
    pub new_image: AttributeMap,
    /// The record before the change (modifications and removals).
    pub old_image: AttributeMap,
    pub sequence_number: String,
    pub size_bytes: u64,
    pub stream_view_type: String,
}

/// The event that a change record denotes.
pub open spec fn event_of(r: DynamoDBRecord) -> Result<Event, DecodeError> {
    if r.event_name@ == "INSERT"@ {
        match product_of(r.dynamodb.new_image@) {
            Ok(product) => Ok(Event::Created { product }),
            Err(e) => Err(e),
        }
    } else if r.event_name@ == "MODIFY"@ {
        match product_of(r.dynamodb.old_image@) {
            Err(e) => Err(e),
            Ok(old) => match product_of(r.dynamodb.new_image@) {
                Err(e) => Err(e),
                Ok(new) => Ok(Event::Updated { old, new }),
            },
        }
    } else if r.event_name@ == "REMOVE"@ {
        match product_of(r.dynamodb.old_image@) {
            Ok(product) => Ok(Event::Deleted { product }),
            Err(e) => Err(e),
        }
    } else {
        Err(DecodeError::UnknownKind { kind: r.event_name })
    }
}

/// Every product inside an event has a canonical price.
pub open spec fn event_wf(e: Event) -> bool {
    match e {
        Event::Created { product } => product.price.wf(),
        Event::Updated { old, new } => old.price.wf() && new.price.wf(),
        Event::Deleted { product } => product.price.wf(),
    }
}

/// The three kinds of change differ.
pub proof fn lemma_kinds_differ()
    ensures
        "INSERT"@ != "MODIFY"@,
        "INSERT"@ != "REMOVE"@,
        "MODIFY"@ != "REMOVE"@,
{
    reveal_strlit("INSERT");
    reveal_strlit("MODIFY");
    reveal_strlit("REMOVE");
    assert("INSERT"@[0] != "MODIFY"@[0]);
    assert("INSERT"@[0] != "REMOVE"@[0]);
    assert("MODIFY"@[0] != "REMOVE"@[0]);
}

impl Event {
    /// Decodes a change record: `INSERT` gives `Created` from the new image,
    /// `MODIFY` gives `Updated` from both images, `REMOVE` gives `Deleted` from
    /// the old image. Any other kind is an error, as is an image that does not
    /// decode as a product.
    pub fn from_dynamodb_record(record: &DynamoDBRecord) -> (r: Result<Event, DecodeError>)
        ensures
            r == event_of(*record),
            r matches Ok(e) ==> event_wf(e),
    {
        let kind = record.event_name.as_str();
        if str_eq(kind, "INSERT") {
            let product = Product::from_dynamodb(&record.dynamodb.new_image)?;
            Ok(Event::Created { product })
        } else if str_eq(kind, "MODIFY") {
            let old = Product::from_dynamodb(&record.dynamodb.old_image)?;
            let new = Product::from_dynamodb(&record.dynamodb.new_image)?;
            Ok(Event::Updated { old, new })
        } else if str_eq(kind, "REMOVE") {
            let product = Product::from_dynamodb(&record.dynamodb.old_image)?;
            Ok(Event::Deleted { product })
        } else {
            Err(DecodeError::UnknownKind { kind: record.event_name.clone() })
        }
    }
}

/// A modification whose two images decode gives the update from the old
/// image's product to the new image's product.
pub proof fn law_modify_gives_update(r: DynamoDBRecord)
    requires
        r.event_name@ == "MODIFY"@,
        product_of(r.dynamodb.old_image@) is Ok,
        product_of(r.dynamodb.new_image@) is Ok,
    ensures
        event_of(r) == Ok::<Event, DecodeError>(
            Event::Updated {
                old: product_of(r.dynamodb.old_image@)->Ok_0,
                new: product_of(r.dynamodb.new_image@)->Ok_0,
            },
        ),
{
    lemma_kinds_differ();
}

/// A removal whose old image decodes gives the deletion of that product.
pub proof fn law_remove_gives_delete(r: DynamoDBRecord)
    requires
        r.event_name@ == "REMOVE"@,
        product_of(r.dynamodb.old_image@) is Ok,
    ensures
        event_of(r) == Ok::<Event, DecodeError>(
            Event::Deleted { product: product_of(r.dynamodb.old_image@)->Ok_0 },
        ),
{
    lemma_kinds_differ();
}

/// A record of any other kind than the three fails, naming its kind.
pub proof fn law_unknown_kind_fails(r: DynamoDBRecord)
    requires
        r.event_name@ != "INSERT"@,
        r.event_name@ != "MODIFY"@,
        r.event_name@ != "REMOVE"@,
    ensures
        event_of(r) == Err::<Event, DecodeError>(DecodeError::UnknownKind { kind: r.event_name }),
{
}

} // verus!
