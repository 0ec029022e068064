//! The change-data-capture run: decode every record of a payload, then
//! publish the resulting events.
use crate::batch::chunks;
use crate::error::Error;
use crate::model::Event;
use crate::publisher::{
    entries_for, log_since, reports_first_failure, BusPublisher, EventBus, MAX_BATCH_SIZE,
};
use crate::record::{event_of, DynamoDBEvent, DynamoDBRecord};
use vstd::prelude::*;

verus! {

/// Every record of the sequence decodes.
pub open spec fn all_decode(records: Seq<DynamoDBRecord>) -> bool {
    forall|i: int| 0 <= i < records.len() ==> (#[trigger] event_of(records[i])) is Ok
}

/// The events of records that all decode, in order.
pub open spec fn events_of(records: Seq<DynamoDBRecord>) -> Seq<Event> {
    Seq::new(records.len(), |i: int| event_of(records[i])->Ok_0)
}

/// `r` reports the first record that does not decode: its index and its own
/// error.
pub open spec fn first_decode_failure<T>(records: Seq<DynamoDBRecord>, r: Result<T, Error>) -> bool {
    r matches Err(e) && e matches Error::Decode { record, error } && record < records.len()
        && event_of(records[record as int]) == Err::<Event, crate::error::DecodeError>(error)
        && forall|j: int| 0 <= j < record ==> (#[trigger] event_of(records[j])) is Ok
}

/// Decodes every record, in order. Where one does not decode, the error of
/// the first such record is returned with its index, and no event at all.
pub fn decode_records(records: &Vec<DynamoDBRecord>) -> (r: Result<Vec<Event>, Error>)
    ensures
        r is Ok <==> all_decode(records@),
        r matches Ok(events) ==> events@ == events_of(records@),
        r is Err ==> first_decode_failure(records@, r),
{
    let mut events: Vec<Event> = Vec::new();
    let mut i: usize = 0;
    while i < records.len()
        invariant
            i <= records@.len(),
            events@ == events_of(records@.subrange(0, i as int)),
            forall|j: int| 0 <= j < i ==> (#[trigger] event_of(records@[j])) is Ok,
        decreases records@.len() - i,
    {
        match Event::from_dynamodb_record(&records[i]) {
            Ok(e) => {
                events.push(e);
            },
            Err(error) => {
                return Err(Error::Decode { record: i, error });
            },
        }
        i = i + 1;
        assert(events@ =~= events_of(records@.subrange(0, i as int)));
    }
    assert(records@.subrange(0, records@.len() as int) =~= records@);
    Ok(events)
}

/// Runs the pipeline on one payload: decode all records, and only where all
/// decode, publish their events in batches. A decoding failure submits
/// nothing; a publication failure is reported as the publisher reports it.
pub fn parse_events<B: EventBus>(publisher: &mut BusPublisher<B>, event: &DynamoDBEvent) -> (r:
    Result<(), Error>)
    ensures
        final(publisher).bus_name == old(publisher).bus_name,
        !all_decode(event.records@) ==> {
            &&& final(publisher).bus.log() == old(publisher).bus.log()
            &&& first_decode_failure(event.records@, r)
        },
        all_decode(event.records@) ==> ({
            let l0 = old(publisher).bus.log();
            let l1 = final(publisher).bus.log();
            let cs = chunks(events_of(event.records@), MAX_BATCH_SIZE as nat);
            let sent = log_since(l1, l0.len() as int);
            &&& l1.subrange(0, l0.len() as int) == l0
            &&& sent.len() == cs.len()
            &&& forall|i: int|
                0 <= i < sent.len() ==> entries_for(
                    (#[trigger] sent[i]).0,
                    cs[i],
                    old(publisher).bus_name@,
                )
            &&& reports_first_failure(sent, r)
        }),
{
    let events = decode_records(&event.records)?;
    publisher.publish_all(&events)
}

} // verus!
