//! Publication of events to an event bus, in batches that the bus accepts.
use crate::batch::{batch, chunk_count, chunks};
use crate::error::Error;
use crate::model::Event;
use crate::text::owned;
use vstd::prelude::*;

verus! {

/// The most entries that the bus takes in one submission.
pub const MAX_BATCH_SIZE: usize = 10;

/// One entry of a submission to the bus.
#[derive(Clone, Debug, PartialEq)]
pub struct BusEntry {
    /// The fixed source identifier of this service.
    pub source: String,
    /// `ProductCreated`, `ProductUpdated` or `ProductDeleted`.
    pub detail_type: String,
    /// The id of the product concerned: the entry's one resource.
    pub resource: String,
    /// The event itself; it travels as its JSON form, tagged by `type`.
    pub detail: Event,
    pub event_bus_name: String,
}

/// The source identifier that every entry carries.
pub open spec fn event_source() -> Seq<char> {
    "rust-products"@
}

/// The detail type that names an event's variant on the bus.
pub open spec fn detail_type_of(e: Event) -> Seq<char> {
    match e {
        Event::Created { .. } => "ProductCreated"@,
        Event::Updated { .. } => "ProductUpdated"@,
        Event::Deleted { .. } => "ProductDeleted"@,
    }
}

/// `entry` is the bus entry of event `e` on the bus named `bus_name`.
pub open spec fn entry_for(entry: BusEntry, e: Event, bus_name: Seq<char>) -> bool {
    &&& entry.source@ == event_source()
    &&& entry.detail_type@ == detail_type_of(e)
    &&& entry.resource@ == e.subject().id@
    &&& entry.detail == e
    &&& entry.event_bus_name@ == bus_name
}

/// `entries` are the bus entries of `events`, one for one, in order.
pub open spec fn entries_for(entries: Seq<BusEntry>, events: Seq<Event>, bus_name: Seq<char>) -> bool {
    &&& entries.len() == events.len()
    &&& forall|i: int| 0 <= i < entries.len() ==> entry_for(#[trigger] entries[i], events[i], bus_name)
}

impl Event {
    /// The bus entry of the event.
    pub fn to_eventbridge(&self, bus_name: &str) -> (r: BusEntry)
        ensures
            entry_for(r, *self, bus_name@),
    {
        let detail_type = match self {
            Event::Created { .. } => owned("ProductCreated"),
            Event::Updated { .. } => owned("ProductUpdated"),
            Event::Deleted { .. } => owned("ProductDeleted"),
        };
        BusEntry {
            source: owned("rust-products"),
            detail_type,
            resource: owned(self.id()),
            detail: self.duplicate(),
            event_bus_name: owned(bus_name),
        }
    }
}

impl BusEntry {
    /// A copy of the entry, field for field.
    pub fn duplicate(&self) -> (r: BusEntry)
        ensures
            r == *self,
    {
        BusEntry {
            source: self.source.clone(),
            detail_type: self.detail_type.clone(),
            resource: self.resource.clone(),
            detail: self.detail.duplicate(),
            event_bus_name: self.event_bus_name.clone(),
        }
    }
}

/// The submissions that publishing `events` makes: one per batch of at most
/// `MAX_BATCH_SIZE` events, in order, each holding the entries of its events.
pub fn plan_submissions(events: &Vec<Event>, bus_name: &str) -> (r: Vec<Vec<BusEntry>>)
    ensures
        r@.len() == chunk_count(events@.len(), MAX_BATCH_SIZE as nat),
        forall|i: int|
            0 <= i < r@.len() ==> entries_for(
                (#[trigger] r@[i])@,
                chunks(events@, MAX_BATCH_SIZE as nat)[i],
                bus_name@,
            ),
{
    let batches = batch(events, MAX_BATCH_SIZE);
    let ghost cs = chunks(events@, MAX_BATCH_SIZE as nat);
    assert(batches@.len() == cs.len()) by {
        assert(crate::batch::views(batches@).len() == batches@.len());
    }
    let mut r: Vec<Vec<BusEntry>> = Vec::new();
    let mut i: usize = 0;
    while i < batches.len()
        invariant
            crate::batch::views(batches@) == cs,
            batches@.len() == cs.len(),
            cs.len() == chunk_count(events@.len(), MAX_BATCH_SIZE as nat),
            i <= batches@.len(),
            r@.len() == i,
            forall|k: int| 0 <= k < i ==> entries_for((#[trigger] r@[k])@, cs[k], bus_name@),
        decreases batches@.len() - i,
    {
        let chunk = &batches[i];
        assert(chunk@ == cs[i as int]);
        let mut entries: Vec<BusEntry> = Vec::new();
        let mut j: usize = 0;
        while j < chunk.len()
            invariant
                j <= chunk@.len(),
                entries@.len() == j,
                forall|q: int| 0 <= q < j ==> entry_for(#[trigger] entries@[q], chunk@[q], bus_name@),
            decreases chunk@.len() - j,
        {
            entries.push(chunk[j].to_eventbridge(bus_name));
            j = j + 1;
        }
        r.push(entries);
        i = i + 1;
    }
    r
}

/// The outcome of a set of submissions: success where every one succeeded,
/// else the error of the first that failed, with its index.
pub fn first_failure(results: &Vec<Result<(), String>>) -> (r: Result<(), Error>)
    ensures
        r is Ok <==> forall|i: int| 0 <= i < results@.len() ==> (#[trigger] results@[i]) is Ok,
        r matches Err(e) ==> e matches Error::Publish { batch, message } && batch
            < results@.len() && results@[batch as int] == Err::<(), String>(message) && forall|
            j: int,
        | 0 <= j < batch ==> (#[trigger] results@[j]) is Ok,
{
    let mut i: usize = 0;
    while i < results.len()
        invariant
            i <= results@.len(),
            forall|j: int| 0 <= j < i ==> (#[trigger] results@[j]) is Ok,
        decreases results@.len() - i,
    {
        match &results[i] {
            Err(message) => {
                return Err(Error::Publish { batch: i, message: message.clone() });
            },
            Ok(()) => {},
        }
        i = i + 1;
    }
    Ok(())
}

/// A bus that takes submissions of entries. Its log lists every submission
/// made to it, in order, with what the bus answered: `Ok`, or `Err` with its
/// reason for not accepting the entries.
pub trait EventBus {
    spec fn log(&self) -> Seq<(Seq<BusEntry>, Result<(), String>)>;

    /// Submits the entries; `Err` carries the bus's reason for not accepting
    /// them.
    fn put_events(&mut self, entries: &Vec<BusEntry>) -> (r: Result<(), String>)
        ensures
            final(self).log() == old(self).log().push((entries@, r)),
    ;
}

/// The submissions of a log from index `from` on.
pub open spec fn log_since(
    log: Seq<(Seq<BusEntry>, Result<(), String>)>,
    from: int,
) -> Seq<(Seq<BusEntry>, Result<(), String>)> {
    log.subrange(from, log.len() as int)
}

/// The outcome that a run of submissions reports: success where the bus
/// accepted every one, else the first answer that was an error, with the
/// index of its submission and the bus's reason unchanged.
pub open spec fn reports_first_failure(
    sent: Seq<(Seq<BusEntry>, Result<(), String>)>,
    r: Result<(), Error>,
) -> bool {
    &&& (r is Ok <==> forall|i: int| 0 <= i < sent.len() ==> (#[trigger] sent[i]).1 is Ok)
    &&& (r matches Err(e) ==> e matches Error::Publish { batch, message } && batch < sent.len()
        && sent[batch as int].1 == Err::<(), String>(message) && forall|j: int|
        0 <= j < batch ==> (#[trigger] sent[j]).1 is Ok)
}

/// Publishes events to a bus under the bus's name.
pub struct BusPublisher<B: EventBus> {
    pub bus: B,
    pub bus_name: String,
}

impl<B: EventBus> BusPublisher<B> {
    pub fn new(bus: B, bus_name: String) -> (r: Self)
        ensures
            r.bus == bus,
            r.bus_name == bus_name,
    {
        BusPublisher { bus, bus_name }
    }

    /// Submits one event on its own.
    pub fn publish_one(&mut self, event: &Event) -> (r: Result<(), Error>)
        ensures
            final(self).bus_name == old(self).bus_name,
            final(self).bus.log().len() == old(self).bus.log().len() + 1,
            final(self).bus.log().subrange(0, old(self).bus.log().len() as int) == old(
                self,
            ).bus.log(),
            final(self).bus.log().last().0.len() == 1,
            entry_for(final(self).bus.log().last().0[0], *event, old(self).bus_name@),
            reports_first_failure(seq![final(self).bus.log().last()], r),
    {
        let mut entries: Vec<BusEntry> = Vec::new();
        entries.push(event.to_eventbridge(self.bus_name.as_str()));
        let ghost l0 = self.bus.log();
        let res = self.bus.put_events(&entries);
        assert(self.bus.log().subrange(0, l0.len() as int) =~= l0);
        let ghost sent = seq![self.bus.log().last()];
        assert(sent[0].1 == res);
        match res {
            Ok(()) => Ok(()),
            Err(message) => Err(Error::Publish { batch: 0, message }),
        }
    }

    /// Submits every batch of the events, then reports success where all were
    /// accepted, else the first batch that was not. Batches accepted before a
    /// failure stay published.
    pub fn publish_all(&mut self, events: &Vec<Event>) -> (r: Result<(), Error>)
        ensures
            final(self).bus_name == old(self).bus_name,
            ({
                let l0 = old(self).bus.log();
                let l1 = final(self).bus.log();
                let cs = chunks(events@, MAX_BATCH_SIZE as nat);
                let sent = log_since(l1, l0.len() as int);
                &&& l1.subrange(0, l0.len() as int) == l0
                &&& sent.len() == cs.len()
                &&& forall|i: int|
                    0 <= i < sent.len() ==> entries_for(
                        (#[trigger] sent[i]).0,
                        cs[i],
                        old(self).bus_name@,
                    )
                &&& reports_first_failure(sent, r)
            }),
    {
        let plan = plan_submissions(events, self.bus_name.as_str());
        let ghost l0 = self.bus.log();
        let ghost cs = chunks(events@, MAX_BATCH_SIZE as nat);
        let mut results: Vec<Result<(), String>> = Vec::new();
        let mut i: usize = 0;
        assert(log_since(self.bus.log(), l0.len() as int) =~= Seq::<
            (Seq<BusEntry>, Result<(), String>),
        >::empty());
        while i < plan.len()
            invariant
                i <= plan@.len(),
                plan@.len() == cs.len(),
                forall|k: int|
                    0 <= k < plan@.len() ==> entries_for(
                        (#[trigger] plan@[k])@,
                        cs[k],
                        self.bus_name@,
                    ),
                self.bus_name == old(self).bus_name,
                l0 == old(self).bus.log(),
                self.bus.log().subrange(0, l0.len() as int) == l0,
                self.bus.log().len() == l0.len() + i,
                results@.len() == i,
                forall|k: int|
                    0 <= k < i ==> (#[trigger] log_since(self.bus.log(), l0.len() as int)[k]).0
                        == plan@[k]@,
                forall|k: int|
                    0 <= k < i ==> (#[trigger] log_since(self.bus.log(), l0.len() as int)[k]).1
                        == results@[k],
            decreases plan@.len() - i,
        {
            let ghost before = self.bus.log();
            let res = self.bus.put_events(&plan[i]);
            results.push(res);
            i = i + 1;
            proof {
                let l1 = self.bus.log();
                assert(l1.subrange(0, before.len() as int) == before);
                assert(l1.subrange(0, l0.len() as int) =~= l0) by {
                    assert(l1.subrange(0, l0.len() as int) =~= before.subrange(0, l0.len() as int));
                }
                assert forall|k: int| 0 <= k < i implies (#[trigger] log_since(l1, l0.len() as int)[k]).0
                    == plan@[k]@ && log_since(l1, l0.len() as int)[k].1 == results@[k] by {
                    if k < i - 1 {
                        assert(log_since(l1, l0.len() as int)[k] == log_since(before, l0.len() as int)[k]);
                    }
                }
            }
        }
        let r = first_failure(&results);
        proof {
            let sent = log_since(self.bus.log(), l0.len() as int);
            assert(sent.len() == cs.len());
            assert forall|k: int| 0 <= k < sent.len() implies entries_for(
                (#[trigger] sent[k]).0,
                cs[k],
                old(self).bus_name@,
            ) by {
                assert(sent[k].0 == plan@[k]@);
            }
            assert forall|k: int| 0 <= k < sent.len() implies (#[trigger] sent[k]).1
                == results@[k] by {}
            if r is Ok {
                assert forall|k: int| 0 <= k < sent.len() implies (#[trigger] sent[k]).1 is Ok by {
                    assert(results@[k] is Ok);
                }
            } else {
                let b = r->Err_0->Publish_batch;
                assert(sent[b as int].1 == results@[b as int]);
                assert forall|j: int| 0 <= j < b implies (#[trigger] sent[j]).1 is Ok by {
                    assert(results@[j] is Ok);
                }
            }
        }
        r
    }
}

} // verus!
