//! Buses that live in memory: one that refuses everything, and one that
//! records what it is sent and can be told to refuse a given submission.
use crate::publisher::{BusEntry, EventBus};
use crate::text::owned;
use vstd::prelude::*;

verus! {

/// A bus that accepts nothing: every submission fails.
pub struct VoidBus {
    attempts: Ghost<Seq<(Seq<BusEntry>, String)>>,
}

impl VoidBus {
    pub fn new() -> (r: VoidBus)
        ensures
            r.log() == Seq::<(Seq<BusEntry>, Result<(), String>)>::empty(),
    {
        let r = VoidBus { attempts: Ghost(Seq::empty()) };
        assert(r.log() =~= Seq::<(Seq<BusEntry>, Result<(), String>)>::empty());
        r
    }
}

/// Every submission that a void bus received was refused.
pub proof fn lemma_void_bus_refuses(bus: VoidBus)
    ensures
        forall|i: int| 0 <= i < bus.log().len() ==> (#[trigger] bus.log()[i]).1 is Err,
{
}

impl EventBus for VoidBus {
    closed spec fn log(&self) -> Seq<(Seq<BusEntry>, Result<(), String>)> {
        self.attempts@.map_values(|a: (Seq<BusEntry>, String)| (a.0, Err::<(), String>(a.1)))
    }

    fn put_events(&mut self, entries: &Vec<BusEntry>) -> (r: Result<(), String>) {
        let reason = owned("the void bus does not accept events");
        self.attempts = Ghost(self.attempts@.push((entries@, reason)));
        assert(self.log() =~= old(self).log().push((entries@, Err::<(), String>(reason))));
        Err(reason)
    }
}

/// A bus in memory that keeps a copy of every submission with its answer. It
/// accepts all of them but the one at the index that it was told to refuse,
/// if any.
pub struct MemoryBus {
    submissions: Vec<(Vec<BusEntry>, Result<(), String>)>,
    refuse: Option<usize>,
}

/// Copies of the entries, field for field.
fn copy_entries(v: &Vec<BusEntry>) -> (r: Vec<BusEntry>)
    ensures
        r@ == v@,
{
    let mut r: Vec<BusEntry> = Vec::new();
    let mut i: usize = 0;
    while i < v.len()
        invariant
            i <= v@.len(),
            r@ == v@.subrange(0, i as int),
        decreases v@.len() - i,
    {
        r.push(v[i].duplicate());
        i = i + 1;
        assert(r@ =~= v@.subrange(0, i as int));
    }
    assert(v@.subrange(0, v@.len() as int) =~= v@);
    r
}

impl MemoryBus {
    /// A bus that accepts every submission.
    pub fn new() -> (r: MemoryBus)
        ensures
            r.log() == Seq::<(Seq<BusEntry>, Result<(), String>)>::empty(),
            r.refused_index() == None::<usize>,
    {
        let r = MemoryBus { submissions: Vec::new(), refuse: None };
        assert(r.log() =~= Seq::<(Seq<BusEntry>, Result<(), String>)>::empty());
        r
    }

    /// A bus that refuses the submission at index `index` (counting from
    /// zero) and accepts all others.
    pub fn refusing(index: usize) -> (r: MemoryBus)
        ensures
            r.log() == Seq::<(Seq<BusEntry>, Result<(), String>)>::empty(),
            r.refused_index() == Some(index),
    {
        let r = MemoryBus { submissions: Vec::new(), refuse: Some(index) };
        assert(r.log() =~= Seq::<(Seq<BusEntry>, Result<(), String>)>::empty());
        r
    }

    pub closed spec fn refused_index(&self) -> Option<usize> {
        self.refuse
    }

    /// Every submission so far, in order, with the bus's answer to it.
    pub fn submissions(&self) -> (r: &Vec<(Vec<BusEntry>, Result<(), String>)>)
        ensures
            r@.len() == self.log().len(),
            forall|i: int|
                0 <= i < r@.len() ==> (#[trigger] r@[i]).0@ == self.log()[i].0 && r@[i].1
                    == self.log()[i].1,
    {
        &self.submissions
    }

    /// Whether the submission at index `i` was accepted.
    pub fn accepted(&self, i: usize) -> (r: bool)
        requires
            i < self.log().len(),
        ensures
            r == self.log()[i as int].1 is Ok,
    {
        self.submissions[i].1.is_ok()
    }
}

impl EventBus for MemoryBus {
    closed spec fn log(&self) -> Seq<(Seq<BusEntry>, Result<(), String>)> {
        self.submissions@.map_values(|p: (Vec<BusEntry>, Result<(), String>)| (p.0@, p.1))
    }

    fn put_events(&mut self, entries: &Vec<BusEntry>) -> (r: Result<(), String>) {
        let index = self.submissions.len();
        let accepted = match self.refuse {
            Some(k) => index != k,
            None => true,
        };
        let (answer, kept): (Result<(), String>, Result<(), String>) = if accepted {
            (Ok(()), Ok(()))
        } else {
            let reason = owned("the memory bus refused this submission");
            let copy = reason.clone();
            (Err(reason), Err(copy))
        };
        self.submissions.push((copy_entries(entries), kept));
        assert(self.log() =~= old(self).log().push((entries@, answer)));
        answer
    }
}

} // verus!
