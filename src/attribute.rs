//! The wire representation of a stored record: a recursive tagged value per
//! field, and the map from field names to such values.
use crate::decimal::{parse_decimal, Decimal};
use vstd::prelude::*;

verus! {

/// One field's value on the wire. Numbers keep their decimal text and are read
/// on demand.
#[derive(Debug, PartialEq)]
pub enum AttributeValue {
    Bool(bool),
    L(Vec<AttributeValue>),
    M(AttributeMap),
    N(String),
    Ns(Vec<String>),
    Null(bool),
    S(String),
    Ss(Vec<String>),
}

/// A map from field names to wire values. An insertion under a name that is
/// already there replaces its value.
#[derive(Debug, PartialEq)]
pub struct AttributeMap {
    entries: Vec<(String, AttributeValue)>,
}

/// The map that a list of insertions builds, the later winning.
pub open spec fn entries_map(s: Seq<(String, AttributeValue)>) -> Map<Seq<char>, AttributeValue>
    decreases s.len(),
{
    if s.len() == 0 {
        Map::empty()
    } else {
        entries_map(s.drop_last()).insert(s.last().0@, s.last().1)
    }
}

/// The value under `k`, if any.
pub open spec fn lookup(m: Map<Seq<char>, AttributeValue>, k: Seq<char>) -> Option<AttributeValue> {
    if m.contains_key(k) {
        Some(m[k])
    } else {
        None
    }
}

/// Where no entry from `j` on carries key `k`, the map reads at `k` as the
/// prefix before `j` does.
proof fn lemma_entries_suffix(s: Seq<(String, AttributeValue)>, j: int, k: Seq<char>)
    requires
        0 <= j <= s.len(),
        forall|q: int| j <= q < s.len() ==> s[q].0@ != k,
    ensures
        lookup(entries_map(s), k) == lookup(entries_map(s.subrange(0, j)), k),
    decreases s.len(),
{
    if s.len() > j {
        lemma_entries_suffix(s.drop_last(), j, k);
        assert(s.drop_last().subrange(0, j) =~= s.subrange(0, j));
    } else {
        assert(s.subrange(0, j) =~= s);
    }
}

/// Overwriting the last entry under a key sets the map's value there.
proof fn lemma_entries_update(s: Seq<(String, AttributeValue)>, j: int, e: (String, AttributeValue))
    requires
        0 <= j < s.len(),
        s[j].0@ == e.0@,
        forall|q: int| j < q < s.len() ==> s[q].0@ != e.0@,
    ensures
        entries_map(s.update(j, e)) == entries_map(s).insert(e.0@, e.1),
    decreases s.len(),
{
    let u = s.update(j, e);
    if j == s.len() - 1 {
        assert(u.drop_last() =~= s.drop_last());
        assert(entries_map(u) =~= entries_map(s).insert(e.0@, e.1));
    } else {
        lemma_entries_update(s.drop_last(), j, e);
        assert(u.drop_last() =~= s.drop_last().update(j, e));
        assert(u.last() == s.last());
        assert(entries_map(u) =~= entries_map(s).insert(e.0@, e.1));
    }
}

impl View for AttributeMap {
    type V = Map<Seq<char>, AttributeValue>;

    closed spec fn view(&self) -> Map<Seq<char>, AttributeValue> {
        entries_map(self.entries@)
    }
}

impl AttributeMap {
    pub fn new() -> (r: AttributeMap)
        ensures
            r@ == Map::<Seq<char>, AttributeValue>::empty(),
    {
        AttributeMap { entries: Vec::new() }
    }

    /// Sets the value under `key`, in place of any earlier one.
    pub fn insert(&mut self, key: String, value: AttributeValue)
        ensures
            final(self)@ == old(self)@.insert(key@, value),
    {
        let mut i = self.entries.len();
        while i > 0
            invariant
                i <= self.entries@.len(),
                self.entries@ == old(self).entries@,
                forall|q: int| i <= q < self.entries@.len() ==> self.entries@[q].0@ != key@,
            decreases i,
        {
            if crate::text::str_eq(self.entries[i - 1].0.as_str(), key.as_str()) {
                proof {
                    lemma_entries_update(self.entries@, i - 1, (key, value));
                }
                self.entries.set(i - 1, (key, value));
                return;
            }
            i = i - 1;
        }
        self.entries.push((key, value));
        assert(self.entries@.drop_last() =~= old(self).entries@);
    }

    /// The entries of the map; inserting them in order builds the same map.
    pub fn into_entries(self) -> (r: Vec<(String, AttributeValue)>)
        ensures
            entries_map(r@) == self@,
    {
        self.entries
    }

    /// The value under `key`, if any.
    pub fn get(&self, key: &str) -> (r: Option<&AttributeValue>)
        ensures
            r is Some <==> self@.contains_key(key@),
            r matches Some(v) ==> *v == self@[key@],
    {
        let mut i = self.entries.len();
        while i > 0
            invariant
                i <= self.entries@.len(),
                forall|q: int| i <= q < self.entries@.len() ==> self.entries@[q].0@ != key@,
            decreases i,
        {
            if crate::text::str_eq(self.entries[i - 1].0.as_str(), key) {
                proof {
                    let s = self.entries@;
                    lemma_entries_suffix(s, i as int, key@);
                    assert(s.subrange(0, i as int).drop_last() =~= s.subrange(0, i - 1));
                }
                return Some(&self.entries[i - 1].1);
            }
            i = i - 1;
        }
        proof {
            lemma_entries_suffix(self.entries@, 0, key@);
            assert(self.entries@.subrange(0, 0) =~= Seq::<(String, AttributeValue)>::empty());
        }
        None
    }
}


/// Every member of a number set reads as a plain decimal.
pub open spec fn all_numbers(ns: Seq<String>) -> bool {
    forall|i: int| 0 <= i < ns.len() ==> (#[trigger] parse_decimal(ns[i]@)) is Some
}

/// The numbers of a set whose members all read as plain decimals.
pub open spec fn numbers_of(ns: Seq<String>) -> Seq<Decimal> {
    Seq::new(ns.len(), |i: int| parse_decimal(ns[i]@)->Some_0)
}

impl AttributeValue {
    pub fn as_bool(&self) -> (r: Option<bool>)
        ensures
            r == (match self {
                AttributeValue::Bool(b) => Some(*b),
                _ => None,
            }),
    {
        match self {
            AttributeValue::Bool(b) => Some(*b),
            _ => None,
        }
    }

    pub fn as_l(&self) -> (r: Option<&Vec<AttributeValue>>)
        ensures
            r is Some <==> self is L,
            r matches Some(l) ==> self->L_0 == *l,
    {
        match self {
            AttributeValue::L(l) => Some(l),
            _ => None,
        }
    }

    pub fn as_m(&self) -> (r: Option<&AttributeMap>)
        ensures
            r is Some <==> self is M,
            r matches Some(m) ==> self->M_0 == *m,
    {
        match self {
            AttributeValue::M(m) => Some(m),
            _ => None,
        }
    }

    /// The number, where the value is one and its text reads as a plain decimal.
    pub fn as_n(&self) -> (r: Option<Decimal>)
        ensures
            r == (match self {
                AttributeValue::N(s) => parse_decimal(s@),
                _ => None,
            }),
            r matches Some(d) ==> d.wf(),
    {
        match self {
            AttributeValue::N(s) => Decimal::parse(s.as_str()),
            _ => None,
        }
    }

    /// The members of a number set, in order; `None` for any other variant,
    /// and where any member is not a plain decimal.
    pub fn as_ns(&self) -> (r: Option<Vec<Decimal>>)
        ensures
            r is Some <==> (self is Ns && all_numbers(self->Ns_0@)),
            r matches Some(ds) ==> ds@ == numbers_of(self->Ns_0@) && forall|i: int|
                0 <= i < ds@.len() ==> (#[trigger] ds@[i]).wf(),
    {
        match self {
            AttributeValue::Ns(ns) => {
                let mut r: Vec<Decimal> = Vec::new();
                let mut i: usize = 0;
                while i < ns.len()
                    invariant
                        *self == AttributeValue::Ns(*ns),
                        i <= ns@.len(),
                        r@.len() == i,
                        forall|q: int| 0 <= q < i ==> (#[trigger] parse_decimal(ns@[q]@)) == Some(r@[q]),
                        forall|q: int| 0 <= q < i ==> (#[trigger] r@[q]).wf(),
                    decreases ns@.len() - i,
                {
                    match Decimal::parse(ns[i].as_str()) {
                        Some(d) => r.push(d),
                        None => {
                            assert(parse_decimal(ns@[i as int]@) is None);
                            assert(!all_numbers(ns@));
                            return None;
                        },
                    }
                    i = i + 1;
                }
                assert(r@ =~= numbers_of(ns@));
                Some(r)
            },
            _ => None,
        }
    }

    pub fn as_null(&self) -> (r: Option<bool>)
        ensures
            r == (match self {
                AttributeValue::Null(b) => Some(*b),
                _ => None,
            }),
    {
        match self {
            AttributeValue::Null(b) => Some(*b),
            _ => None,
        }
    }

    pub fn as_s(&self) -> (r: Option<&str>)
        ensures
            r is Some <==> self is S,
            r matches Some(s) ==> s@ == self->S_0@,
    {
        match self {
            AttributeValue::S(s) => Some(s.as_str()),
            _ => None,
        }
    }

    /// The members of a string set, in order; `None` for any other variant.
    pub fn as_ss(&self) -> (r: Option<Vec<String>>)
        ensures
            r is Some <==> self is Ss,
            r matches Some(v) ==> v@ == self->Ss_0@,
    {
        match self {
            AttributeValue::Ss(ss) => Some(crate::text::copy_strings(ss)),
            _ => None,
        }
    }
}

} // verus!
