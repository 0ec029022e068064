//! Storage of products by id: an in-memory store, and the pure parts of
//! reading pages of products out of a key-value table.
use crate::attribute::{AttributeMap, AttributeValue};
use crate::codec::{decode_string, encode_string, product_of};
use crate::error::{DecodeError, Error};
use crate::model::{Product, ProductRange};
use crate::text::{owned, str_eq};
use vstd::prelude::*;

verus! {

/// The products of a list, keyed by id, the later winning.
pub open spec fn products_map(s: Seq<Product>) -> Map<Seq<char>, Product>
    decreases s.len(),
{
    if s.len() == 0 {
        Map::empty()
    } else {
        products_map(s.drop_last()).insert(s.last().id@, s.last())
    }
}

/// No two products of the list share an id.
pub open spec fn unique_ids(s: Seq<Product>) -> bool {
    forall|i: int, j: int| 0 <= i < j < s.len() ==> (#[trigger] s[i]).id@ != (#[trigger] s[j]).id@
}

/// A key is in the map exactly where some product of the list has it as id.
proof fn lemma_products_map_dom(s: Seq<Product>, k: Seq<char>)
    ensures
        products_map(s).contains_key(k) <==> exists|i: int| 0 <= i < s.len() && (#[trigger] s[i]).id@ == k,
    decreases s.len(),
{
    if s.len() > 0 {
        let t = s.drop_last();
        lemma_products_map_dom(t, k);
        if exists|i: int| 0 <= i < t.len() && (#[trigger] t[i]).id@ == k {
            let i = choose|i: int| 0 <= i < t.len() && (#[trigger] t[i]).id@ == k;
            assert(s[i] == t[i]);
        }
        if exists|i: int| 0 <= i < s.len() && (#[trigger] s[i]).id@ == k {
            let i = choose|i: int| 0 <= i < s.len() && (#[trigger] s[i]).id@ == k;
            if i < s.len() - 1 {
                assert(t[i] == s[i]);
            }
        }
    }
}

/// In a list with unique ids, the map holds each product under its id.
proof fn lemma_products_map_at(s: Seq<Product>, i: int)
    requires
        unique_ids(s),
        0 <= i < s.len(),
    ensures
        products_map(s).contains_key(s[i].id@),
        products_map(s)[s[i].id@] == s[i],
    decreases s.len(),
{
    if i < s.len() - 1 {
        let t = s.drop_last();
        assert(unique_ids(t)) by {
            assert forall|a: int, b: int| 0 <= a < b < t.len() implies (#[trigger] t[a]).id@ != (
            #[trigger] t[b]).id@ by {
                assert(t[a] == s[a] && t[b] == s[b]);
            }
        }
        assert(t[i] == s[i]);
        lemma_products_map_at(t, i);
        assert(s[i].id@ != s.last().id@);
    }
}

/// What a store holds: products by id. `ready` is what the store needs to
/// serve a request (for a store in memory: its well-formedness).
pub trait StoreModel {
    spec fn products(&self) -> Map<Seq<char>, Product>;

    spec fn ready(&self) -> bool;
}

/// Retrieving products a page at a time. A store may return only part of its
/// products; `next` then names where the following page starts.
pub trait StoreGetAll: StoreModel {
    fn all(&self, next: Option<&str>) -> (r: Result<ProductRange, Error>)
        requires
            self.ready(),
        ensures
            r matches Ok(range) ==> forall|i: int|
                0 <= i < range.products@.len() ==> self.products().contains_key(
                    (#[trigger] range.products@[i]).id@,
                ) && self.products()[range.products@[i].id@] == range.products@[i],
    ;
}

/// Retrieving one product.
pub trait StoreGet: StoreModel {
    fn get(&self, id: &str) -> (r: Result<Option<Product>, Error>)
        requires
            self.ready(),
        ensures
            r matches Ok(found) ==> (found is Some <==> self.products().contains_key(id@)) && (
            found matches Some(p) ==> p == self.products()[id@]),
    ;
}

/// Storing one product under its id.
pub trait StorePut: StoreModel {
    fn put(&mut self, product: &Product) -> (r: Result<(), Error>)
        requires
            old(self).ready(),
        ensures
            final(self).ready(),
            r is Ok ==> final(self).products() == old(self).products().insert(
                product.id@,
                *product,
            ),
    ;
}

/// Deleting one product.
pub trait StoreDelete: StoreModel {
    fn delete(&mut self, id: &str) -> (r: Result<(), Error>)
        requires
            old(self).ready(),
        ensures
            final(self).ready(),
            r is Ok ==> final(self).products() == old(self).products().remove(id@),
    ;
}

/// A store with all four capabilities.
pub trait Store: StoreGetAll + StoreGet + StorePut + StoreDelete {

}

/// The map of a list with unique ids holds as many products as the list.
proof fn lemma_products_map_len(s: Seq<Product>)
    requires
        unique_ids(s),
    ensures
        products_map(s).dom().finite(),
        products_map(s).dom().len() == s.len(),
    decreases s.len(),
{
    if s.len() > 0 {
        let t = s.drop_last();
        assert(unique_ids(t)) by {
            assert forall|a: int, b: int| 0 <= a < b < t.len() implies (#[trigger] t[a]).id@ != (
            #[trigger] t[b]).id@ by {
                assert(t[a] == s[a] && t[b] == s[b]);
            }
        }
        lemma_products_map_len(t);
        lemma_products_map_dom(t, s.last().id@);
        if products_map(t).contains_key(s.last().id@) {
            let i = choose|i: int| 0 <= i < t.len() && (#[trigger] t[i]).id@ == s.last().id@;
            assert(s[i] == t[i]);
        }
        assert(products_map(s).dom() =~= products_map(t).dom().insert(s.last().id@));
    }
}

/// Products kept in memory, one per id.
pub struct MemoryStore {
    data: Vec<Product>,
}

impl View for MemoryStore {
    type V = Map<Seq<char>, Product>;

    closed spec fn view(&self) -> Map<Seq<char>, Product> {
        products_map(self.data@)
    }
}

impl MemoryStore {
    /// No two stored products share an id.
    pub closed spec fn wf(&self) -> bool {
        unique_ids(self.data@)
    }

    /// The index of the product with id `id`, if any.
    fn position(&self, id: &str) -> (r: Option<usize>)
        ensures
            r matches Some(i) ==> i < self.data@.len() && self.data@[i as int].id@ == id@,
            r is None ==> forall|i: int| 0 <= i < self.data@.len() ==> (#[trigger] self.data@[i]).id@ != id@,
    {
        let mut i: usize = 0;
        while i < self.data.len()
            invariant
                i <= self.data@.len(),
                forall|j: int| 0 <= j < i ==> (#[trigger] self.data@[j]).id@ != id@,
            decreases self.data@.len() - i,
        {
            if str_eq(self.data[i].id.as_str(), id) {
                return Some(i);
            }
            i = i + 1;
        }
        None
    }

    /// An empty store.
    pub fn new() -> (r: MemoryStore)
        ensures
            r.wf(),
            r@ == Map::<Seq<char>, Product>::empty(),
    {
        MemoryStore { data: Vec::new() }
    }

    /// The number of products in the store.
    pub fn len(&self) -> (r: usize)
        requires
            self.wf(),
        ensures
            r == self@.len(),
    {
        proof {
            lemma_products_map_len(self.data@);
        }
        self.data.len()
    }

    /// Every product of the store, each once; there is never a next page.
    pub fn all(&self, next: Option<&str>) -> (r: Result<ProductRange, Error>)
        requires
            self.wf(),
        ensures
            r matches Ok(range) && range.next is None && unique_ids(range.products@) && (forall|
                i: int,
            | 0 <= i < range.products@.len() ==> self@.contains_key(
                (#[trigger] range.products@[i]).id@,
            ) && self@[range.products@[i].id@] == range.products@[i]) && (forall|k: Seq<char>|
                #[trigger] self@.contains_key(k) ==> exists|i: int|
                    0 <= i < range.products@.len() && (#[trigger] range.products@[i]).id@ == k),
    {
        let mut products: Vec<Product> = Vec::new();
        let mut i: usize = 0;
        while i < self.data.len()
            invariant
                i <= self.data@.len(),
                products@ == self.data@.subrange(0, i as int),
            decreases self.data@.len() - i,
        {
            products.push(self.data[i].duplicate());
            i = i + 1;
            assert(products@ =~= self.data@.subrange(0, i as int));
        }
        assert(products@ =~= self.data@);
        proof {
            assert forall|j: int| 0 <= j < products@.len() implies self@.contains_key(
                (#[trigger] products@[j]).id@,
            ) && self@[products@[j].id@] == products@[j] by {
                lemma_products_map_at(self.data@, j);
            }
            assert forall|k: Seq<char>| #[trigger] self@.contains_key(k) implies exists|j: int|
                0 <= j < products@.len() && (#[trigger] products@[j]).id@ == k by {
                lemma_products_map_dom(self.data@, k);
            }
        }
        Ok(ProductRange { products, next: None })
    }

    /// The product with id `id`, if the store holds one.
    pub fn get(&self, id: &str) -> (r: Result<Option<Product>, Error>)
        requires
            self.wf(),
        ensures
            r matches Ok(found) && (found is Some <==> self@.contains_key(id@)) && (found matches Some(
                p,
            ) ==> p == self@[id@]),
    {
        match self.position(id) {
            Some(i) => {
                proof {
                    lemma_products_map_at(self.data@, i as int);
                }
                Ok(Some(self.data[i].duplicate()))
            },
            None => {
                proof {
                    lemma_products_map_dom(self.data@, id@);
                }
                Ok(None)
            },
        }
    }

    /// Stores the product under its id, replacing any product stored there.
    pub fn put(&mut self, product: &Product) -> (r: Result<(), Error>)
        requires
            old(self).wf(),
        ensures
            final(self).wf(),
            r is Ok,
            final(self)@ == old(self)@.insert(product.id@, *product),
    {
        let ghost s0 = self.data@;
        match self.position(product.id.as_str()) {
            Some(i) => {
                let ghost s1 = s0.update(i as int, *product);
                proof {
                    assert forall|a: int, b: int| 0 <= a < b < s1.len() implies (#[trigger] s1[a]).id@
                        != (#[trigger] s1[b]).id@ by {
                        if a != i && b != i {
                            assert(s1[a] == s0[a] && s1[b] == s0[b]);
                        } else if a == i {
                            assert(s0[i as int].id@ != s0[b].id@);
                        } else {
                            assert(s0[a].id@ != s0[i as int].id@);
                        }
                    }
                    assert forall|k: Seq<char>| #[trigger] products_map(s1).contains_key(k)
                        == products_map(s0).insert(product.id@, *product).contains_key(k) by {
                        lemma_products_map_dom(s1, k);
                        lemma_products_map_dom(s0, k);
                        if exists|j: int| 0 <= j < s0.len() && (#[trigger] s0[j]).id@ == k {
                            let j = choose|j: int| 0 <= j < s0.len() && (#[trigger] s0[j]).id@ == k;
                            if j != i {
                                assert(s1[j] == s0[j]);
                            } else {
                                assert(s1[i as int].id@ == k);
                            }
                        }
                        if exists|j: int| 0 <= j < s1.len() && (#[trigger] s1[j]).id@ == k {
                            let j = choose|j: int| 0 <= j < s1.len() && (#[trigger] s1[j]).id@ == k;
                            if j != i {
                                assert(s1[j] == s0[j]);
                            }
                        }
                    }
                    assert forall|k: Seq<char>| #[trigger] products_map(s1).contains_key(k) implies
                        products_map(s1)[k] == products_map(s0).insert(product.id@, *product)[k] by {
                        lemma_products_map_dom(s1, k);
                        let j = choose|j: int| 0 <= j < s1.len() && (#[trigger] s1[j]).id@ == k;
                        lemma_products_map_at(s1, j);
                        if j != i {
                            assert(s1[j] == s0[j]);
                            lemma_products_map_at(s0, j);
                        }
                    }
                    assert(products_map(s1) =~= products_map(s0).insert(product.id@, *product));
                }
                self.data.set(i, product.duplicate());
            },
            None => {
                proof {
                    let s1 = s0.push(*product);
                    assert(s1.drop_last() =~= s0);
                    assert forall|a: int, b: int| 0 <= a < b < s1.len() implies (#[trigger] s1[a]).id@
                        != (#[trigger] s1[b]).id@ by {
                        if b < s0.len() {
                            assert(s1[a] == s0[a] && s1[b] == s0[b]);
                        } else {
                            assert(s1[a] == s0[a]);
                        }
                    }
                }
                self.data.push(product.duplicate());
            },
        }
        Ok(())
    }

    /// Removes the product with id `id`, if the store holds one.
    pub fn delete(&mut self, id: &str) -> (r: Result<(), Error>)
        requires
            old(self).wf(),
        ensures
            final(self).wf(),
            r is Ok,
            final(self)@ == old(self)@.remove(id@),
    {
        let ghost s0 = self.data@;
        match self.position(id) {
            Some(i) => {
                let ghost s1 = s0.remove(i as int);
                proof {
                    assert forall|a: int, b: int| 0 <= a < b < s1.len() implies (#[trigger] s1[a]).id@
                        != (#[trigger] s1[b]).id@ by {
                        let a0 = if a < i { a } else { a + 1 };
                        let b0 = if b < i { b } else { b + 1 };
                        assert(s1[a] == s0[a0] && s1[b] == s0[b0]);
                    }
                    assert forall|k: Seq<char>| #[trigger] products_map(s1).contains_key(k)
                        == products_map(s0).remove(id@).contains_key(k) by {
                        lemma_products_map_dom(s1, k);
                        lemma_products_map_dom(s0, k);
                        if exists|j: int| 0 <= j < s0.len() && (#[trigger] s0[j]).id@ == k {
                            let j = choose|j: int| 0 <= j < s0.len() && (#[trigger] s0[j]).id@ == k;
                            if j < i {
                                assert(s1[j] == s0[j]);
                            } else if j > i {
                                assert(s1[j - 1] == s0[j]);
                            }
                        }
                        if exists|j: int| 0 <= j < s1.len() && (#[trigger] s1[j]).id@ == k {
                            let j = choose|j: int| 0 <= j < s1.len() && (#[trigger] s1[j]).id@ == k;
                            let j0 = if j < i { j } else { j + 1 };
                            assert(s1[j] == s0[j0]);
                            assert(s0[j0].id@ != s0[i as int].id@);
                        }
                    }
                    assert forall|k: Seq<char>| #[trigger] products_map(s1).contains_key(k) implies
                        products_map(s1)[k] == products_map(s0).remove(id@)[k] by {
                        lemma_products_map_dom(s1, k);
                        let j = choose|j: int| 0 <= j < s1.len() && (#[trigger] s1[j]).id@ == k;
                        lemma_products_map_at(s1, j);
                        let j0 = if j < i { j } else { j + 1 };
                        assert(s1[j] == s0[j0]);
                        lemma_products_map_at(s0, j0);
                    }
                    assert(products_map(s1) =~= products_map(s0).remove(id@));
                }
                self.data.remove(i);
            },
            None => {
                proof {
                    lemma_products_map_dom(s0, id@);
                    assert(products_map(s0) =~= products_map(s0).remove(id@));
                }
            },
        }
        Ok(())
    }
}

impl StoreModel for MemoryStore {
    open spec fn products(&self) -> Map<Seq<char>, Product> {
        self@
    }

    open spec fn ready(&self) -> bool {
        self.wf()
    }
}

impl StoreGetAll for MemoryStore {
    fn all(&self, next: Option<&str>) -> (r: Result<ProductRange, Error>) {
        MemoryStore::all(self, next)
    }
}

impl StoreGet for MemoryStore {
    fn get(&self, id: &str) -> (r: Result<Option<Product>, Error>) {
        MemoryStore::get(self, id)
    }
}

impl StorePut for MemoryStore {
    fn put(&mut self, product: &Product) -> (r: Result<(), Error>) {
        MemoryStore::put(self, product)
    }
}

impl StoreDelete for MemoryStore {
    fn delete(&mut self, id: &str) -> (r: Result<(), Error>) {
        MemoryStore::delete(self, id)
    }
}

impl Store for MemoryStore {

}

/// The key of the product with id `id` in a key-value table.
pub fn key_of(id: &str) -> (r: AttributeMap)
    ensures
        r@.dom() == set!["id"@],
        r@["id"@] matches AttributeValue::S(s) && s@ == id@,
{
    let mut key = AttributeMap::new();
    key.insert(owned("id"), encode_string(owned(id)));
    assert(key@.dom() =~= set!["id"@]);
    key
}

/// The products that a list of items decodes to, where every one does.
pub open spec fn items_products(items: Seq<AttributeMap>) -> Seq<Product> {
    Seq::new(items.len(), |i: int| product_of(items[i]@)->Ok_0)
}

/// A page of products out of the items that one scan of the table returned:
/// every item decoded, in order, and the cursor of the next page taken from
/// the `id` of the key where the scan stopped, if it stopped early.
pub fn page_from_items(items: &Vec<AttributeMap>, last_key: Option<&AttributeMap>) -> (r: Result<
    ProductRange,
    Error,
>)
    ensures
        r is Ok <==> (forall|i: int| 0 <= i < items@.len() ==> (#[trigger] product_of(items@[i]@)) is Ok)
            && (last_key matches Some(k) ==> crate::codec::string_field(
            crate::attribute::lookup(k@, "id"@),
        ) is Ok),
        r matches Ok(range) ==> range.products@ == items_products(items@) && (range.next is None
            <==> last_key is None) && (range.next matches Some(c) ==> crate::codec::string_field(
            crate::attribute::lookup(last_key->Some_0@, "id"@),
        ) == Ok::<String, crate::error::FieldError>(c)),
        r matches Err(e) ==> (e matches Error::Decode { record, error } && record < items@.len()
            && product_of(items@[record as int]@) == Err::<Product, DecodeError>(error) && forall|
            j: int,
        | 0 <= j < record ==> (#[trigger] product_of(items@[j]@)) is Ok) || (e is InternalError
            && forall|j: int| 0 <= j < items@.len() ==> (#[trigger] product_of(items@[j]@)) is Ok),
{
    let mut products: Vec<Product> = Vec::new();
    let mut i: usize = 0;
    while i < items.len()
        invariant
            i <= items@.len(),
            products@ == items_products(items@.subrange(0, i as int)),
            forall|j: int| 0 <= j < i ==> (#[trigger] product_of(items@[j]@)) is Ok,
        decreases items@.len() - i,
    {
        match Product::from_dynamodb(&items[i]) {
            Ok(p) => {
                products.push(p);
            },
            Err(error) => {
                return Err(Error::Decode { record: i, error });
            },
        }
        i = i + 1;
        assert(products@ =~= items_products(items@.subrange(0, i as int)));
    }
    assert(items@.subrange(0, items@.len() as int) =~= items@);
    let next = match last_key {
        None => None,
        Some(k) => match decode_string(k.get("id")) {
            Ok(id) => Some(id),
            Err(_) => {
                return Err(Error::InternalError(owned("the scan stopped at a key without a string id")));
            },
        },
    };
    Ok(ProductRange { products, next })
}

} // verus!
