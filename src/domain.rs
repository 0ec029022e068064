//! Operations of the product catalogue on a store.
use crate::error::Error;
use crate::model::{Product, ProductRange};
use crate::store::{StoreDelete, StoreGet, StoreGetAll, StorePut};
use vstd::prelude::*;

verus! {

/// One page of products, starting where `next` says.
pub fn get_products<S: StoreGetAll>(store: &S, next: Option<&str>) -> (r: Result<ProductRange, Error>)
    requires
        store.ready(),
    ensures
        r matches Ok(range) ==> forall|i: int|
            0 <= i < range.products@.len() ==> store.products().contains_key(
                (#[trigger] range.products@[i]).id@,
            ) && store.products()[range.products@[i].id@] == range.products@[i],
{
    store.all(next)
}

/// The product with id `id`, if the store holds one.
pub fn get_product<S: StoreGet>(store: &S, id: &str) -> (r: Result<Option<Product>, Error>)
    requires
        store.ready(),
    ensures
        r matches Ok(found) ==> (found is Some <==> store.products().contains_key(id@)) && (
        found matches Some(p) ==> p == store.products()[id@]),
{
    store.get(id)
}

/// The product with its price rounded to two places after the point, as it
/// is stored.
pub fn rounded_product(product: &Product) -> (r: Product)
    requires
        product.price.wf(),
    ensures
        r == (Product { id: product.id, name: product.name, price: product.price.cents_rounded() }),
        r.price.wf(),
{
    Product {
        id: product.id.clone(),
        name: product.name.clone(),
        price: product.price.round_to_cents(),
    }
}

/// Stores a product with its price rounded to two places after the point.
pub fn put_product<S: StorePut>(store: &mut S, product: &Product) -> (r: Result<(), Error>)
    requires
        old(store).ready(),
        product.price.wf(),
    ensures
        final(store).ready(),
        r is Ok ==> final(store).products() == old(store).products().insert(
            product.id@,
            Product { id: product.id, name: product.name, price: product.price.cents_rounded() },
        ),
{
    let rounded = rounded_product(product);
    store.put(&rounded)
}

/// Removes the product with id `id`.
pub fn delete_product<S: StoreDelete>(store: &mut S, id: &str) -> (r: Result<(), Error>)
    requires
        old(store).ready(),
    ensures
        final(store).ready(),
        r is Ok ==> final(store).products() == old(store).products().remove(id@),
{
    store.delete(id)
}

} // verus!
