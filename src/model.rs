//! The product record and the domain events derived from its changes.
use crate::decimal::Decimal;
use vstd::prelude::*;

verus! {

/// A product of the catalogue; `id` is its unique key.
#[derive(Clone, Debug, PartialEq)]
pub struct Product {
    pub id: String,
    pub name: String,
    pub price: Decimal,
}

/// One page of products, with the cursor of the next page where there is one.
#[derive(Clone, Debug, PartialEq)]
pub struct ProductRange {
    pub products: Vec<Product>,
    pub next: Option<String>,
}

/// A change of one product.
#[derive(Clone, Debug, PartialEq)]
pub enum Event {
    Created { product: Product },
    Updated { old: Product, new: Product },
    Deleted { product: Product },
}

impl Product {
    /// A copy of the product, field for field.
    pub fn duplicate(&self) -> (r: Product)
        ensures
            r == *self,
    {
        Product { id: self.id.clone(), name: self.name.clone(), price: self.price }
    }
}

impl Event {
    /// The product whose id identifies the event: the new state for an update.
    pub open spec fn subject(&self) -> Product {
        match self {
            Event::Created { product } => *product,
            Event::Updated { old, new } => *new,
            Event::Deleted { product } => *product,
        }
    }

    /// The id of the product that the event is about.
    pub fn id(&self) -> (r: &str)
        ensures
            r@ == self.subject().id@,
    {
        match self {
            Event::Created { product } => product.id.as_str(),
            Event::Updated { new, .. } => new.id.as_str(),
            Event::Deleted { product } => product.id.as_str(),
        }
    }

    /// A copy of the event, field for field.
    pub fn duplicate(&self) -> (r: Event)
        ensures
            r == *self,
    {
        match self {
            Event::Created { product } => Event::Created { product: product.duplicate() },
            Event::Updated { old, new } => Event::Updated {
                old: old.duplicate(),
                new: new.duplicate(),
            },
            Event::Deleted { product } => Event::Deleted { product: product.duplicate() },
        }
    }
}

} // verus!
