//! The replies of the product API: which status and body each outcome of a
//! request gets. Reading requests and writing JSON stay with the HTTP layer.
use crate::error::Error;
use crate::model::{Product, ProductRange};
use crate::text::{owned, str_eq};
use vstd::prelude::*;

verus! {

/// A reply: a status code with a JSON body.
pub enum Reply {
    /// `{"message": message}` under the given status.
    Message { status: u16, message: String },
    /// The product, with status 200.
    Found { product: Product },
    /// A page of products, with status 200.
    Page { range: ProductRange },
}

/// `r` is a message reply with this status and text.
pub open spec fn is_message(r: Reply, status: u16, text: Seq<char>) -> bool {
    r matches Reply::Message { status: s, message } && s == status && message@ == text
}

/// `r` turns the request down with status 400 and this text.
pub open spec fn rejected(r: Result<Product, Reply>, text: Seq<char>) -> bool {
    r matches Err(e) && is_message(e, 400, text)
}

impl Reply {
    pub open spec fn spec_status(&self) -> u16 {
        match self {
            Reply::Message { status, .. } => *status,
            _ => 200,
        }
    }

    pub fn status(&self) -> (r: u16)
        ensures
            r == self.spec_status(),
    {
        match self {
            Reply::Message { status, .. } => *status,
            _ => 200,
        }
    }
}

fn message(status: u16, text: &str) -> (r: Reply)
    ensures
        is_message(r, status, text@),
{
    Reply::Message { status, message: owned(text) }
}

/// The reply to a request whose path names no product.
pub fn missing_id() -> (r: Reply)
    ensures
        is_message(r, 400, "Missing 'id' parameter in path"@),
{
    message(400, "Missing 'id' parameter in path")
}

/// The reply to a deletion, given what the store answered.
pub fn delete_reply(res: &Result<(), Error>) -> (r: Reply)
    ensures
        res is Ok ==> is_message(r, 200, "Product deleted"@),
        res is Err ==> is_message(r, 500, "Failed to delete product"@),
{
    match res {
        Ok(()) => message(200, "Product deleted"),
        Err(_) => message(500, "Failed to delete product"),
    }
}

/// The reply to a lookup, given what the store answered.
pub fn get_reply(res: Result<Option<Product>, Error>) -> (r: Reply)
    ensures
        res matches Ok(Some(p)) ==> r == (Reply::Found { product: p }),
        res matches Ok(None) ==> is_message(r, 404, "Product not found"@),
        res is Err ==> is_message(r, 500, "Error fetching product"@),
{
    match res {
        Ok(Some(product)) => Reply::Found { product },
        Ok(None) => message(404, "Product not found"),
        Err(_) => message(500, "Error fetching product"),
    }
}

/// The reply to a listing, given what the store answered.
pub fn list_reply(res: Result<ProductRange, Error>) -> (r: Reply)
    ensures
        res matches Ok(range) ==> r == (Reply::Page { range }),
        res is Err ==> is_message(r, 500, "Something went wrong"@),
{
    match res {
        Ok(range) => Reply::Page { range },
        Err(_) => message(500, "Something went wrong"),
    }
}

/// Checks a request to store a product: the path must name an id, the body
/// must hold a product, and that product's id must be the path's id. The
/// body is what reading it gave: a product, nothing, or a reason it could
/// not be read.
pub fn check_put(path_id: Option<&str>, body: Result<Option<Product>, String>) -> (r: Result<
    Product,
    Reply,
>)
    ensures
        path_id is None ==> rejected(r, "Missing 'id' parameter in path"@),
        path_id is Some && body == Ok::<Option<Product>, String>(None) ==> rejected(
            r,
            "Missing product in request body"@,
        ),
        path_id is Some && body is Err ==> rejected(r, "Failed to parse product from request body"@),
        path_id is Some && (body matches Ok(Some(p)) && p.id@ != path_id->Some_0@) ==> rejected(
            r,
            "Product ID in path does not match product ID in body"@,
        ),
        path_id is Some && (body matches Ok(Some(p)) && p.id@ == path_id->Some_0@) ==> r
            == Ok::<Product, Reply>(body->Ok_0->Some_0),
{
    let id = match path_id {
        None => {
            return Err(missing_id());
        },
        Some(id) => id,
    };
    match body {
        Err(_) => Err(message(400, "Failed to parse product from request body")),
        Ok(None) => Err(message(400, "Missing product in request body")),
        Ok(Some(product)) => {
            if str_eq(product.id.as_str(), id) {
                Ok(product)
            } else {
                Err(message(400, "Product ID in path does not match product ID in body"))
            }
        },
    }
}

/// The reply to storing a product, given what the store answered.
pub fn put_reply(res: &Result<(), Error>) -> (r: Reply)
    ensures
        res is Ok ==> is_message(r, 201, "Product created"@),
        res is Err ==> is_message(r, 500, "Failed to create product"@),
{
    match res {
        Ok(()) => message(201, "Product created"),
        Err(_) => message(500, "Failed to create product"),
    }
}

} // verus!
