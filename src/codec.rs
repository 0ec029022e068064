//! Reading typed values out of wire values, writing them back, and the
//! product record's wire form.
//!
//! Each reader states the shape it expects. A value that is absent gives
//! `FieldError::Missing`, one of another variant `FieldError::WrongType`, a
//! number whose text is not a plain decimal `FieldError::BadNumber`.
use crate::attribute::{all_numbers, numbers_of, AttributeMap, AttributeValue};
use crate::decimal::{parse_decimal, Decimal};
use crate::error::{DecodeError, FieldError, ProductField};
use crate::model::Product;
use vstd::prelude::*;

verus! {

/// The value behind an optional reference.
pub open spec fn present(v: Option<&AttributeValue>) -> Option<AttributeValue> {
    match v {
        Some(a) => Some(*a),
        None => None,
    }
}

/// The error for a value that is absent or of another variant.
pub open spec fn shape_error(o: Option<AttributeValue>) -> FieldError {
    if o is None {
        FieldError::Missing
    } else {
        FieldError::WrongType
    }
}

pub open spec fn bool_field(o: Option<AttributeValue>) -> Result<bool, FieldError> {
    match o {
        Some(AttributeValue::Bool(b)) => Ok(b),
        _ => Err(shape_error(o)),
    }
}

pub open spec fn null_field(o: Option<AttributeValue>) -> Result<bool, FieldError> {
    match o {
        Some(AttributeValue::Null(b)) => Ok(b),
        _ => Err(shape_error(o)),
    }
}

pub open spec fn string_field(o: Option<AttributeValue>) -> Result<String, FieldError> {
    match o {
        Some(AttributeValue::S(s)) => Ok(s),
        _ => Err(shape_error(o)),
    }
}

pub open spec fn number_field(o: Option<AttributeValue>) -> Result<Decimal, FieldError> {
    match o {
        Some(AttributeValue::N(s)) => match parse_decimal(s@) {
            Some(d) => Ok(d),
            None => Err(FieldError::BadNumber),
        },
        _ => Err(shape_error(o)),
    }
}

pub open spec fn list_field(o: Option<AttributeValue>) -> Result<Vec<AttributeValue>, FieldError> {
    match o {
        Some(AttributeValue::L(l)) => Ok(l),
        _ => Err(shape_error(o)),
    }
}

pub open spec fn map_field(o: Option<AttributeValue>) -> Result<AttributeMap, FieldError> {
    match o {
        Some(AttributeValue::M(m)) => Ok(m),
        _ => Err(shape_error(o)),
    }
}

pub open spec fn string_set_field(o: Option<AttributeValue>) -> Result<Seq<String>, FieldError> {
    match o {
        Some(AttributeValue::Ss(ss)) => Ok(ss@),
        _ => Err(shape_error(o)),
    }
}

pub open spec fn number_set_field(o: Option<AttributeValue>) -> Result<Seq<Decimal>, FieldError> {
    match o {
        Some(AttributeValue::Ns(ns)) => if all_numbers(ns@) {
            Ok(numbers_of(ns@))
        } else {
            Err(FieldError::BadNumber)
        },
        _ => Err(shape_error(o)),
    }
}

/// A result over a vector, seen as a result over its elements.
pub open spec fn seq_result<T>(r: Result<Vec<T>, FieldError>) -> Result<Seq<T>, FieldError> {
    match r {
        Ok(v) => Ok(v@),
        Err(e) => Err(e),
    }
}

pub fn decode_bool(v: Option<&AttributeValue>) -> (r: Result<bool, FieldError>)
    ensures
        r == bool_field(present(v)),
{
    match v {
        None => Err(FieldError::Missing),
        Some(a) => match a.as_bool() {
            Some(b) => Ok(b),
            None => Err(FieldError::WrongType),
        },
    }
}

pub fn decode_null(v: Option<&AttributeValue>) -> (r: Result<bool, FieldError>)
    ensures
        r == null_field(present(v)),
{
    match v {
        None => Err(FieldError::Missing),
        Some(a) => match a.as_null() {
            Some(b) => Ok(b),
            None => Err(FieldError::WrongType),
        },
    }
}

pub fn decode_string(v: Option<&AttributeValue>) -> (r: Result<String, FieldError>)
    ensures
        r == string_field(present(v)),
{
    match v {
        None => Err(FieldError::Missing),
        Some(AttributeValue::S(s)) => Ok(s.clone()),
        Some(_) => Err(FieldError::WrongType),
    }
}

pub fn decode_number(v: Option<&AttributeValue>) -> (r: Result<Decimal, FieldError>)
    ensures
        r == number_field(present(v)),
        r matches Ok(d) ==> d.wf(),
{
    match v {
        None => Err(FieldError::Missing),
        Some(AttributeValue::N(s)) => match Decimal::parse(s.as_str()) {
            Some(d) => Ok(d),
            None => Err(FieldError::BadNumber),
        },
        Some(_) => Err(FieldError::WrongType),
    }
}

pub fn decode_list(v: Option<&AttributeValue>) -> (r: Result<&Vec<AttributeValue>, FieldError>)
    ensures
        r matches Ok(l) ==> list_field(present(v)) == Ok::<Vec<AttributeValue>, FieldError>(*l),
        r matches Err(e) ==> list_field(present(v)) == Err::<Vec<AttributeValue>, FieldError>(e),
{
    match v {
        None => Err(FieldError::Missing),
        Some(a) => match a.as_l() {
            Some(l) => Ok(l),
            None => Err(FieldError::WrongType),
        },
    }
}

pub fn decode_map(v: Option<&AttributeValue>) -> (r: Result<&AttributeMap, FieldError>)
    ensures
        r matches Ok(m) ==> map_field(present(v)) == Ok::<AttributeMap, FieldError>(*m),
        r matches Err(e) ==> map_field(present(v)) == Err::<AttributeMap, FieldError>(e),
{
    match v {
        None => Err(FieldError::Missing),
        Some(a) => match a.as_m() {
            Some(m) => Ok(m),
            None => Err(FieldError::WrongType),
        },
    }
}

pub fn decode_string_set(v: Option<&AttributeValue>) -> (r: Result<Vec<String>, FieldError>)
    ensures
        seq_result(r) == string_set_field(present(v)),
{
    match v {
        None => Err(FieldError::Missing),
        Some(a) => match a.as_ss() {
            Some(ss) => Ok(ss),
            None => Err(FieldError::WrongType),
        },
    }
}

/// Reads a number set; fails with `BadNumber` where any member is not a plain
/// decimal.
pub fn decode_number_set(v: Option<&AttributeValue>) -> (r: Result<Vec<Decimal>, FieldError>)
    ensures
        seq_result(r) == number_set_field(present(v)),
        r matches Ok(ds) ==> forall|i: int| 0 <= i < ds@.len() ==> (#[trigger] ds@[i]).wf(),
{
    match v {
        None => Err(FieldError::Missing),
        Some(a) => match a.as_ns() {
            Some(ds) => Ok(ds),
            None => match a {
                AttributeValue::Ns(_) => Err(FieldError::BadNumber),
                _ => Err(FieldError::WrongType),
            },
        },
    }
}

pub fn encode_bool(b: bool) -> (r: AttributeValue)
    ensures
        r == AttributeValue::Bool(b),
{
    AttributeValue::Bool(b)
}

pub fn encode_null(b: bool) -> (r: AttributeValue)
    ensures
        r == AttributeValue::Null(b),
{
    AttributeValue::Null(b)
}

pub fn encode_string(s: String) -> (r: AttributeValue)
    ensures
        r == AttributeValue::S(s),
{
    AttributeValue::S(s)
}

/// A number as its plain decimal text, with no exponent.
pub fn encode_number(d: &Decimal) -> (r: AttributeValue)
    requires
        d.wf(),
    ensures
        r matches AttributeValue::N(t) && t@ == d.text(),
{
    AttributeValue::N(d.to_text())
}

pub fn encode_list(l: Vec<AttributeValue>) -> (r: AttributeValue)
    ensures
        r == AttributeValue::L(l),
{
    AttributeValue::L(l)
}

pub fn encode_map(m: AttributeMap) -> (r: AttributeValue)
    ensures
        r == AttributeValue::M(m),
{
    AttributeValue::M(m)
}

pub fn encode_string_set(ss: Vec<String>) -> (r: AttributeValue)
    ensures
        r == AttributeValue::Ss(ss),
{
    AttributeValue::Ss(ss)
}

pub fn encode_number_set(ds: &Vec<Decimal>) -> (r: AttributeValue)
    requires
        forall|i: int| 0 <= i < ds@.len() ==> (#[trigger] ds@[i]).wf(),
    ensures
        r matches AttributeValue::Ns(ts) && ts@.len() == ds@.len() && forall|i: int|
            0 <= i < ds@.len() ==> (#[trigger] ts@[i])@ == ds@[i].text(),
{
    let mut ts: Vec<String> = Vec::new();
    let mut i: usize = 0;
    while i < ds.len()
        invariant
            i <= ds@.len(),
            ts@.len() == i,
            forall|q: int| 0 <= q < i ==> (#[trigger] ts@[q])@ == ds@[q].text(),
        decreases ds@.len() - i,
    {
        ts.push(ds[i].to_text());
        i = i + 1;
    }
    AttributeValue::Ns(ts)
}

/// Reading back what the writers above produce gives the value written:
/// booleans, nulls, strings, lists, maps and string sets.
pub proof fn law_value_round_trip(
    b: bool,
    s: String,
    l: Vec<AttributeValue>,
    m: AttributeMap,
    ss: Vec<String>,
)
    ensures
        bool_field(Some(AttributeValue::Bool(b))) == Ok::<bool, FieldError>(b),
        null_field(Some(AttributeValue::Null(b))) == Ok::<bool, FieldError>(b),
        string_field(Some(AttributeValue::S(s))) == Ok::<String, FieldError>(s),
        list_field(Some(AttributeValue::L(l))) == Ok::<Vec<AttributeValue>, FieldError>(l),
        map_field(Some(AttributeValue::M(m))) == Ok::<AttributeMap, FieldError>(m),
        string_set_field(Some(AttributeValue::Ss(ss))) == Ok::<Seq<String>, FieldError>(ss@),
{
}

/// A canonical number written as text reads back as the same number.
pub proof fn law_number_round_trip(d: Decimal, v: AttributeValue)
    requires
        d.wf(),
        v matches AttributeValue::N(t) && t@ == d.text(),
    ensures
        number_field(Some(v)) == Ok::<Decimal, FieldError>(d),
{
    crate::decimal::lemma_text_parses(d);
}

/// A set of canonical numbers written as texts reads back as the same numbers.
pub proof fn law_number_set_round_trip(ds: Seq<Decimal>, v: AttributeValue)
    requires
        forall|i: int| 0 <= i < ds.len() ==> (#[trigger] ds[i]).wf(),
        v matches AttributeValue::Ns(ts) && ts@.len() == ds.len() && forall|i: int|
            0 <= i < ds.len() ==> (#[trigger] ts@[i])@ == ds[i].text(),
    ensures
        number_set_field(Some(v)) == Ok::<Seq<Decimal>, FieldError>(ds),
{
    let ts = v->Ns_0;
    assert forall|i: int| 0 <= i < ts@.len() implies (#[trigger] parse_decimal(ts@[i]@)) == Some(
        ds[i],
    ) by {
        crate::decimal::lemma_text_parses(ds[i]);
    }
    assert(numbers_of(ts@) =~= ds);
}


/// What a wire map decodes to as a product: `id` and `name` must be strings
/// and `price` a number, checked in that order; the first field that fails
/// names the error.
pub open spec fn product_of(item: Map<Seq<char>, AttributeValue>) -> Result<Product, DecodeError> {
    match string_field(crate::attribute::lookup(item, "id"@)) {
        Err(e) => Err(DecodeError::Field { field: ProductField::Id, error: e }),
        Ok(id) => match string_field(crate::attribute::lookup(item, "name"@)) {
            Err(e) => Err(DecodeError::Field { field: ProductField::Name, error: e }),
            Ok(name) => match number_field(crate::attribute::lookup(item, "price"@)) {
                Err(e) => Err(DecodeError::Field { field: ProductField::Price, error: e }),
                Ok(price) => Ok(Product { id, name, price }),
            },
        },
    }
}

/// The three keys of a product record differ.
pub proof fn lemma_product_keys()
    ensures
        "id"@ != "name"@,
        "id"@ != "price"@,
        "name"@ != "price"@,
{
    reveal_strlit("id");
    reveal_strlit("name");
    reveal_strlit("price");
    assert("id"@.len() != "name"@.len());
    assert("id"@.len() != "price"@.len());
    assert("name"@[0] != "price"@[0]);
}

impl Product {
    /// Decodes a product from its wire map; a product is produced only when
    /// all three fields are present and well-typed.
    pub fn from_dynamodb(item: &AttributeMap) -> (r: Result<Product, DecodeError>)
        ensures
            r == product_of(item@),
            r matches Ok(p) ==> p.price.wf(),
    {
        let id = match decode_string(item.get("id")) {
            Ok(s) => s,
            Err(e) => {
                return Err(DecodeError::Field { field: ProductField::Id, error: e });
            },
        };
        let name = match decode_string(item.get("name")) {
            Ok(s) => s,
            Err(e) => {
                return Err(DecodeError::Field { field: ProductField::Name, error: e });
            },
        };
        let price = match decode_number(item.get("price")) {
            Ok(d) => d,
            Err(e) => {
                return Err(DecodeError::Field { field: ProductField::Price, error: e });
            },
        };
        Ok(Product { id, name, price })
    }

    /// The wire map of a product: `id` and `name` as strings, `price` as the
    /// plain text of its number.
    pub fn to_dynamodb(&self) -> (r: AttributeMap)
        requires
            self.price.wf(),
        ensures
            r@.dom() == set!["id"@, "name"@, "price"@],
            r@["id"@] == AttributeValue::S(self.id),
            r@["name"@] == AttributeValue::S(self.name),
            r@["price"@] matches AttributeValue::N(t) && t@ == self.price.text(),
    {
        let mut r = AttributeMap::new();
        r.insert(crate::text::owned("id"), encode_string(self.id.clone()));
        r.insert(crate::text::owned("name"), encode_string(self.name.clone()));
        r.insert(crate::text::owned("price"), encode_number(&self.price));
        proof {
            lemma_product_keys();
            assert(r@.dom() =~= set!["id"@, "name"@, "price"@]);
        }
        r
    }
}

/// A product's wire map decodes to the same product, field for field.
pub proof fn law_product_round_trip(p: Product, item: Map<Seq<char>, AttributeValue>)
    requires
        p.price.wf(),
        item.contains_key("id"@) && item["id"@] == AttributeValue::S(p.id),
        item.contains_key("name"@) && item["name"@] == AttributeValue::S(p.name),
        item.contains_key("price"@) && (item["price"@] matches AttributeValue::N(t) && t@
            == p.price.text()),
    ensures
        product_of(item) == Ok::<Product, DecodeError>(p),
{
    law_number_round_trip(p.price, item["price"@]);
}

/// A map that lacks any of `id`, `name` or `price` does not decode: the error
/// names a field, and it names exactly the missing one where every field
/// checked before it is well-typed.
pub proof fn law_product_missing_field(item: Map<Seq<char>, AttributeValue>)
    requires
        !item.contains_key("id"@) || !item.contains_key("name"@) || !item.contains_key(
            "price"@,
        ),
    ensures
        product_of(item) matches Err(DecodeError::Field { .. }),
        !item.contains_key("id"@) ==> product_of(item) == Err::<Product, DecodeError>(
            DecodeError::Field { field: ProductField::Id, error: FieldError::Missing },
        ),
        !item.contains_key("name"@) && string_field(crate::attribute::lookup(item, "id"@)) is Ok
            ==> product_of(item) == Err::<Product, DecodeError>(
            DecodeError::Field { field: ProductField::Name, error: FieldError::Missing },
        ),
        !item.contains_key("price"@) && string_field(crate::attribute::lookup(item, "id"@)) is Ok
            && string_field(crate::attribute::lookup(item, "name"@)) is Ok ==> product_of(item)
            == Err::<Product, DecodeError>(
            DecodeError::Field { field: ProductField::Price, error: FieldError::Missing },
        ),
{
}

} // verus!
