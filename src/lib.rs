//! A product catalogue kept in a key-value table, and the change-data-capture
//! pipeline over that table's change stream: typed decoding of stream records
//! into domain events, and batched publication of those events to an event
//! bus under the bus's limit on entries per submission.

pub mod attribute;
pub mod batch;
pub mod bus;
pub mod codec;
pub mod decimal;
pub mod domain;
pub mod error;
pub mod http;
pub mod model;
pub mod pipeline;
pub mod publisher;
pub mod record;
pub mod store;
pub mod text;
