//! Order-ingestion core of a point-of-sale backend: order numbering,
//! customer identity resolution, stock deduction and the order pipeline,
//! over an in-memory model of the customer, order and product tables.

pub mod text;
pub mod numbering;
pub mod models;
pub mod customer_kind;
pub mod store;
pub mod sorting;
pub mod customers;
pub mod stock;
pub mod clock;
pub mod orders;
pub mod pipeline;
pub mod search_code;
