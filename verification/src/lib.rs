//! Verified data layer of a point-of-sale application.
//!
//! Products, invoices and invoice lines live in a relational store; the
//! operations here map between stored rows (money as integer cents, nested
//! aggregates as JSON-shaped text) and domain objects, and maintain the
//! stock side effect of invoice creation.

pub mod domain;
pub mod json;
pub mod mapper;
pub mod money;
pub mod rows;
pub mod store;
pub mod text;

pub use domain::{Invoice, InvoiceHeader, InvoiceLine, Product};
pub use money::Money;
pub use rows::{AggInvoiceRow, FlatLineRow, InvoiceRow, LineRow, ProductRow};
pub use store::Store;
