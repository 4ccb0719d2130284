//! A small customer directory served as hypermedia fragments: customers are
//! created, listed newest first as HTML blocks, and deleted by identifier.

pub mod customer;
pub mod decimal;
pub mod handlers;
pub mod markup;
pub mod payload;
pub mod store;
