//! The answer cache: its entries, its table, and the laws the table obeys.

pub mod entry;
pub mod laws;
pub mod table;
