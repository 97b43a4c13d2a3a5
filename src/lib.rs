//! Cross-table lookups: a multiset-equality argument between execution traces,
//! built from randomized grand products.

pub mod field;
pub mod column;
pub mod challenge;
pub mod table;
pub mod error;
pub mod zpoly;
pub mod cross_check;
pub mod constraints;
pub mod laws;
pub mod oracle;
pub mod codec;
pub mod ctl_data;
pub mod membus;
