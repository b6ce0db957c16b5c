//! An object-relational mapping layer: entity metadata, SQL rendering,
//! insert planning and result assembly.
use vstd::prelude::*;

pub mod text;
pub mod assoc;
pub mod meta;
pub mod sql;
pub mod attr;
pub mod anno;
pub mod visitor;
pub mod formatter;
pub mod value;
pub mod cond;
pub mod select;
pub mod entity;
pub mod plan;
pub mod insert;
pub mod execute;
pub mod rows;
pub mod types;
pub mod placeholders;
pub mod trace;
pub mod laws;

verus! {
} // verus!
