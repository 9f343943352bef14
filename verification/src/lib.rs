//! Routing of key/value pairs into the fields of a record.
//!
//! A record is handed pairs of a key and a value, one at a time. It takes the
//! pairs that are meant for it and hands the others back, so that they can be
//! offered to the next record:
//!
//! * a field takes the values of its keys: its own name, or the keys that its
//!   annotation lists; a value is assigned as it comes, or through the parser
//!   that the annotation names;
//! * a field can be excluded, and then takes nothing;
//! * a field can hold a nested record, which is asked before the keys of the
//!   record itself are looked at.
//!
//! The crate has two halves. [`attr`] and [`derive`] read the annotations of a
//! struct's fields and work out the dispatch tables of the struct: [`token`]
//! is the form in which the annotations' arguments come, and [`syntax`] is
//! where the Rust syntax crate is asked about literals and expressions.
//! [`yummy`] and [`kv`] are the two plainer forms of the derive. [`dispatch`]
//! and [`record`] are the operation itself: the traits that a record offers,
//! and a record that is put together at run time from the classifications of
//! its fields. [`laws`] states what holds of every record.

pub mod attr;
pub mod derive;
pub mod dispatch;
pub mod first;
pub mod kv;
pub mod laws;
pub mod record;
pub mod syntax;
pub mod text;
pub mod token;
pub mod yummy;

pub use crate::dispatch::{Guzzle, KVPredicates, KVPredicatesSimple, YummyMetadata};
