//! A staged builder for an in-memory contract metadata record.
//!
//! A [`record::MetadataRecord`] is a string-keyed mapping of contract
//! attributes. A [`builder::ContractBuilder`] drives it through a fixed
//! workflow: annotate while initial, validate, deploy with a one-shot hook,
//! and only then hand the finished mapping out. The stage a builder is in is
//! part of its type, so an operation of an earlier stage cannot be called on
//! a later handle.

pub mod builder;
pub mod record;
