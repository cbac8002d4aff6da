//! A verified engine for structural records: ad-hoc bundles of named values
//! whose construction, destructuring and call sites may list fields in any
//! order, with every naming problem caught before the emitted code runs.
//!
//! The pipeline: a field-list parser over a small token model, a duplicate
//! detector, a canonicalizer that sorts every list by name, transformation
//! plans for the four surface forms, and a record value model that realizes
//! the emitted code's runtime semantics (build, destructure, named call).

pub mod canon;
pub mod demo;
pub mod errors;
pub mod fields;
pub mod order;
pub mod parse;
pub mod record;
pub mod token;
pub mod transform;
