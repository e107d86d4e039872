//! A registry that hands out dense, index-based handles for stored values and
//! lets a value be found again by a validated `scope:identifier` name.
//!
//! - [`id`]: the [`Id`] trait that a handle type implements.
//! - [`name`]: the [`Name`] type and the grammar that it is validated against.
//! - [`registry`]: the [`Registry`] itself.
//! - [`display`]: the text that shows a handle.
//!
//! Contracts are stated over a registry's view, the sequence of its entries
//! in insertion order, and over a name's view, its qualified string.

pub mod display;
pub mod id;
pub mod name;
pub mod registry;

pub use id::Id;
pub use name::{is_valid_name_segment, Name};
pub use registry::Registry;
