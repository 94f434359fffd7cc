//! Implementations of [`Exhaust`] for primitive and standard types, and the
//! iterator types backing them.
//!
//! [`Exhaust`]: crate::Exhaust

pub mod alloc_impls;
pub mod array;
pub mod core_convert;
pub mod core_fmt;
pub mod core_num;
pub mod core_ops;
pub mod core_option;
pub mod primitive;
pub mod std_impls;
pub mod tuples;
