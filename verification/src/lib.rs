//! In-memory columnar value model and an aggregate execution operator.
//!
//! The crate provides a typed scalar/column data model (`arrow`), the
//! bit-level ordering model for floating-point columns (`fp`), the error
//! taxonomy (`error`), runtime expressions (`expression`), the pull-based
//! relation protocol (`relation`), and the aggregate operator itself
//! (`aggregate`).

pub mod aggregate;
pub mod arrow;
pub mod error;
pub mod expression;
pub mod fp;
pub mod relation;
pub mod text;
