//! A row-window constraint solver for witness generation over an
//! algebraically-constrained execution trace.
//!
//! A computation is a matrix of columns (witness columns to be solved for,
//! fixed columns with given values) over a sequence of rows, subject to
//! polynomial identities relating cells of a row and, optionally, the next
//! row. The [`processor::Processor`] resolves unknown cells of a bounded
//! window of rows by evaluating identities as affine expressions, applying
//! any deducible assignments, and propagating the consequences: to
//! copy-constrained cells, to a calling machine through a connecting
//! identity, or to forced external inputs.

pub mod affine;
pub mod columns;
pub mod copy_constraints;
pub mod expression;
pub mod field;
pub mod fixed_data;
pub mod identity_processor;
pub mod processor;
pub mod rows;
