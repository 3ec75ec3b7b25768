//! A small dense-matrix library for building the affine maps of an
//! iterated function system, with the rules that turn a list of plane
//! transformations into matrices.
//!
//! The matrices are generic over their element type. Every structural
//! operation (shape checks, row and column edits, flips, quarter turns,
//! the index pattern of products and determinants) is proved here; the
//! arithmetic on the elements is handed in by the caller as closures, and
//! the contracts say exactly in which order and on which elements they are
//! applied.
pub mod grid;
pub mod matrix;
pub mod transformation;
pub mod controls;
pub mod printout;
pub mod chaos;
