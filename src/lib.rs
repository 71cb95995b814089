//! Single-threaded memory-management primitives: a mutable cell, the
//! reference-count protocol of a shared pointer, and a cell whose borrows are
//! checked at run time through guard tokens.
pub mod cell;
pub mod rc;
pub mod refcell;
