//! A calculator for finite groups of integers under addition modulo the
//! number of members: a working set, an identity candidate, the four group
//! axioms checked by exhaustion, and the commands of an interactive session.

pub mod axioms;
pub mod command;
pub mod elements;
pub mod group;
pub mod laws;
pub mod operation;
pub mod session;
