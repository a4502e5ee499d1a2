//! A circuit that proves a term of a Fibonacci sequence.
//!
//! The circuit takes three public values: two starting terms and a claimed output. Its table
//! has eight rows. The first adds the starting terms, and each further row adds the two terms
//! before it, so that the last sum is the term with index nine.
//!
//! - [`field`]: the numbers that the circuit computes with.
//! - [`plan`]: plain descriptions of what a circuit asks of a proof system.
//! - [`chip`]: the columns, the addition and the regions of the circuit.
//! - [`circuit`]: the circuit itself.
//! - [`witness`]: the values that a layout gives to its cells.
//! - [`constraints`]: what it means for values to satisfy a circuit.
//! - [`laws`]: what the circuit proves.
//! - [`embedding`]: what it proves among other circuits.
//! - [`operations`]: what the operations do, call by call.
//! - [`protocol`]: claims, and the answers of provers and verifiers.

pub mod chip;
pub mod circuit;
pub mod constraints;
pub mod embedding;
pub mod field;
pub mod laws;
pub mod operations;
pub mod plan;
pub mod protocol;
pub mod witness;

pub use protocol::FibonacciError;
