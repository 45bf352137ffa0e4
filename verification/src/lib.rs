//! Evaluation side of a garbling scheme over arbitrary moduli: wire labels,
//! the power tables used to move between labels and 128-bit blocks, and the
//! static evaluator, encoder and decoder of a garbled circuit.

pub mod circuit;
pub mod garble;
pub mod util;
pub mod wire;
