//! Garbled-circuit evaluation, and the messages a garbler streams to an evaluator.
use vstd::prelude::*;

use crate::wire::Wire;

pub mod evaluator;
pub mod sync;

verus! {

/// A message from the garbler to the evaluator.
#[derive(Debug)]
pub enum Message {
    /// The encoded label of one of the garbler's inputs.
    GarblerInput(Wire),
    /// The encoded label of one of the evaluator's inputs.
    EvaluatorInput(Wire),
    /// The label of a constant.
    Constant { value: u16, wire: Wire },
    /// The ciphertexts of a garbled non-free gate.
    GarbledGate(Vec<u128>),
    /// The ciphertexts that decode one output.
    OutputCiphertext(Vec<u128>),
    /// The end of a block of messages sent under sync indices.
    EndSync,
}

impl Message {
    /// The wire of a garbler-input message of modulus `q`; `None` for any other
    /// message, or for a wire of another modulus.
    pub fn into_garbler_input(self, q: u16) -> (r: Option<Wire>)
        ensures
            match self {
                Message::GarblerInput(w) => if w@.q == q {
                    r == Some(w)
                } else {
                    r is None
                },
                _ => r is None,
            },
    {
        match self {
            Message::GarblerInput(w) => if w.modulus() == q {
                Some(w)
            } else {
                None
            },
            _ => None,
        }
    }

    /// The wire of an evaluator-input message of modulus `q`; `None` for any other
    /// message, or for a wire of another modulus.
    pub fn into_evaluator_input(self, q: u16) -> (r: Option<Wire>)
        ensures
            match self {
                Message::EvaluatorInput(w) => if w@.q == q {
                    r == Some(w)
                } else {
                    r is None
                },
                _ => r is None,
            },
    {
        match self {
            Message::EvaluatorInput(w) => if w.modulus() == q {
                Some(w)
            } else {
                None
            },
            _ => None,
        }
    }

    /// The wire of a constant message; `None` for any other message.
    pub fn into_constant(self) -> (r: Option<Wire>)
        ensures
            match self {
                Message::Constant { value, wire } => r == Some(wire),
                _ => r is None,
            },
    {
        match self {
            Message::Constant { wire, .. } => Some(wire),
            _ => None,
        }
    }

    /// The ciphertexts of a garbled-gate message; `None` for any other message.
    pub fn into_garbled_gate(self) -> (r: Option<Vec<u128>>)
        ensures
            match self {
                Message::GarbledGate(g) => r == Some(g),
                _ => r is None,
            },
    {
        match self {
            Message::GarbledGate(g) => Some(g),
            _ => None,
        }
    }

    /// The ciphertexts of an output message for a wire of modulus `q`: one per
    /// value, so their number, cut to 16 bits, must be `q`. `None` for any other
    /// message, or for another number of ciphertexts.
    pub fn into_output_ciphertext(self, q: u16) -> (r: Option<Vec<u128>>)
        ensures
            match self {
                Message::OutputCiphertext(c) => if c@.len() as u16 == q {
                    r == Some(c)
                } else {
                    r is None
                },
                _ => r is None,
            },
    {
        match self {
            Message::OutputCiphertext(c) => if c.len() as u16 == q {
                Some(c)
            } else {
                None
            },
            _ => None,
        }
    }

    /// Whether this message ends a sync block.
    pub fn is_end_sync(&self) -> (b: bool)
        ensures
            b == (self is EndSync),
    {
        match self {
            Message::EndSync => true,
            _ => false,
        }
    }
}

} // verus!
