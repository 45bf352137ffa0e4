//! Arithmetic circuits over mixed moduli, as the evaluator walks them.
use vstd::prelude::*;

verus! {

/// The index of a gate, whose output a later gate reads.
#[derive(Clone, Copy, Debug, PartialEq, Eq)]
pub struct Ref {
    pub ix: usize,
}

/// A gate of a circuit. Inputs and constants carry their index; the two
/// non-free gates (projections and multiplications) carry the index of their
/// garbled table.
pub enum Gate {
    GarblerInput { id: usize },
    EvaluatorInput { id: usize },
    Constant { val: u16 },
    Add { xref: Ref, yref: Ref },
    Sub { xref: Ref, yref: Ref },
    Cmul { xref: Ref, c: u16 },
    Proj { xref: Ref, tt: Vec<u16>, id: usize },
    Mul { xref: Ref, yref: Ref, id: usize },
}

/// A circuit: its gates in topological order, the modulus of each gate's
/// output, and the references that form its output.
pub struct Circuit {
    pub gates: Vec<Gate>,
    pub gate_moduli: Vec<u16>,
    pub output_refs: Vec<Ref>,
}

impl Circuit {
    /// The modulus of the output of gate `i`.
    pub fn modulus(&self, i: usize) -> (q: u16)
        requires
            i < self.gate_moduli@.len(),
        ensures
            q == self.gate_moduli@[i as int],
    {
        self.gate_moduli[i]
    }
}

} // verus!
