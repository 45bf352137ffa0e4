//! Evaluation of garbled gates and of whole garbled circuits, and the static
//! encoder and decoder that a garbler hands to the evaluator.
use std::collections::HashMap;
use vstd::arithmetic::div_mod::{lemma_add_mod_noop, lemma_add_mod_noop_right, lemma_mul_mod_noop_left};
use vstd::prelude::*;

use crate::circuit::{Circuit, Gate};
use crate::garble::sync::{lemma_plain_numbering, plain_after, SyncModel};
use crate::util::{output_tweak, tweak2, two_pow_64};
use crate::wire::{
    label_cmul, label_color, label_hash, label_hashback, label_minus, label_of, label_plus,
    label_value, lemma_label_of_value, lemma_label_value_bound, Label, Wire,
};

verus! {

broadcast use vstd::std_specs::hash::group_hash_axioms;

/// The tweak that packs gate number `i` and sub-index `j`: `i * 2^64 + j`.
pub open spec fn tweak2_spec(i: nat, j: nat) -> u128 {
    (i * two_pow_64() + j) as u128
}

/// The 16-bit color of a label, as the evaluator reads it.
pub open spec fn color16(l: Label) -> u16 {
    label_color(l) as u16
}

/// What a garbled multiplication gate needs so that evaluating it reads only
/// existing ciphertexts and shifts by less than 128 bits.
pub open spec fn mul_gate_ok(gate: Seq<u128>, a: Label, b: Label) -> bool {
    let ca = label_color(a);
    let cb = label_color(b);
    &&& ca != 0 ==> ca - 1 < gate.len()
    &&& cb != 0 ==> a.q + cb < 65536 && a.q + cb - 2 < gate.len()
    &&& a.q != b.q ==> gate.len() > 0 && cb < 8
}

/// The output label of garbled multiplication gate number `n` with table `gate`
/// on input labels `a` and `b` (half-gate evaluation). The garbler's half comes
/// from `a`, the evaluator's half from `b`; for unequal moduli the color of `b`
/// is first mapped through the last ciphertext of the table.
pub open spec fn mul_gate_spec(gate: Seq<u128>, n: nat, a: Label, b: Label) -> Label {
    let g = tweak2_spec(n, 0);
    let q = a.q;
    let ca = label_color(a);
    let cb = label_color(b);
    let l = if ca == 0 {
        label_hashback(a, g, q)
    } else {
        label_of((gate[ca - 1] ^ label_hash(a, g)) as nat, q)
    };
    let r = if cb == 0 {
        label_hashback(b, g, q)
    } else {
        label_of((gate[q + cb - 2] ^ label_hash(b, g)) as nat, q)
    };
    let new_b_color: nat = if a.q != b.q {
        let ct = gate.last() >> ((color16(b) * 16) as u16);
        ((label_hash(b, tweak2_spec(n, 1)) ^ ct) as u16) as nat
    } else {
        cb
    };
    label_plus(l, label_plus(r, label_cmul(a, new_b_color)))
}

/// The output label of garbled projection gate number `n` with table `gate` on
/// input label `x`, as a label of modulus `q`.
pub open spec fn proj_gate_spec(gate: Seq<u128>, n: nat, x: Label, q: nat) -> Label {
    let cx = label_color(x);
    if cx == 0 {
        label_hashback(x, n as u128, q)
    } else {
        label_of((gate[cx - 1] ^ label_hash(x, n as u128)) as nat, q)
    }
}

/// A 128-bit block encrypts label `t` under key `h` when it is `h` xor the block
/// that `t` stands for.
pub open spec fn encrypts(ct: u128, h: u128, t: Label) -> bool {
    ct == h ^ (label_value(t) as u128)
}

/// The hash `h` stands directly for label `t` of modulus `q` (no ciphertext needed).
pub open spec fn hashes_to(h: u128, q: nat, t: Label) -> bool {
    label_of(h as nat, q) == t
}

/// Decrypting a block that encrypts a well-formed label, under the same key,
/// gives back that label.
proof fn lemma_decrypt(ct: u128, h: u128, t: Label)
    requires
        t.wf(),
        encrypts(ct, h, t),
    ensures
        label_of((ct ^ h) as nat, t.q) == t,
{
    let v = label_value(t) as u128;
    assert((h ^ v) ^ h == v) by (bit_vector);
    lemma_label_value_bound(t);
    lemma_label_of_value(t);
}

/// Law (half-gate decryption): a garbled multiplication table of gate `n` is
/// read so that the evaluator recovers exactly what the table holds for the
/// colors of its two input labels. If, for the color of `a`, the garbler's half
/// holds label `tl` (encrypted under the hash of `a`, or given by that hash alone
/// for color 0), and, for the color of `b`, the evaluator's half holds `tr` in the
/// same way, and the color of `b` stands for the value `c` (for equal moduli the
/// color itself; for unequal moduli the value that the mini-table entry of that
/// color encrypts under the low 16 bits of the hash of `b`), then the output is
/// `tl + tr + c * a`. Each half is chosen by its own label's color alone.
pub proof fn lemma_mul_gate_decrypts(
    gate: Seq<u128>,
    n: nat,
    a: Label,
    b: Label,
    tl: Label,
    tr: Label,
    c: nat,
)
    requires
        a.wf(),
        b.wf(),
        tl.wf(),
        tr.wf(),
        tl.q == a.q,
        tr.q == a.q,
        mul_gate_ok(gate, a, b),
        label_color(a) == 0 ==> hashes_to(label_hash(a, tweak2_spec(n, 0)), a.q, tl),
        label_color(a) != 0 ==> encrypts(
            gate[label_color(a) - 1],
            label_hash(a, tweak2_spec(n, 0)),
            tl,
        ),
        label_color(b) == 0 ==> hashes_to(label_hash(b, tweak2_spec(n, 0)), a.q, tr),
        label_color(b) != 0 ==> encrypts(
            gate[a.q + label_color(b) - 2],
            label_hash(b, tweak2_spec(n, 0)),
            tr,
        ),
        a.q == b.q ==> c == label_color(b),
        a.q != b.q ==> c < 65536 && (gate.last() >> ((color16(b) * 16) as u16)) as u16 == (c as u16
            ^ (label_hash(b, tweak2_spec(n, 1)) as u16)),
    ensures
        mul_gate_spec(gate, n, a, b) == label_plus(tl, label_plus(tr, label_cmul(a, c))),
{
    let g = tweak2_spec(n, 0);
    let ca = label_color(a);
    let cb = label_color(b);
    if ca != 0 {
        lemma_decrypt(gate[ca - 1], label_hash(a, g), tl);
    }
    if cb != 0 {
        lemma_decrypt(gate[a.q + cb - 2], label_hash(b, g), tr);
    }
    if a.q != b.q {
        let h = label_hash(b, tweak2_spec(n, 1));
        let ct = gate.last() >> ((color16(b) * 16) as u16);
        let cc = c as u16;
        assert((h ^ ct) as u16 == (h as u16) ^ (ct as u16)) by (bit_vector);
        assert(((h as u16) ^ (cc ^ (h as u16))) == cc) by (bit_vector);
        assert(((h ^ ct) as u16) as nat == c);
    }
}

/// Law (projection decryption): a garbled projection table of gate `n` is read so
/// that the evaluator recovers exactly the label the table holds for the color of
/// its input: for color 0 the label that the hash of `x` stands for, for any other
/// color `k` the label that ciphertext `k - 1` encrypts under that hash.
pub proof fn lemma_proj_gate_decrypts(gate: Seq<u128>, n: nat, x: Label, q: nat, t: Label)
    requires
        x.wf(),
        t.wf(),
        t.q == q,
        label_color(x) <= gate.len(),
        label_color(x) == 0 ==> hashes_to(label_hash(x, n as u128), q, t),
        label_color(x) != 0 ==> encrypts(gate[label_color(x) - 1], label_hash(x, n as u128), t),
    ensures
        proj_gate_spec(gate, n, x, q) == t,
{
    let cx = label_color(x);
    if cx != 0 {
        lemma_decrypt(gate[cx - 1], label_hash(x, n as u128), t);
    }
}

/// Tells whether a garbled multiplication table and two wires can be evaluated
/// together (`mul_gate_ok`).
pub fn mul_gate_fits(gate: &[u128], a: &Wire, b: &Wire) -> (ok: bool)
    ensures
        ok == mul_gate_ok(gate@, a@, b@),
{
    proof {
        use_type_invariant(a);
        use_type_invariant(b);
    }
    let ca = a.color() as usize;
    let cb = b.color() as usize;
    let q = a.modulus() as usize;
    let left_ok = ca == 0 || ca - 1 < gate.len();
    let right_ok = cb == 0 || (q + cb < 65536 && q + cb - 2 < gate.len());
    let mini_ok = a.modulus() == b.modulus() || (gate.len() > 0 && cb < 8);
    left_ok && right_ok && mini_ok
}

/// Evaluates garbled multiplication gate number `gate_num`, with table `gate`,
/// on the wires `a` and `b`.
pub fn eval_mul_gate(gate: &[u128], gate_num: usize, a: &Wire, b: &Wire) -> (w: Wire)
    requires
        mul_gate_ok(gate@, a@, b@),
    ensures
        w@.wf(),
        w@.q == a@.q,
        w@ == mul_gate_spec(gate@, gate_num as nat, a@, b@),
{
    proof {
        use_type_invariant(a);
        use_type_invariant(b);
    }
    let g = tweak2(gate_num as u64, 0);
    let q = a.modulus();

    // garbler's half gate
    let l = if a.color() == 0 {
        a.hashback(g, q)
    } else {
        let ct_left = gate[a.color() as usize - 1];
        Wire::from_u128(ct_left ^ a.hash(g), q)
    };

    // evaluator's half gate
    let r = if b.color() == 0 {
        b.hashback(g, q)
    } else {
        let ct_right = gate[(q + b.color()) as usize - 2];
        Wire::from_u128(ct_right ^ b.hash(g), q)
    };

    // unequal moduli: map the color of `b` through the mini-table
    let new_b_color = if a.modulus() != b.modulus() {
        let minitable = gate[gate.len() - 1];
        let ct = minitable >> (b.color() * 16);
        let pt = b.hash(tweak2(gate_num as u64, 1)) ^ ct;
        pt as u16
    } else {
        b.color()
    };

    let mut rhs = r;
    rhs.plus_mov(&a.cmul(new_b_color));
    let mut out = l;
    out.plus_mov(&rhs);
    out
}

/// Evaluates garbled projection gate number `gate_num`, with table `gate`, on the
/// wire `x`, giving a wire of modulus `q`.
pub fn eval_proj_gate(gate: &[u128], gate_num: usize, x: &Wire, q: u16) -> (w: Wire)
    requires
        gate@.len() % 65536 + 1 == x@.q,
        q >= 2,
    ensures
        w@.wf(),
        w@.q == q,
        w@ == proj_gate_spec(gate@, gate_num as nat, x@, q as nat),
{
    proof {
        use_type_invariant(x);
    }
    if x.color() == 0 {
        x.hashback(gate_num as u128, q)
    } else {
        let ct = gate[x.color() as usize - 1];
        Wire::from_u128(ct ^ x.hash(gate_num as u128), q)
    }
}

////////////////////////////////////////////////////////////////////////////////
// Encoder

/// The labels of a sequence of wires.
pub open spec fn labels(ws: Seq<Wire>) -> Seq<Label> {
    ws.map_values(|w: Wire| w@)
}

/// The labels held in a map of wires.
pub open spec fn label_map<K>(m: Map<K, Wire>) -> Map<K, Label> {
    m.map_values(|w: Wire| w@)
}

/// The label that encodes value `x` for an input whose zero label is `zero` and
/// whose modulus has offset `delta`: `zero + x * delta`.
pub open spec fn encode_spec(zero: Label, delta: Label, x: nat) -> Label {
    label_plus(zero, label_cmul(delta, x))
}

/// The abstract contents of an encoder: the zero labels of the garbler's and the
/// evaluator's inputs, and the offset of each modulus.
pub struct EncoderModel {
    pub garbler_inputs: Seq<Label>,
    pub evaluator_inputs: Seq<Label>,
    pub deltas: Map<u16, Label>,
}

impl EncoderModel {
    /// The label that encodes value `x` of the garbler's input number `id`.
    pub open spec fn encode_garbler(self, x: nat, id: int) -> Label {
        let zero = self.garbler_inputs[id];
        encode_spec(zero, self.deltas[zero.q as u16], x)
    }

    /// The label that encodes value `x` of the evaluator's input number `id`.
    pub open spec fn encode_evaluator(self, x: nat, id: int) -> Label {
        let zero = self.evaluator_inputs[id];
        encode_spec(zero, self.deltas[zero.q as u16], x)
    }

    /// Input `zero` has an offset for its modulus, of that same modulus.
    pub open spec fn can_encode(self, zero: Label) -> bool {
        &&& self.deltas.contains_key(zero.q as u16)
        &&& self.deltas[zero.q as u16].q == zero.q
    }
}

/// Encodes inputs statically: holds the zero label of every input and the offset
/// (the global difference) of every modulus.
#[derive(Debug, PartialEq, Eq)]
pub struct Encoder {
    garbler_inputs: Vec<Wire>,
    evaluator_inputs: Vec<Wire>,
    deltas: HashMap<u16, Wire>,
}

impl View for Encoder {
    type V = EncoderModel;

    closed spec fn view(&self) -> EncoderModel {
        EncoderModel {
            garbler_inputs: labels(self.garbler_inputs@),
            evaluator_inputs: labels(self.evaluator_inputs@),
            deltas: label_map(self.deltas@),
        }
    }
}

impl Encoder {
    /// Makes an encoder from the zero labels of the inputs and the offsets.
    pub fn new(
        garbler_inputs: Vec<Wire>,
        evaluator_inputs: Vec<Wire>,
        deltas: HashMap<u16, Wire>,
    ) -> (e: Self)
        ensures
            e@.garbler_inputs == labels(garbler_inputs@),
            e@.evaluator_inputs == labels(evaluator_inputs@),
            e@.deltas == label_map(deltas@),
    {
        Encoder { garbler_inputs, evaluator_inputs, deltas }
    }

    /// The zero labels of the garbler's inputs.
    pub fn garbler_inputs(&self) -> (ws: &Vec<Wire>)
        ensures
            labels(ws@) == self@.garbler_inputs,
    {
        &self.garbler_inputs
    }

    /// The zero labels of the evaluator's inputs.
    pub fn evaluator_inputs(&self) -> (ws: &Vec<Wire>)
        ensures
            labels(ws@) == self@.evaluator_inputs,
    {
        &self.evaluator_inputs
    }

    /// The offset of every modulus.
    pub fn deltas(&self) -> (ds: &HashMap<u16, Wire>)
        ensures
            label_map(ds@) == self@.deltas,
    {
        &self.deltas
    }

    /// The number of the garbler's inputs.
    pub fn num_garbler_inputs(&self) -> (n: usize)
        ensures
            n == self@.garbler_inputs.len(),
    {
        self.garbler_inputs.len()
    }

    /// The number of the evaluator's inputs.
    pub fn num_evaluator_inputs(&self) -> (n: usize)
        ensures
            n == self@.evaluator_inputs.len(),
    {
        self.evaluator_inputs.len()
    }

    /// Encodes `x` with zero label `zero`: adds `x` times the offset of its modulus.
    fn encode_with(&self, zero: &Wire, x: u16) -> (w: Wire)
        requires
            self@.can_encode(zero@),
        ensures
            w@ == encode_spec(zero@, self@.deltas[zero@.q as u16], x as nat),
    {
        let q = zero.modulus();
        proof {
            assert(self.deltas@.contains_key(q));
        }
        let delta = self.deltas.get(&q).unwrap();
        zero.plus(&delta.cmul(x))
    }

    /// Encodes value `x` of the garbler's input number `id`.
    pub fn encode_garbler_input(&self, x: u16, id: usize) -> (w: Wire)
        requires
            id < self@.garbler_inputs.len(),
            self@.can_encode(self@.garbler_inputs[id as int]),
        ensures
            w@ == self@.encode_garbler(x as nat, id as int),
    {
        self.encode_with(&self.garbler_inputs[id], x)
    }

    /// Encodes value `x` of the evaluator's input number `id`.
    pub fn encode_evaluator_input(&self, x: u16, id: usize) -> (w: Wire)
        requires
            id < self@.evaluator_inputs.len(),
            self@.can_encode(self@.evaluator_inputs[id as int]),
        ensures
            w@ == self@.encode_evaluator(x as nat, id as int),
    {
        self.encode_with(&self.evaluator_inputs[id], x)
    }

    /// Encodes all of the garbler's inputs, one value per input.
    pub fn encode_garbler_inputs(&self, inputs: &[u16]) -> (ws: Vec<Wire>)
        requires
            inputs@.len() == self@.garbler_inputs.len(),
            forall|i: int|
                0 <= i < inputs@.len() ==> self@.can_encode(#[trigger] self@.garbler_inputs[i]),
        ensures
            ws@.len() == inputs@.len(),
            forall|i: int|
                0 <= i < inputs@.len() ==> #[trigger] ws@[i]@ == self@.encode_garbler(inputs@[i] as nat, i),
    {
        let mut ws: Vec<Wire> = Vec::new();
        for id in 0..inputs.len()
            invariant
                inputs@.len() == self@.garbler_inputs.len(),
                forall|i: int|
                    0 <= i < inputs@.len() ==> self@.can_encode(#[trigger] self@.garbler_inputs[i]),
                ws@.len() == id,
                forall|i: int|
                    0 <= i < id ==> #[trigger] ws@[i]@ == self@.encode_garbler(inputs@[i] as nat, i),
        {
            ws.push(self.encode_garbler_input(inputs[id], id));
        }
        ws
    }

    /// Encodes all of the evaluator's inputs, one value per input.
    pub fn encode_evaluator_inputs(&self, inputs: &[u16]) -> (ws: Vec<Wire>)
        requires
            inputs@.len() == self@.evaluator_inputs.len(),
            forall|i: int|
                0 <= i < inputs@.len() ==> self@.can_encode(#[trigger] self@.evaluator_inputs[i]),
        ensures
            ws@.len() == inputs@.len(),
            forall|i: int|
                0 <= i < inputs@.len() ==> #[trigger] ws@[i]@ == self@.encode_evaluator(inputs@[i] as nat, i),
    {
        let mut ws: Vec<Wire> = Vec::new();
        for id in 0..inputs.len()
            invariant
                inputs@.len() == self@.evaluator_inputs.len(),
                forall|i: int|
                    0 <= i < inputs@.len() ==> self@.can_encode(#[trigger] self@.evaluator_inputs[i]),
                ws@.len() == id,
                forall|i: int|
                    0 <= i < id ==> #[trigger] ws@[i]@ == self@.encode_evaluator(inputs@[i] as nat, i),
        {
            ws.push(self.encode_evaluator_input(inputs[id], id));
        }
        ws
    }
}

/// Law: the encoding of 0 is the zero label, and the encodings of one input
/// differ from it by multiples of the offset: `encode(x) - encode(0) == x * delta`.
pub proof fn lemma_encoding_offsets(zero: Label, delta: Label, x: nat)
    requires
        zero.wf(),
        delta.wf(),
        zero.q == delta.q,
    ensures
        encode_spec(zero, delta, 0) == zero,
        label_minus(encode_spec(zero, delta, x), encode_spec(zero, delta, 0)) == label_cmul(
            delta,
            x,
        ),
{
    let q = zero.q as int;
    let e0 = encode_spec(zero, delta, 0);
    let ex = encode_spec(zero, delta, x);
    assert forall|i: int| 0 <= i < zero.ds.len() implies e0.ds[i] == zero.ds[i] by {
        let zi = zero.ds[i] as int;
        assert(delta.ds[i] * 0 == 0);
        vstd::arithmetic::div_mod::lemma_small_mod(0, q as nat);
        vstd::arithmetic::div_mod::lemma_small_mod(zi as nat, q as nat);
    }
    assert(e0.ds =~= zero.ds);
    let m = label_minus(ex, e0);
    let c = label_cmul(delta, x);
    assert forall|i: int| 0 <= i < zero.ds.len() implies m.ds[i] == c.ds[i] by {
        let zi = zero.ds[i] as int;
        let dx = (delta.ds[i] * x) as int;
        let r = dx % q;
        vstd::arithmetic::div_mod::lemma_mod_pos_bound(dx, q);
        // ex = (z + r) % q, and ((z + r) % q - z) % q == r
        let t = (zi + r) / q;
        vstd::arithmetic::div_mod::lemma_fundamental_div_mod(zi + r, q);
        assert((zi + r) % q - zi == q * (-t) + r) by (nonlinear_arith)
            requires
                zi + r == q * t + (zi + r) % q,
        ;
        vstd::arithmetic::div_mod::lemma_mod_multiples_vanish(-t, r, q);
        vstd::arithmetic::div_mod::lemma_small_mod(r as nat, q as nat);
        assert(m.ds[i] == (((zi + r) % q - zi) % q) as nat);
    }
    assert(m.ds =~= c.ds);
}

/// Law: the encodings that an encoder gives for one garbler input start at that
/// input's zero label and differ by multiples of its modulus's offset.
pub proof fn lemma_encoder_garbler_offsets(e: EncoderModel, id: int, x: nat)
    requires
        0 <= id < e.garbler_inputs.len(),
        e.can_encode(e.garbler_inputs[id]),
        e.garbler_inputs[id].wf(),
        e.deltas[e.garbler_inputs[id].q as u16].wf(),
    ensures
        e.encode_garbler(0, id) == e.garbler_inputs[id],
        label_minus(e.encode_garbler(x, id), e.encode_garbler(0, id)) == label_cmul(
            e.deltas[e.garbler_inputs[id].q as u16],
            x,
        ),
{
    let zero = e.garbler_inputs[id];
    lemma_encoding_offsets(zero, e.deltas[zero.q as u16], x);
}

/// Law: the encodings that an encoder gives for one evaluator input start at that
/// input's zero label and differ by multiples of its modulus's offset.
pub proof fn lemma_encoder_evaluator_offsets(e: EncoderModel, id: int, x: nat)
    requires
        0 <= id < e.evaluator_inputs.len(),
        e.can_encode(e.evaluator_inputs[id]),
        e.evaluator_inputs[id].wf(),
        e.deltas[e.evaluator_inputs[id].q as u16].wf(),
    ensures
        e.encode_evaluator(0, id) == e.evaluator_inputs[id],
        label_minus(e.encode_evaluator(x, id), e.encode_evaluator(0, id)) == label_cmul(
            e.deltas[e.evaluator_inputs[id].q as u16],
            x,
        ),
{
    let zero = e.evaluator_inputs[id];
    lemma_encoding_offsets(zero, e.deltas[zero.q as u16], x);
}

/// Law (free addition): adding the encodings of `x` and `y`, made with the same
/// offset, gives the encoding of `x + y` under the sum of the zero labels.
pub proof fn lemma_plus_of_encodings(a: Label, b: Label, delta: Label, x: nat, y: nat)
    requires
        a.wf(),
        b.wf(),
        delta.wf(),
        a.q == b.q,
        a.q == delta.q,
    ensures
        label_plus(encode_spec(a, delta, x), encode_spec(b, delta, y)) == encode_spec(
            label_plus(a, b),
            delta,
            x + y,
        ),
{
    let q = a.q as int;
    let lhs = label_plus(encode_spec(a, delta, x), encode_spec(b, delta, y));
    let rhs = encode_spec(label_plus(a, b), delta, x + y);
    assert forall|i: int| 0 <= i < a.ds.len() implies lhs.ds[i] == rhs.ds[i] by {
        let ai = a.ds[i] as int;
        let bi = b.ds[i] as int;
        let di = delta.ds[i] as int;
        let dx = di * x;
        let dy = di * y;
        let dxy = di * (x + y);
        assert(dxy == dx + dy) by (nonlinear_arith)
            requires
                dx == di * x,
                dy == di * y,
                dxy == di * (x + y),
        ;
        // both sides are (ai + bi + dx + dy) mod q
        lemma_add_mod_noop_right(ai, dx, q);
        lemma_add_mod_noop_right(bi, dy, q);
        lemma_add_mod_noop(ai + dx, bi + dy, q);
        lemma_add_mod_noop(ai + bi, dxy, q);
        lemma_add_mod_noop_right((ai + bi) % q, dxy, q);
        assert(lhs.ds[i] == (((ai + dx) % q) + ((bi + dy) % q)) % q);
        assert(rhs.ds[i] == ((ai + bi) % q + dxy % q) % q);
    }
    assert(lhs.ds =~= rhs.ds);
}

/// Law (free multiplication by a constant): multiplying the encoding of `x` by `c`
/// gives the encoding of `x * c` under the zero label multiplied by `c`.
pub proof fn lemma_cmul_of_encoding(a: Label, delta: Label, x: nat, c: nat)
    requires
        a.wf(),
        delta.wf(),
        a.q == delta.q,
    ensures
        label_cmul(encode_spec(a, delta, x), c) == encode_spec(label_cmul(a, c), delta, x * c),
{
    let q = a.q as int;
    let lhs = label_cmul(encode_spec(a, delta, x), c);
    let rhs = encode_spec(label_cmul(a, c), delta, x * c);
    assert forall|i: int| 0 <= i < a.ds.len() implies lhs.ds[i] == rhs.ds[i] by {
        let ai = a.ds[i] as int;
        let di = delta.ds[i] as int;
        let dx = di * x;
        lemma_add_mod_noop_right(ai, dx, q);
        lemma_mul_mod_noop_left(ai + dx, c as int, q);
        assert((ai + dx) * c == ai * c + di * (x * c)) by (nonlinear_arith)
            requires
                dx == di * x,
        ;
        lemma_add_mod_noop(ai * c, di * (x * c), q);
        assert(lhs.ds[i] == (((ai + dx % q) % q) * c) % q);
        assert(rhs.ds[i] == ((ai * c) % q + (di * (x * c)) % q) % q);
    }
    assert(lhs.ds =~= rhs.ds);
}

////////////////////////////////////////////////////////////////////////////////
// Decoder

/// The tweak under which the label for value `k` of output `i` is hashed.
pub open spec fn output_tweak_spec(i: nat, k: nat) -> u128 {
    tweak2_spec(i + 1, k)
}

/// The first value `k' >= k` whose output ciphertext matches the hash of label `w`
/// of output number `i`, if any below the modulus.
pub open spec fn find_output(cts: Seq<u128>, w: Label, i: nat, k: nat) -> Option<nat>
    decreases w.q - k,
{
    if k >= w.q {
        None
    } else if label_hash(w, output_tweak_spec(i, k)) == cts[k as int] {
        Some(k)
    } else {
        find_output(cts, w, i, k + 1)
    }
}

/// Output wire `i` of `ws` matches one of its ciphertexts in `outputs`.
pub open spec fn decodes(outputs: Seq<Seq<u128>>, ws: Seq<Label>, i: int) -> bool {
    find_output(outputs[i], ws[i], i as nat, 0) is Some
}

/// The value that output wire `i` of `ws` decodes to: the least matching value.
pub open spec fn decoded_value(outputs: Seq<Seq<u128>>, ws: Seq<Label>, i: int) -> nat {
    find_output(outputs[i], ws[i], i as nat, 0)->Some_0
}

/// Decodes outputs statically: holds, for each output, one ciphertext per value.
#[derive(Debug, PartialEq, Eq)]
pub struct Decoder {
    outputs: Vec<Vec<u128>>,
}

impl View for Decoder {
    type V = Seq<Seq<u128>>;

    closed spec fn view(&self) -> Seq<Seq<u128>> {
        self.outputs@.map_values(|v: Vec<u128>| v@)
    }
}

impl Decoder {
    /// Makes a decoder from the output ciphertexts.
    pub fn new(outputs: Vec<Vec<u128>>) -> (d: Self)
        ensures
            d@ == outputs@.map_values(|v: Vec<u128>| v@),
    {
        Decoder { outputs }
    }

    /// The output ciphertexts.
    pub fn outputs(&self) -> (outs: &Vec<Vec<u128>>)
        ensures
            outs@.map_values(|v: Vec<u128>| v@) == self@,
    {
        &self.outputs
    }

    /// Decodes output wire `i`: the least value whose ciphertext matches, if any.
    fn decode_one(&self, ws: &[Wire], i: usize) -> (r: Option<u16>)
        requires
            i < ws@.len(),
            ws@.len() == self@.len(),
            self@[i as int].len() == ws@[i as int]@.q,
        ensures
            match find_output(self@[i as int], labels(ws@)[i as int], i as nat, 0) {
                Some(k) => r == Some(k as u16),
                None => r is None,
            },
    {
        let n = ws.len();
        let w = &ws[i];
        let cts = &self.outputs[i];
        let q = w.modulus();
        let ghost l = w@;
        assert(cts@ == self@[i as int]);
        assert(labels(ws@)[i as int] == l);
        let mut k: u16 = 0;
        while k < q
            invariant
                find_output(cts@, l, i as nat, 0) == find_output(cts@, l, i as nat, k as nat),
                k <= q,
                q == l.q,
                l == w@,
                cts@.len() == q,
                i < n,
                cts@ == self@[i as int],
                labels(ws@)[i as int] == l,
            decreases q - k,
        {
            let t = output_tweak(i, k);
            assert(t == output_tweak_spec(i as nat, k as nat));
            let h = w.hash(t);
            if h == cts[k as usize] {
                assert(find_output(cts@, l, i as nat, k as nat) == Some(k as nat));
                return Some(k);
            }
            k = k + 1;
        }
        None
    }

    /// Tells whether every output wire matches one of its ciphertexts, so that
    /// `decode` may be called.
    pub fn decodes_all(&self, ws: &[Wire]) -> (ok: bool)
        requires
            ws@.len() == self@.len(),
            forall|i: int| 0 <= i < ws@.len() ==> #[trigger] self@[i].len() == ws@[i]@.q,
        ensures
            ok == forall|i: int| 0 <= i < ws@.len() ==> #[trigger] decodes(self@, labels(ws@), i),
    {
        let n = ws.len();
        for i in 0..n
            invariant
                n == ws@.len(),
                ws@.len() == self@.len(),
                forall|i: int| 0 <= i < ws@.len() ==> #[trigger] self@[i].len() == ws@[i]@.q,
                forall|j: int| 0 <= j < i ==> #[trigger] decodes(self@, labels(ws@), j),
        {
            if self.decode_one(ws, i).is_none() {
                assert(!decodes(self@, labels(ws@), i as int));
                return false;
            }
        }
        true
    }

    /// Decodes output wires: for output `i`, the least value `k` whose ciphertext
    /// equals the hash of the wire under the output tweak of `(i, k)`. Every wire
    /// must match one of its ciphertexts.
    pub fn decode(&self, ws: &[Wire]) -> (outs: Vec<u16>)
        requires
            ws@.len() == self@.len(),
            forall|i: int| 0 <= i < ws@.len() ==> #[trigger] self@[i].len() == ws@[i]@.q,
            forall|i: int| 0 <= i < ws@.len() ==> #[trigger] decodes(self@, labels(ws@), i),
        ensures
            outs@.len() == ws@.len(),
            forall|i: int|
                0 <= i < ws@.len() ==> #[trigger] outs@[i] as nat == decoded_value(
                    self@,
                    labels(ws@),
                    i,
                ),
    {
        let mut outs: Vec<u16> = Vec::new();
        let n = ws.len();
        for i in 0..n
            invariant
                n == ws@.len(),
                ws@.len() == self@.len(),
                forall|i: int| 0 <= i < ws@.len() ==> #[trigger] self@[i].len() == ws@[i]@.q,
                forall|i: int| 0 <= i < ws@.len() ==> #[trigger] decodes(self@, labels(ws@), i),
                outs@.len() == i,
                forall|j: int|
                    0 <= j < i ==> #[trigger] outs@[j] as nat == decoded_value(self@, labels(ws@), j),
        {
            assert(decodes(self@, labels(ws@), i as int));
            let w = &ws[i];
            proof {
                use_type_invariant(w);
            }
            let k = self.decode_one(ws, i).unwrap();
            proof {
                lemma_find_output_least(self@[i as int], labels(ws@)[i as int], i as nat, 0);
            }
            outs.push(k);
        }
        outs
    }
}

/// Law: decoding an output picks the least value whose ciphertext matches; when
/// nothing is picked, no value below the modulus matches.
pub proof fn lemma_find_output_least(cts: Seq<u128>, w: Label, i: nat, k0: nat)
    ensures
        match find_output(cts, w, i, k0) {
            Some(k) => {
                &&& k0 <= k < w.q
                &&& label_hash(w, output_tweak_spec(i, k)) == cts[k as int]
                &&& forall|j: nat|
                    k0 <= j < k ==> label_hash(w, output_tweak_spec(i, j)) != cts[j as int]
            },
            None => forall|j: nat|
                k0 <= j < w.q ==> label_hash(w, output_tweak_spec(i, j)) != cts[j as int],
        },
    decreases w.q - k0,
{
    if k0 < w.q && label_hash(w, output_tweak_spec(i, k0)) != cts[k0 as int] {
        lemma_find_output_least(cts, w, i, k0 + 1);
    }
}

////////////////////////////////////////////////////////////////////////////////
// static evaluator

/// The key under which the constant wire for value `val` of modulus `q` is kept.
pub open spec fn const_key_spec(val: nat, q: nat) -> u32 {
    (val * 65536 + q) as u32
}

/// The key under which the constant wire for value `val` of modulus `q` is kept:
/// the value in the high half, the modulus in the low half.
pub fn const_key(val: u16, q: u16) -> (k: u32)
    ensures
        k == const_key_spec(val as nat, q as nat),
{
    (val as u32) * 65536 + (q as u32)
}

/// The abstract contents of a garbled circuit: the ciphertexts of each garbled
/// gate and the constant wires, keyed by value and modulus.
pub struct GarbledCircuitModel {
    pub gates: Seq<Seq<u128>>,
    pub consts: Map<u32, Label>,
}

/// The evaluator's progress through a circuit: the wire of every gate so far and
/// the number of non-free gates met so far.
pub struct EvalState {
    pub wires: Seq<Label>,
    pub gate_count: nat,
}

/// What gate `i` needs so that evaluating it, after the gates before it gave `st`,
/// indexes only what exists and combines only wires of equal moduli.
pub open spec fn gate_ok(
    gc: GarbledCircuitModel,
    c: Circuit,
    gi: Seq<Label>,
    ei: Seq<Label>,
    st: EvalState,
    i: int,
) -> bool {
    let q = c.gate_moduli@[i];
    let w = st.wires;
    &&& i < c.gate_moduli@.len()
    &&& match c.gates@[i] {
        Gate::GarblerInput { id } => id < gi.len() && gi[id as int].q == q,
        Gate::EvaluatorInput { id } => id < ei.len() && ei[id as int].q == q,
        Gate::Constant { val } => gc.consts.contains_key(const_key_spec(val as nat, q as nat)),
        Gate::Add { xref, yref } => xref.ix < i && yref.ix < i && w[xref.ix as int].q == w[yref.ix as int].q,
        Gate::Sub { xref, yref } => xref.ix < i && yref.ix < i && w[xref.ix as int].q == w[yref.ix as int].q,
        Gate::Cmul { xref, c } => xref.ix < i,
        Gate::Proj { xref, tt, id } => {
            &&& xref.ix < i
            &&& id < gc.gates.len()
            &&& gc.gates[id as int].len() % 65536 + 1 == w[xref.ix as int].q
            &&& q >= 2
        },
        Gate::Mul { xref, yref, id } => {
            &&& xref.ix < i
            &&& yref.ix < i
            &&& id < gc.gates.len()
            &&& mul_gate_ok(gc.gates[id as int], w[xref.ix as int], w[yref.ix as int])
        },
    }
}

/// The state after evaluating gate `i` from state `st`.
pub open spec fn eval_gate_spec(
    gc: GarbledCircuitModel,
    c: Circuit,
    gi: Seq<Label>,
    ei: Seq<Label>,
    st: EvalState,
    i: int,
) -> EvalState {
    let q = c.gate_moduli@[i];
    let w = st.wires;
    let n = st.gate_count;
    match c.gates@[i] {
        Gate::GarblerInput { id } => EvalState { wires: w.push(gi[id as int]), gate_count: n },
        Gate::EvaluatorInput { id } => EvalState { wires: w.push(ei[id as int]), gate_count: n },
        Gate::Constant { val } => EvalState {
            wires: w.push(gc.consts[const_key_spec(val as nat, q as nat)]),
            gate_count: n,
        },
        Gate::Add { xref, yref } => EvalState {
            wires: w.push(label_plus(w[xref.ix as int], w[yref.ix as int])),
            gate_count: n,
        },
        Gate::Sub { xref, yref } => EvalState {
            wires: w.push(label_minus(w[xref.ix as int], w[yref.ix as int])),
            gate_count: n,
        },
        Gate::Cmul { xref, c } => EvalState {
            wires: w.push(label_cmul(w[xref.ix as int], c as nat)),
            gate_count: n,
        },
        Gate::Proj { xref, tt, id } => EvalState {
            wires: w.push(proj_gate_spec(gc.gates[id as int], n, w[xref.ix as int], q as nat)),
            gate_count: n + 1,
        },
        Gate::Mul { xref, yref, id } => EvalState {
            wires: w.push(
                mul_gate_spec(gc.gates[id as int], n, w[xref.ix as int], w[yref.ix as int]),
            ),
            gate_count: n + 1,
        },
    }
}

/// The state after evaluating the first `k` gates.
pub open spec fn eval_prefix(
    gc: GarbledCircuitModel,
    c: Circuit,
    gi: Seq<Label>,
    ei: Seq<Label>,
    k: nat,
) -> EvalState
    decreases k,
{
    if k == 0 {
        EvalState { wires: Seq::empty(), gate_count: 0 }
    } else {
        eval_gate_spec(gc, c, gi, ei, eval_prefix(gc, c, gi, ei, (k - 1) as nat), k - 1)
    }
}

/// What evaluating the whole circuit needs: every gate is fine where it is met,
/// and every output refers to a gate.
pub open spec fn eval_ok(gc: GarbledCircuitModel, c: Circuit, gi: Seq<Label>, ei: Seq<Label>) -> bool {
    &&& forall|i: nat|
        i < c.gates@.len() ==> #[trigger] gate_ok(gc, c, gi, ei, eval_prefix(gc, c, gi, ei, i), i as int)
    &&& forall|j: int| 0 <= j < c.output_refs@.len() ==> #[trigger] c.output_refs@[j].ix < c.gates@.len()
}

/// The output labels of the circuit: the wires that the output references name.
pub open spec fn eval_spec(gc: GarbledCircuitModel, c: Circuit, gi: Seq<Label>, ei: Seq<Label>) -> Seq<Label> {
    let wires = eval_prefix(gc, c, gi, ei, c.gates@.len()).wires;
    c.output_refs@.map_values(|r: crate::circuit::Ref| wires[r.ix as int])
}

/// The number of ciphertexts in a sequence of garbled gates.
pub open spec fn ciphertext_count(gates: Seq<Seq<u128>>) -> nat
    decreases gates.len(),
{
    if gates.len() == 0 {
        0
    } else {
        ciphertext_count(gates.drop_last()) + gates.last().len()
    }
}

/// Law: counting ciphertexts is summing the lengths of the garbled gates: none for
/// no gates, and one more gate adds its own length.
pub proof fn lemma_ciphertext_count_sum(gates: Seq<Seq<u128>>, g: Seq<u128>)
    ensures
        ciphertext_count(Seq::<Seq<u128>>::empty()) == 0,
        ciphertext_count(gates.push(g)) == ciphertext_count(gates) + g.len(),
{
    assert(gates.push(g).drop_last() =~= gates);
}

/// Two circuits that differ at most in the truth tables of their projection gates.
pub open spec fn same_but_truth_tables(c1: Circuit, c2: Circuit) -> bool {
    &&& c1.gate_moduli@ == c2.gate_moduli@
    &&& c1.output_refs@ == c2.output_refs@
    &&& c1.gates@.len() == c2.gates@.len()
    &&& forall|i: int|
        0 <= i < c1.gates@.len() ==> match (#[trigger] c1.gates@[i], c2.gates@[i]) {
            (
                Gate::Proj { xref: x1, tt: _, id: i1 },
                Gate::Proj { xref: x2, tt: _, id: i2 },
            ) => x1 == x2 && i1 == i2,
            (g1, g2) => g1 == g2,
        }
}

/// Evaluation walks the same states on two circuits that differ only in the truth
/// tables of projection gates.
proof fn lemma_eval_prefix_ignores_truth_tables(
    gc: GarbledCircuitModel,
    c1: Circuit,
    c2: Circuit,
    gi: Seq<Label>,
    ei: Seq<Label>,
    k: nat,
)
    requires
        same_but_truth_tables(c1, c2),
        k <= c1.gates@.len(),
    ensures
        eval_prefix(gc, c1, gi, ei, k) == eval_prefix(gc, c2, gi, ei, k),
    decreases k,
{
    if k > 0 {
        lemma_eval_prefix_ignores_truth_tables(gc, c1, c2, gi, ei, (k - 1) as nat);
        let i = k - 1;
        assert(match (c1.gates@[i], c2.gates@[i]) {
            (
                Gate::Proj { xref: x1, tt: _, id: i1 },
                Gate::Proj { xref: x2, tt: _, id: i2 },
            ) => x1 == x2 && i1 == i2,
            (g1, g2) => g1 == g2,
        });
    }
}

/// Law: the evaluator never reads the truth table of a projection gate, so two
/// circuits that differ only there can be evaluated on the same inputs and give
/// the same outputs.
pub proof fn lemma_eval_ignores_truth_tables(
    gc: GarbledCircuitModel,
    c1: Circuit,
    c2: Circuit,
    gi: Seq<Label>,
    ei: Seq<Label>,
)
    requires
        same_but_truth_tables(c1, c2),
    ensures
        eval_ok(gc, c1, gi, ei) == eval_ok(gc, c2, gi, ei),
        eval_spec(gc, c1, gi, ei) == eval_spec(gc, c2, gi, ei),
{
    assert forall|i: nat| i < c1.gates@.len() implies gate_ok(
        gc,
        c1,
        gi,
        ei,
        eval_prefix(gc, c1, gi, ei, i),
        i as int,
    ) == #[trigger] gate_ok(gc, c2, gi, ei, eval_prefix(gc, c2, gi, ei, i), i as int) by {
        lemma_eval_prefix_ignores_truth_tables(gc, c1, c2, gi, ei, i);
        assert(match (c1.gates@[i as int], c2.gates@[i as int]) {
            (
                Gate::Proj { xref: x1, tt: _, id: i1 },
                Gate::Proj { xref: x2, tt: _, id: i2 },
            ) => x1 == x2 && i1 == i2,
            (g1, g2) => g1 == g2,
        });
    }
    lemma_eval_prefix_ignores_truth_tables(gc, c1, c2, gi, ei, c1.gates@.len());
    assert(eval_ok(gc, c1, gi, ei) == eval_ok(gc, c2, gi, ei)) by {
        if eval_ok(gc, c1, gi, ei) {
            assert forall|i: nat| i < c2.gates@.len() implies #[trigger] gate_ok(
                gc,
                c2,
                gi,
                ei,
                eval_prefix(gc, c2, gi, ei, i),
                i as int,
            ) by {
                assert(gate_ok(gc, c1, gi, ei, eval_prefix(gc, c1, gi, ei, i), i as int));
            }
        }
        if eval_ok(gc, c2, gi, ei) {
            assert forall|i: nat| i < c1.gates@.len() implies #[trigger] gate_ok(
                gc,
                c1,
                gi,
                ei,
                eval_prefix(gc, c1, gi, ei, i),
                i as int,
            ) by {
                assert(gate_ok(gc, c2, gi, ei, eval_prefix(gc, c2, gi, ei, i), i as int));
            }
        }
    }
    assert(eval_spec(gc, c1, gi, ei) =~= eval_spec(gc, c2, gi, ei));
}

/// The number of non-free gates (projections and multiplications) among the
/// first `k` gates of `c`.
pub open spec fn nonfree_before(c: Circuit, k: nat) -> nat
    decreases k,
{
    if k == 0 {
        0
    } else {
        let prev = nonfree_before(c, (k - 1) as nat);
        match c.gates@[k - 1] {
            Gate::Proj { .. } => prev + 1,
            Gate::Mul { .. } => prev + 1,
            _ => prev,
        }
    }
}

/// Law: evaluation numbers the non-free gates in circuit order from 0: before gate
/// `k`, as many numbers have been used as there are non-free gates before it.
pub proof fn lemma_eval_gate_count(
    gc: GarbledCircuitModel,
    c: Circuit,
    gi: Seq<Label>,
    ei: Seq<Label>,
    k: nat,
)
    requires
        k <= c.gates@.len(),
    ensures
        eval_prefix(gc, c, gi, ei, k).gate_count == nonfree_before(c, k),
        eval_prefix(gc, c, gi, ei, k).wires.len() == k,
    decreases k,
{
    if k > 0 {
        lemma_eval_gate_count(gc, c, gi, ei, (k - 1) as nat);
    }
}

/// Law: the static evaluation numbers gates as the streaming evaluator does when
/// it walks the same circuit outside sync blocks: gate `k` of the circuit, if it
/// is non-free, gets the number that a fresh numbering state (`SyncState::new`)
/// gives on its call for that gate, counting one call of `next_gate(None)` per
/// non-free gate before it; and its output is the garbled-gate evaluation
/// under that number.
pub proof fn lemma_eval_numbers_like_stream(
    gc: GarbledCircuitModel,
    c: Circuit,
    gi: Seq<Label>,
    ei: Seq<Label>,
    m: SyncModel,
    k: nat,
)
    requires
        k < c.gates@.len(),
        m.current_gate == 0,
        !m.in_sync,
        nonfree_before(c, k) <= usize::MAX,
    ensures
        !plain_after(m, nonfree_before(c, k)).in_sync,
        eval_prefix(gc, c, gi, ei, k).gate_count == plain_after(m, nonfree_before(c, k)).current_gate,
        ({
            let st = eval_prefix(gc, c, gi, ei, k);
            let n = plain_after(m, nonfree_before(c, k)).current_gate;
            let w = st.wires;
            let q = c.gate_moduli@[k as int];
            match c.gates@[k as int] {
                Gate::Proj { xref, tt, id } => eval_prefix(gc, c, gi, ei, k + 1).wires.last()
                    == proj_gate_spec(gc.gates[id as int], n, w[xref.ix as int], q as nat),
                Gate::Mul { xref, yref, id } => eval_prefix(gc, c, gi, ei, k + 1).wires.last()
                    == mul_gate_spec(gc.gates[id as int], n, w[xref.ix as int], w[yref.ix as int]),
                _ => true,
            }
        }),
{
    lemma_eval_gate_count(gc, c, gi, ei, k);
    lemma_plain_numbering(m, nonfree_before(c, k));
}

/// Once evaluated, the wire of gate `k` stays as it is while later gates are met.
proof fn lemma_eval_prefix_stable(
    gc: GarbledCircuitModel,
    c: Circuit,
    gi: Seq<Label>,
    ei: Seq<Label>,
    k: nat,
    m: nat,
)
    requires
        k < m <= c.gates@.len(),
    ensures
        eval_prefix(gc, c, gi, ei, m).wires[k as int] == eval_prefix(gc, c, gi, ei, k + 1).wires[k as int],
    decreases m,
{
    lemma_eval_gate_count(gc, c, gi, ei, (m - 1) as nat);
    if m > k + 1 {
        lemma_eval_prefix_stable(gc, c, gi, ei, k, (m - 1) as nat);
    }
}

/// Law (inputs and constants): an output of the evaluation that names an input
/// gate is the encoded input of that number, taken from the garbler's inputs for a
/// garbler input and from the evaluator's inputs for an evaluator input; one that
/// names a constant gate is the constant wire kept for that value and that gate's
/// modulus.
pub proof fn lemma_eval_inputs_and_constants(
    gc: GarbledCircuitModel,
    c: Circuit,
    gi: Seq<Label>,
    ei: Seq<Label>,
    j: int,
)
    requires
        0 <= j < c.output_refs@.len(),
        c.output_refs@[j].ix < c.gates@.len(),
    ensures
        ({
            let k = c.output_refs@[j].ix as int;
            let out = eval_spec(gc, c, gi, ei)[j];
            match c.gates@[k] {
                Gate::GarblerInput { id } => out == gi[id as int],
                Gate::EvaluatorInput { id } => out == ei[id as int],
                Gate::Constant { val } => out == gc.consts[const_key_spec(
                    val as nat,
                    c.gate_moduli@[k] as nat,
                )],
                _ => true,
            }
        }),
{
    let k = c.output_refs@[j].ix as nat;
    let len = c.gates@.len();
    lemma_eval_gate_count(gc, c, gi, ei, k);
    if k + 1 < len {
        lemma_eval_prefix_stable(gc, c, gi, ei, k, len);
    }
}

/// The wire of gate `k` in the evaluation's final state, as the output that names
/// gate `k` reads it.
proof fn lemma_eval_wire_of(
    gc: GarbledCircuitModel,
    c: Circuit,
    gi: Seq<Label>,
    ei: Seq<Label>,
    k: nat,
    m: nat,
)
    requires
        k < m <= c.gates@.len(),
    ensures
        eval_prefix(gc, c, gi, ei, m).wires[k as int] == eval_prefix(
            gc,
            c,
            gi,
            ei,
            c.gates@.len(),
        ).wires[k as int],
{
    lemma_eval_gate_count(gc, c, gi, ei, k);
    if k + 1 < m {
        lemma_eval_prefix_stable(gc, c, gi, ei, k, m);
    }
    if k + 1 < c.gates@.len() {
        lemma_eval_prefix_stable(gc, c, gi, ei, k, c.gates@.len());
    }
}

/// Law (free gates): among the outputs of an evaluation, one that names an
/// addition, subtraction or constant-multiplication gate is the sum, difference or
/// multiple of the outputs that name that gate's operands.
pub proof fn lemma_eval_free_gates(
    gc: GarbledCircuitModel,
    c: Circuit,
    gi: Seq<Label>,
    ei: Seq<Label>,
    j: int,
    j1: int,
    j2: int,
)
    requires
        eval_ok(gc, c, gi, ei),
        0 <= j < c.output_refs@.len(),
        0 <= j1 < c.output_refs@.len(),
        0 <= j2 < c.output_refs@.len(),
    ensures
        ({
            let k = c.output_refs@[j].ix as int;
            let out = eval_spec(gc, c, gi, ei);
            let r1 = c.output_refs@[j1].ix;
            let r2 = c.output_refs@[j2].ix;
            match c.gates@[k] {
                Gate::Add { xref, yref } => xref.ix == r1 && yref.ix == r2 ==> out[j] == label_plus(
                    out[j1],
                    out[j2],
                ),
                Gate::Sub { xref, yref } => xref.ix == r1 && yref.ix == r2 ==> out[j]
                    == label_minus(out[j1], out[j2]),
                Gate::Cmul { xref, c: k2 } => xref.ix == r1 ==> out[j] == label_cmul(
                    out[j1],
                    k2 as nat,
                ),
                _ => true,
            }
        }),
{
    let k = c.output_refs@[j].ix as nat;
    let len = c.gates@.len();
    assert(k < len);
    assert(gate_ok(gc, c, gi, ei, eval_prefix(gc, c, gi, ei, k), k as int));
    lemma_eval_gate_count(gc, c, gi, ei, k);
    lemma_eval_wire_of(gc, c, gi, ei, k, k + 1);
    match c.gates@[k as int] {
        Gate::Add { xref, yref } => {
            lemma_eval_wire_of(gc, c, gi, ei, xref.ix as nat, k);
            lemma_eval_wire_of(gc, c, gi, ei, yref.ix as nat, k);
        },
        Gate::Sub { xref, yref } => {
            lemma_eval_wire_of(gc, c, gi, ei, xref.ix as nat, k);
            lemma_eval_wire_of(gc, c, gi, ei, yref.ix as nat, k);
        },
        Gate::Cmul { xref, c: k2 } => {
            lemma_eval_wire_of(gc, c, gi, ei, xref.ix as nat, k);
        },
        _ => {},
    }
}

/// Law (non-free gates in a circuit): an output of the evaluation that names a
/// projection gate whose input is named by output `j1` is the label that its
/// table holds for the color of that input, read with its gate number: the
/// count of non-free gates before it.
pub proof fn lemma_eval_proj_output(
    gc: GarbledCircuitModel,
    c: Circuit,
    gi: Seq<Label>,
    ei: Seq<Label>,
    j: int,
    j1: int,
    t: Label,
)
    requires
        eval_ok(gc, c, gi, ei),
        0 <= j < c.output_refs@.len(),
        0 <= j1 < c.output_refs@.len(),
        eval_spec(gc, c, gi, ei)[j1].wf(),
        t.wf(),
        ({
            let k = c.output_refs@[j].ix as int;
            let x = eval_spec(gc, c, gi, ei)[j1];
            let n = nonfree_before(c, k as nat);
            match c.gates@[k] {
                Gate::Proj { xref, tt, id } => {
                    &&& xref.ix == c.output_refs@[j1].ix
                    &&& t.q == c.gate_moduli@[k]
                    &&& label_color(x) == 0 ==> hashes_to(label_hash(x, n as u128), t.q, t)
                    &&& label_color(x) != 0 ==> encrypts(
                        gc.gates[id as int][label_color(x) - 1],
                        label_hash(x, n as u128),
                        t,
                    )
                },
                _ => false,
            }
        }),
    ensures
        eval_spec(gc, c, gi, ei)[j] == t,
{
    let k = c.output_refs@[j].ix as nat;
    assert(gate_ok(gc, c, gi, ei, eval_prefix(gc, c, gi, ei, k), k as int));
    lemma_eval_gate_count(gc, c, gi, ei, k);
    lemma_eval_wire_of(gc, c, gi, ei, k, k + 1);
    match c.gates@[k as int] {
        Gate::Proj { xref, tt, id } => {
            lemma_eval_wire_of(gc, c, gi, ei, xref.ix as nat, k);
            let st = eval_prefix(gc, c, gi, ei, k);
            let fin = eval_prefix(gc, c, gi, ei, c.gates@.len()).wires;
            let x = eval_spec(gc, c, gi, ei)[j1];
            assert(x == fin[xref.ix as int]);
            assert(st.wires[xref.ix as int] == x);
            let g = gc.gates[id as int];
            assert(g.len() % 65536 + 1 == x.q);
            crate::util::lemma_num_digits_range(x.q);
            assert(label_color(x) < x.q);
            assert(g.len() % 65536 <= g.len()) by (nonlinear_arith);
            let n = nonfree_before(c, k);
            assert(st.gate_count == n);
            lemma_proj_gate_decrypts(g, n, x, t.q, t);
            assert(eval_prefix(gc, c, gi, ei, k + 1).wires[k as int] == proj_gate_spec(
                g,
                n,
                x,
                t.q,
            ));
            assert(eval_spec(gc, c, gi, ei)[j] == fin[k as int]);
        },
        _ => {},
    }
}

/// Law (multiplication gates in a circuit): an output of the evaluation that names
/// a multiplication gate, whose operands are named by outputs `j1` and `j2`, is
/// `tl + tr + c * a` for the labels `tl`, `tr` and value `c` that its table
/// holds for the colors of the operands (as in `lemma_mul_gate_decrypts`), read with
/// its gate number: the count of non-free gates before it.
pub proof fn lemma_eval_mul_output(
    gc: GarbledCircuitModel,
    c: Circuit,
    gi: Seq<Label>,
    ei: Seq<Label>,
    j: int,
    j1: int,
    j2: int,
    tl: Label,
    tr: Label,
    v: nat,
)
    requires
        eval_ok(gc, c, gi, ei),
        0 <= j < c.output_refs@.len(),
        0 <= j1 < c.output_refs@.len(),
        0 <= j2 < c.output_refs@.len(),
        eval_spec(gc, c, gi, ei)[j1].wf(),
        eval_spec(gc, c, gi, ei)[j2].wf(),
        tl.wf(),
        tr.wf(),
        ({
            let k = c.output_refs@[j].ix as int;
            let a = eval_spec(gc, c, gi, ei)[j1];
            let b = eval_spec(gc, c, gi, ei)[j2];
            let n = nonfree_before(c, k as nat);
            match c.gates@[k] {
                Gate::Mul { xref, yref, id } => {
                    let g = gc.gates[id as int];
                    &&& xref.ix == c.output_refs@[j1].ix
                    &&& yref.ix == c.output_refs@[j2].ix
                    &&& tl.q == a.q
                    &&& tr.q == a.q
                    &&& label_color(a) == 0 ==> hashes_to(label_hash(a, tweak2_spec(n, 0)), a.q, tl)
                    &&& label_color(a) != 0 ==> encrypts(
                        g[label_color(a) - 1],
                        label_hash(a, tweak2_spec(n, 0)),
                        tl,
                    )
                    &&& label_color(b) == 0 ==> hashes_to(label_hash(b, tweak2_spec(n, 0)), a.q, tr)
                    &&& label_color(b) != 0 ==> encrypts(
                        g[a.q + label_color(b) - 2],
                        label_hash(b, tweak2_spec(n, 0)),
                        tr,
                    )
                    &&& a.q == b.q ==> v == label_color(b)
                    &&& a.q != b.q ==> v < 65536 && (g.last() >> ((color16(b) * 16) as u16)) as u16
                        == (v as u16 ^ (label_hash(b, tweak2_spec(n, 1)) as u16))
                },
                _ => false,
            }
        }),
    ensures
        eval_spec(gc, c, gi, ei)[j] == label_plus(
            tl,
            label_plus(tr, label_cmul(eval_spec(gc, c, gi, ei)[j1], v)),
        ),
{
    let k = c.output_refs@[j].ix as nat;
    assert(gate_ok(gc, c, gi, ei, eval_prefix(gc, c, gi, ei, k), k as int));
    lemma_eval_gate_count(gc, c, gi, ei, k);
    lemma_eval_wire_of(gc, c, gi, ei, k, k + 1);
    match c.gates@[k as int] {
        Gate::Mul { xref, yref, id } => {
            lemma_eval_wire_of(gc, c, gi, ei, xref.ix as nat, k);
            lemma_eval_wire_of(gc, c, gi, ei, yref.ix as nat, k);
            let st = eval_prefix(gc, c, gi, ei, k);
            let fin = eval_prefix(gc, c, gi, ei, c.gates@.len()).wires;
            let a = eval_spec(gc, c, gi, ei)[j1];
            let b = eval_spec(gc, c, gi, ei)[j2];
            assert(a == fin[xref.ix as int] && b == fin[yref.ix as int]);
            assert(st.wires[xref.ix as int] == a && st.wires[yref.ix as int] == b);
            let g = gc.gates[id as int];
            let n = nonfree_before(c, k);
            assert(st.gate_count == n);
            lemma_mul_gate_decrypts(g, n, a, b, tl, tr, v);
            assert(eval_prefix(gc, c, gi, ei, k + 1).wires[k as int] == mul_gate_spec(g, n, a, b));
            assert(eval_spec(gc, c, gi, ei)[j] == fin[k as int]);
        },
        _ => {},
    }
}

/// A garbled circuit, ready to be evaluated on encoded inputs: the garbled tables
/// of its non-free gates and its constant wires.
#[derive(Debug, PartialEq, Eq)]
pub struct GarbledCircuit {
    gates: Vec<Vec<u128>>,
    consts: HashMap<u32, Wire>,
}

impl View for GarbledCircuit {
    type V = GarbledCircuitModel;

    closed spec fn view(&self) -> GarbledCircuitModel {
        GarbledCircuitModel {
            gates: self.gates@.map_values(|g: Vec<u128>| g@),
            consts: label_map(self.consts@),
        }
    }
}

impl GarbledCircuit {
    /// Makes a garbled circuit from its garbled gates and constant wires.
    pub fn new(gates: Vec<Vec<u128>>, consts: HashMap<u32, Wire>) -> (gc: Self)
        ensures
            gc@.gates == gates@.map_values(|g: Vec<u128>| g@),
            gc@.consts == label_map(consts@),
    {
        GarbledCircuit { gates, consts }
    }

    /// The ciphertexts of the garbled gates.
    pub fn gates(&self) -> (gates: &Vec<Vec<u128>>)
        ensures
            gates@.map_values(|g: Vec<u128>| g@) == self@.gates,
    {
        &self.gates
    }

    /// The constant wires, keyed by `const_key` of their value and modulus.
    pub fn consts(&self) -> (consts: &HashMap<u32, Wire>)
        ensures
            label_map(consts@) == self@.consts,
    {
        &self.consts
    }

    /// The number of 128-bit ciphertexts and constant wires in the garbled circuit.
    pub fn size(&self) -> (n: usize)
        requires
            self@.consts.dom().len() + ciphertext_count(self@.gates) <= usize::MAX,
        ensures
            n == self@.consts.dom().len() + ciphertext_count(self@.gates),
    {
        let mut c = self.consts.len();
        let ghost gates = self@.gates;
        assert(label_map(self.consts@).dom() =~= self.consts@.dom());
        assert(gates.take(0) =~= Seq::<Seq<u128>>::empty());
        for i in 0..self.gates.len()
            invariant
                gates == self@.gates,
                self@.consts.dom().len() + ciphertext_count(gates) <= usize::MAX,
                c == self@.consts.dom().len() + ciphertext_count(gates.take(i as int)),
        {
            proof {
                assert(gates.take(i + 1).drop_last() =~= gates.take(i as int));
                lemma_ciphertext_count_prefix(gates, (i + 1) as nat);
            }
            c += self.gates[i].len();
        }
        assert(gates.take(gates.len() as int) =~= gates);
        c
    }

    /// Evaluates the garbled circuit for circuit `c` on the encoded inputs, and
    /// returns the output wires.
    pub fn eval(&self, c: &Circuit, garbler_inputs: &[Wire], evaluator_inputs: &[Wire]) -> (outs:
        Vec<Wire>)
        requires
            eval_ok(self@, *c, labels(garbler_inputs@), labels(evaluator_inputs@)),
        ensures
            labels(outs@) == eval_spec(self@, *c, labels(garbler_inputs@), labels(evaluator_inputs@)),
    {
        let ghost gi = labels(garbler_inputs@);
        let ghost ei = labels(evaluator_inputs@);
        let ghost gcm = self@;
        let mut wires: Vec<Wire> = Vec::new();
        let mut gate_num: usize = 0;
        let n = c.gates.len();
        for i in 0..n
            invariant
                n == c.gates@.len(),
                gcm == self@,
                gi == labels(garbler_inputs@),
                ei == labels(evaluator_inputs@),
                eval_ok(gcm, *c, gi, ei),
                labels(wires@) == eval_prefix(gcm, *c, gi, ei, i as nat).wires,
                gate_num == eval_prefix(gcm, *c, gi, ei, i as nat).gate_count,
                gate_num <= i,
                wires@.len() == i,
        {
            let ghost st = eval_prefix(gcm, *c, gi, ei, i as nat);
            assert(gate_ok(gcm, *c, gi, ei, st, i as int));
            let q = c.modulus(i);
            let w = match &c.gates[i] {
                Gate::GarblerInput { id } => garbler_inputs[*id].clone(),
                Gate::EvaluatorInput { id } => evaluator_inputs[*id].clone(),
                Gate::Constant { val } => {
                    let key = const_key(*val, q);
                    assert(self.consts@.contains_key(key));
                    let w = self.consts.get(&key).unwrap();
                    w.clone()
                },
                Gate::Add { xref, yref } => wires[xref.ix].plus(&wires[yref.ix]),
                Gate::Sub { xref, yref } => wires[xref.ix].minus(&wires[yref.ix]),
                Gate::Cmul { xref, c: k } => wires[xref.ix].cmul(*k),
                Gate::Proj { xref, id, .. } => {
                    let w = eval_proj_gate(self.gates[*id].as_slice(), gate_num, &wires[xref.ix], q);
                    gate_num = gate_num + 1;
                    w
                },
                Gate::Mul { xref, yref, id } => {
                    let w = eval_mul_gate(
                        self.gates[*id].as_slice(),
                        gate_num,
                        &wires[xref.ix],
                        &wires[yref.ix],
                    );
                    gate_num = gate_num + 1;
                    w
                },
            };
            let ghost before = wires@;
            wires.push(w);
            assert(labels(wires@) =~= labels(before).push(w@));
        }
        let ghost wl = labels(wires@);
        let mut outs: Vec<Wire> = Vec::new();
        let m = c.output_refs.len();
        for j in 0..m
            invariant
                m == c.output_refs@.len(),
                n == c.gates@.len(),
                wl == labels(wires@),
                wl == eval_prefix(gcm, *c, gi, ei, n as nat).wires,
                wl.len() == n,
                eval_ok(gcm, *c, gi, ei),
                outs@.len() == j,
                forall|k: int| 0 <= k < j ==> #[trigger] outs@[k]@ == wl[c.output_refs@[k].ix as int],
        {
            let ix = c.output_refs[j].ix;
            assert(ix < n);
            outs.push(wires[ix].clone());
        }
        assert(labels(outs@) =~= eval_spec(gcm, *c, gi, ei));
        outs
    }
}

/// The ciphertexts of a prefix of the gates are at most those of all the gates.
proof fn lemma_ciphertext_count_prefix(gates: Seq<Seq<u128>>, k: nat)
    requires
        k <= gates.len(),
    ensures
        ciphertext_count(gates.take(k as int)) <= ciphertext_count(gates),
    decreases gates.len(),
{
    if k < gates.len() {
        assert(gates.drop_last().take(k as int) =~= gates.take(k as int));
        lemma_ciphertext_count_prefix(gates.drop_last(), k);
    } else {
        assert(gates.take(k as int) =~= gates);
    }
}

} // verus!
