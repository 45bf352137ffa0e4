use std::collections::HashMap;

use fancy_garbling::circuit::{Circuit, Gate, Ref};
use fancy_garbling::garble::evaluator::{
    const_key, eval_mul_gate, eval_proj_gate, Decoder, Encoder, GarbledCircuit,
};
use fancy_garbling::util::{output_tweak, tweak2};
use fancy_garbling::wire::Wire;

fn digits(w: &Wire) -> Vec<u16> {
    w.digits()
}

/// The half-gate evaluation, written out with the public wire operations.
fn expected_mul(gate: &[u128], n: usize, a: &Wire, b: &Wire) -> Wire {
    let g = tweak2(n as u64, 0);
    let q = a.modulus();
    let l = if a.color() == 0 {
        a.hashback(g, q)
    } else {
        Wire::from_u128(gate[a.color() as usize - 1] ^ a.hash(g), q)
    };
    let r = if b.color() == 0 {
        b.hashback(g, q)
    } else {
        Wire::from_u128(gate[(q + b.color()) as usize - 2] ^ b.hash(g), q)
    };
    let nb = if a.modulus() != b.modulus() {
        let ct = gate[gate.len() - 1] >> (b.color() * 16);
        (b.hash(tweak2(n as u64, 1)) ^ ct) as u16
    } else {
        b.color()
    };
    l.plus(&r.plus(&a.cmul(nb)))
}

#[test]
fn mul_gate_equal_moduli() {
    let gate: Vec<u128> = (1..=9).map(|i| i * 0x1111_2222_3333_4444_5555).collect();
    for (x, y) in [(0u128, 0u128), (3, 4), (17, 2), (1, 0)] {
        let a = Wire::from_u128(x, 5);
        let b = Wire::from_u128(y, 5);
        let w = eval_mul_gate(&gate, 7, &a, &b);
        assert_eq!(w.modulus(), 5);
        assert_eq!(digits(&w), digits(&expected_mul(&gate, 7, &a, &b)));
    }
}

#[test]
fn mul_gate_unequal_moduli() {
    let gate: Vec<u128> = (1..=6).map(|i| i * 0x0f0f_0f0f_0f0f_0f0f_0f0f).collect();
    let a = Wire::from_u128(7, 5);
    let b = Wire::from_u128(2, 3);
    let w = eval_mul_gate(&gate, 3, &a, &b);
    assert_eq!(w.modulus(), 5);
    assert_eq!(digits(&w), digits(&expected_mul(&gate, 3, &a, &b)));
    // the color of `b` is mapped, so the result differs from equal-moduli evaluation
    let b5 = Wire::from_u128(2, 5);
    assert_ne!(digits(&w), digits(&eval_mul_gate(&gate, 3, &a, &b5)));
}

#[test]
fn proj_gate_both_colors() {
    let gate: Vec<u128> = vec![11, 22, 33, 44];
    let x0 = Wire::from_u128(5, 5); // color 0
    let w0 = eval_proj_gate(&gate, 9, &x0, 3);
    assert_eq!(w0.modulus(), 3);
    assert_eq!(digits(&w0), digits(&x0.hashback(9, 3)));
    let x2 = Wire::from_u128(7, 5); // color 2
    let w2 = eval_proj_gate(&gate, 9, &x2, 3);
    assert_eq!(digits(&w2), digits(&Wire::from_u128(22 ^ x2.hash(9), 3)));
}

#[test]
fn garbled_circuit_size() {
    let mut consts = HashMap::new();
    consts.insert(const_key(0, 2), Wire::from_u128(1, 2));
    consts.insert(const_key(1, 2), Wire::from_u128(2, 2));
    let gc = GarbledCircuit::new(vec![vec![1, 2], vec![3], vec![]], consts);
    assert_eq!(gc.size(), 5);
    let empty = GarbledCircuit::new(vec![], HashMap::new());
    assert_eq!(empty.size(), 0);
}

#[test]
fn const_keys() {
    assert_eq!(const_key(0, 2), 2);
    assert_eq!(const_key(3, 5), 3 * 65536 + 5);
    assert_ne!(const_key(1, 2), const_key(2, 1));
}

#[test]
fn eval_circuit_all_gate_kinds() {
    let gates = vec![
        Gate::GarblerInput { id: 0 },
        Gate::EvaluatorInput { id: 0 },
        Gate::Add { xref: Ref { ix: 0 }, yref: Ref { ix: 1 } },
        Gate::Cmul { xref: Ref { ix: 2 }, c: 3 },
        Gate::Constant { val: 2 },
        Gate::Sub { xref: Ref { ix: 3 }, yref: Ref { ix: 4 } },
        Gate::Proj { xref: Ref { ix: 0 }, tt: vec![0, 1, 2, 0, 1], id: 0 },
        Gate::Mul { xref: Ref { ix: 2 }, yref: Ref { ix: 5 }, id: 1 },
    ];
    let c = Circuit {
        gates,
        gate_moduli: vec![5, 5, 5, 5, 5, 5, 3, 5],
        output_refs: vec![Ref { ix: 5 }, Ref { ix: 6 }, Ref { ix: 7 }],
    };
    let garbled: Vec<Vec<u128>> = vec![
        vec![101, 202, 303, 404],
        (1..=9).map(|i| i * 0xabcd_ef01_2345).collect(),
    ];
    let konst = Wire::from_u128(0x55_5555, 5);
    let mut consts = HashMap::new();
    consts.insert(const_key(2, 5), konst.clone());
    let gc = GarbledCircuit::new(garbled.clone(), consts);

    let gi = vec![Wire::from_u128(0x1234_5678, 5)];
    let ei = vec![Wire::from_u128(0x9abc_def0, 5)];
    let outs = gc.eval(&c, &gi, &ei);
    assert_eq!(outs.len(), 3);

    let w2 = gi[0].plus(&ei[0]);
    let w3 = w2.cmul(3);
    let w5 = w3.minus(&konst);
    let w6 = eval_proj_gate(&garbled[0], 0, &gi[0], 3);
    let w7 = eval_mul_gate(&garbled[1], 1, &w2, &w5);
    assert_eq!(digits(&outs[0]), digits(&w5));
    assert_eq!(digits(&outs[1]), digits(&w6));
    assert_eq!(outs[1].modulus(), 3);
    assert_eq!(digits(&outs[2]), digits(&w7));
}

#[test]
fn eval_counts_only_nonfree_gates() {
    // two projections: the second uses gate number 1 whatever gates lie between
    let c = Circuit {
        gates: vec![
            Gate::GarblerInput { id: 0 },
            Gate::Proj { xref: Ref { ix: 0 }, tt: vec![1, 0], id: 0 },
            Gate::Add { xref: Ref { ix: 0 }, yref: Ref { ix: 0 } },
            Gate::Proj { xref: Ref { ix: 0 }, tt: vec![1, 0], id: 1 },
        ],
        gate_moduli: vec![3, 2, 3, 2],
        output_refs: vec![Ref { ix: 1 }, Ref { ix: 3 }, Ref { ix: 2 }],
    };
    let garbled = vec![vec![7, 8], vec![9, 10]];
    let gc = GarbledCircuit::new(garbled.clone(), HashMap::new());
    let x = Wire::from_u128(0xfeed, 3);
    let outs = gc.eval(&c, &[x.clone()], &[]);
    assert_eq!(digits(&outs[0]), digits(&eval_proj_gate(&garbled[0], 0, &x, 2)));
    assert_eq!(digits(&outs[1]), digits(&eval_proj_gate(&garbled[1], 1, &x, 2)));
    assert_eq!(digits(&outs[2]), digits(&x.plus(&x)));
}

fn encoder() -> (Encoder, Wire, Wire, Wire, Wire) {
    let g0 = Wire::from_u128(12345, 5);
    let e0 = Wire::from_u128(678, 2);
    let d5 = Wire::from_u128(999, 5);
    let d2 = Wire::from_u128(0b1011, 2);
    let mut deltas = HashMap::new();
    deltas.insert(5u16, d5.clone());
    deltas.insert(2u16, d2.clone());
    let enc = Encoder::new(vec![g0.clone()], vec![e0.clone(), e0.clone()], deltas);
    (enc, g0, e0, d5, d2)
}

#[test]
fn encoder_counts() {
    let (enc, ..) = encoder();
    assert_eq!(enc.num_garbler_inputs(), 1);
    assert_eq!(enc.num_evaluator_inputs(), 2);
}

#[test]
fn encode_adds_multiples_of_delta() {
    let (enc, g0, e0, d5, d2) = encoder();
    let w = enc.encode_garbler_input(3, 0);
    let expect: Vec<u16> = g0
        .digits()
        .iter()
        .zip(d5.digits().iter())
        .map(|(&z, &d)| ((z as u32 + 3 * d as u32) % 5) as u16)
        .collect();
    assert_eq!(w.digits(), expect);
    assert_eq!(enc.encode_garbler_input(0, 0).digits(), g0.digits());
    assert_eq!(enc.encode_evaluator_input(1, 1).as_u128(), 678 ^ 0b1011);
    assert_eq!(enc.encode_evaluator_input(0, 0).as_u128(), 678);
    assert_eq!(e0.plus(&d2).as_u128(), 678 ^ 0b1011);
}

#[test]
fn encode_many_inputs() {
    let (enc, g0, _, d5, _) = encoder();
    let ws = enc.encode_garbler_inputs(&[4]);
    assert_eq!(ws.len(), 1);
    assert_eq!(ws[0].digits(), g0.plus(&d5.cmul(4)).digits());
    let es = enc.encode_evaluator_inputs(&[1, 0]);
    assert_eq!(es[0].as_u128(), 678 ^ 0b1011);
    assert_eq!(es[1].as_u128(), 678);
}

#[test]
fn encodings_add_freely() {
    let (enc, g0, _, d5, _) = encoder();
    let a = enc.encode_garbler_input(2, 0);
    let b = enc.encode_garbler_input(4, 0);
    // (g0 + 2d) + (g0 + 4d) == (g0 + g0) + 6d
    assert_eq!(a.plus(&b).digits(), g0.plus(&g0).plus(&d5.cmul(6)).digits());
    assert_eq!(a.cmul(3).digits(), g0.cmul(3).plus(&d5.cmul(6)).digits());
}

#[test]
fn decode_picks_matching_value() {
    let w0 = Wire::from_u128(42, 3);
    let w1 = Wire::from_u128(43, 2);
    let mut cts0 = vec![0u128; 3];
    cts0[2] = w0.hash(output_tweak(0, 2));
    let mut cts1 = vec![0u128; 2];
    cts1[1] = w1.hash(output_tweak(1, 1));
    let dec = Decoder::new(vec![cts0, cts1]);
    assert_eq!(dec.decode(&[w0, w1]), vec![2, 1]);
}

#[test]
fn decode_picks_least_match() {
    let w0 = Wire::from_u128(5, 4);
    let h1 = w0.hash(output_tweak(0, 1));
    let h3 = w0.hash(output_tweak(0, 3));
    let w1 = Wire::from_u128(6, 2);
    let g0 = w1.hash(output_tweak(1, 0));
    let dec = Decoder::new(vec![vec![0, h1, 0, h3], vec![g0, 0]]);
    assert!(dec.decodes_all(&[w0.clone(), w1.clone()]));
    assert_eq!(dec.decode(&[w0.clone(), w1.clone()]), vec![1, 0]);
}

#[test]
fn decodes_all_rejects_unmatched_wires() {
    let w0 = Wire::from_u128(5, 4);
    let h1 = w0.hash(output_tweak(0, 1));
    let w1 = Wire::from_u128(6, 2);
    let dec = Decoder::new(vec![vec![0, h1, 0, 0], vec![0, 0]]);
    assert!(!dec.decodes_all(&[w0.clone(), w1.clone()]));
    // the same ciphertexts checked at another output index do not match
    let dec2 = Decoder::new(vec![vec![0, 0], vec![0, h1, 0, 0]]);
    assert!(!dec2.decodes_all(&[w1, w0]));
}

#[test]
fn encodings_of_one_input_differ_by_delta() {
    let (enc, g0, e0, d5, d2) = encoder();
    assert_eq!(enc.encode_garbler_input(0, 0), g0);
    for x in [1u16, 2, 4, 7] {
        let diff = enc.encode_garbler_input(x, 0).minus(&enc.encode_garbler_input(0, 0));
        assert_eq!(diff, d5.cmul(x));
    }
    assert_eq!(enc.encode_evaluator_input(0, 1), e0);
    assert_eq!(enc.encode_evaluator_input(1, 1).minus(&e0), d2.cmul(1));
}

#[test]
fn eval_ignores_truth_tables() {
    let circuit = |tt: Vec<u16>| Circuit {
        gates: vec![
            Gate::GarblerInput { id: 0 },
            Gate::Proj { xref: Ref { ix: 0 }, tt, id: 0 },
        ],
        gate_moduli: vec![3, 2],
        output_refs: vec![Ref { ix: 1 }],
    };
    let gc = GarbledCircuit::new(vec![vec![5, 6]], HashMap::new());
    let x = Wire::from_u128(0xabc, 3);
    let a = gc.eval(&circuit(vec![0, 1, 1]), &[x.clone()], &[]);
    let b = gc.eval(&circuit(vec![1, 0, 0]), &[x.clone()], &[]);
    assert_eq!(a, b);
}

#[test]
fn proj_gate_length_is_compared_in_16_bits() {
    // 65536 + 4 ciphertexts pass for modulus 5, as 4 does
    let mut gate: Vec<u128> = vec![0; 65536 + 4];
    gate[1] = 22;
    let x2 = Wire::from_u128(7, 5); // color 2
    let w = eval_proj_gate(&gate, 3, &x2, 3);
    assert_eq!(w, Wire::from_u128(22 ^ x2.hash(3), 3));
    let c = Circuit {
        gates: vec![
            Gate::GarblerInput { id: 0 },
            Gate::Proj { xref: Ref { ix: 0 }, tt: vec![0; 5], id: 0 },
        ],
        gate_moduli: vec![5, 3],
        output_refs: vec![Ref { ix: 1 }],
    };
    let gc = GarbledCircuit::new(vec![gate.clone()], HashMap::new());
    let outs = gc.eval(&c, &[x2.clone()], &[]);
    assert_eq!(outs[0], eval_proj_gate(&gate, 0, &x2, 3));
}
