use fancy_garbling::garble::evaluator::mul_gate_fits;
use fancy_garbling::garble::Message;
use fancy_garbling::wire::Wire;

#[test]
fn garbler_input_message() {
    let w = Wire::from_u128(77, 5);
    let got = Message::GarblerInput(w.clone()).into_garbler_input(5).unwrap();
    assert_eq!(got.digits(), w.digits());
    assert!(Message::GarblerInput(w.clone()).into_garbler_input(3).is_none());
    assert!(Message::EvaluatorInput(w.clone()).into_garbler_input(5).is_none());
}

#[test]
fn evaluator_input_message() {
    let w = Wire::from_u128(9, 2);
    assert_eq!(Message::EvaluatorInput(w.clone()).into_evaluator_input(2).unwrap().as_u128(), 9);
    assert!(Message::EvaluatorInput(w.clone()).into_evaluator_input(5).is_none());
    assert!(Message::EndSync.into_evaluator_input(2).is_none());
}

#[test]
fn constant_gate_output_messages() {
    let w = Wire::from_u128(3, 7);
    assert_eq!(Message::Constant { value: 1, wire: w.clone() }.into_constant().unwrap().as_u128(), 3);
    assert!(Message::GarbledGate(vec![1]).into_constant().is_none());
    assert_eq!(Message::GarbledGate(vec![1, 2]).into_garbled_gate(), Some(vec![1, 2]));
    assert!(Message::OutputCiphertext(vec![1, 2]).into_garbled_gate().is_none());
    assert_eq!(Message::OutputCiphertext(vec![4, 5, 6]).into_output_ciphertext(3), Some(vec![4, 5, 6]));
    assert!(Message::OutputCiphertext(vec![4, 5]).into_output_ciphertext(3).is_none());
    assert!(Message::EndSync.is_end_sync());
    assert!(!Message::GarbledGate(vec![]).is_end_sync());
}

#[test]
fn mul_gate_fit_checks() {
    let a0 = Wire::from_u128(5, 5); // color 0
    let a4 = Wire::from_u128(4, 5); // color 4
    let b3 = Wire::from_u128(3, 5); // color 3
    // right half reads index 5 + 3 - 2 = 6
    assert!(mul_gate_fits(&[0; 7], &a0, &b3));
    assert!(!mul_gate_fits(&[0; 6], &a0, &b3));
    // left half reads index 4 - 1 = 3
    assert!(mul_gate_fits(&[0; 4], &a4, &a0));
    assert!(!mul_gate_fits(&[0; 3], &a4, &a0));
    // unequal moduli need the mini-table and a color below 8
    let c9 = Wire::from_u128(9, 11); // color 9
    assert!(!mul_gate_fits(&[0; 20], &a0, &c9));
    let c2 = Wire::from_u128(2, 11);
    assert!(mul_gate_fits(&[0; 20], &a0, &c2));
    assert!(!mul_gate_fits(&[], &a0, &Wire::from_u128(0, 11)));
}

use fancy_garbling::garble::sync::{Postman, SyncState};

#[test]
fn postman_sorts_by_index_first_in_first_out() {
    let mut p = Postman::new(2);
    assert_eq!(p.num_indices(), 2);
    assert!(p.receive(Some(1), Message::GarbledGate(vec![1])));
    assert!(p.receive(Some(0), Message::GarbledGate(vec![2])));
    assert!(p.receive(Some(1), Message::GarbledGate(vec![3])));
    assert!(!p.receive(None, Message::GarbledGate(vec![4])));
    assert!(!p.receive(Some(2), Message::GarbledGate(vec![5])));
    assert!(!p.done_receiving());
    assert!(p.has_waiting(0) && p.has_waiting(1));
    assert_eq!(p.deliver(1).unwrap().into_garbled_gate(), Some(vec![1]));
    assert_eq!(p.deliver(1).unwrap().into_garbled_gate(), Some(vec![3]));
    assert!(p.deliver(1).is_none());
    assert!(!p.has_waiting(1));
    assert_eq!(p.deliver(0).unwrap().into_garbled_gate(), Some(vec![2]));
    assert!(p.receive(Some(0), Message::EndSync));
    assert!(p.done_receiving());
    assert!(!p.has_waiting(0));
}

#[test]
fn gate_numbers_outside_and_inside_sync() {
    let mut s = SyncState::new();
    assert_eq!(s.next_gate(None), Some(0));
    assert_eq!(s.next_gate(None), Some(1));
    assert_eq!(s.next_gate(Some(0)), None);
    s.begin_sync(3);
    assert!(s.in_sync());
    assert_eq!(s.num_indices(), 3);
    assert_eq!(s.next_gate(None), None);
    assert_eq!(s.next_gate(Some(3)), None);
    let step = 1usize << 32;
    // start 2, three indices: count k of index i gets 2 + (3k + i + 1) * 2^32
    assert_eq!(s.next_gate(Some(0)), Some(2 + step));
    assert_eq!(s.next_gate(Some(2)), Some(2 + 3 * step));
    assert_eq!(s.next_gate(Some(0)), Some(2 + 4 * step));
    s.finish_index(0);
    s.finish_index(2);
    assert!(s.in_sync());
    s.finish_index(1);
    assert!(!s.in_sync());
    // closing the block moves the current number on by one
    assert_eq!(s.next_gate(None), Some(3));
    s.finish_index(7);
    assert_eq!(s.next_gate(None), Some(4));
}
