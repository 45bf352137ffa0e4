use fancy_garbling::util::{hash_block, output_tweak, tweak2};
use fancy_garbling::wire::Wire;

#[test]
fn binary_wire_roundtrip() {
    for x in [0u128, 1, 0xdead_beef, u128::MAX, 1u128 << 127] {
        let w = Wire::from_u128(x, 2);
        assert_eq!(w.modulus(), 2);
        assert_eq!(w.digits().len(), 128);
        assert_eq!(w.as_u128(), x);
        assert_eq!(w.color(), (x & 1) as u16);
    }
}

#[test]
fn base_q_wire_digits() {
    let w = Wire::from_u128(123, 5);
    let ds = w.digits();
    assert_eq!(ds.len(), 42);
    // 123 = 3 + 4*5 + 4*25
    assert_eq!(&ds[..4], &[3, 4, 4, 0]);
    assert!(ds[3..].iter().all(|&d| d == 0));
    assert_eq!(w.as_u128(), 123);
    assert_eq!(w.color(), 3);
}

#[test]
fn base_q_wire_reduces_modulo_q_to_the_n() {
    // 3^64 does not fit in the 64 digits of modulus 3.
    let x = 3u128.pow(64) + 7;
    let w = Wire::from_u128(x, 3);
    assert_eq!(w.as_u128(), 7);
    let y = u128::MAX;
    let w = Wire::from_u128(y, 7);
    assert_eq!(w.as_u128(), y % 7u128.pow(42));
}

#[test]
fn value_then_split_gives_same_wire() {
    let w = Wire::from_u128(0x0123_4567_89ab_cdef_0011_2233_4455_6677, 17);
    let again = Wire::from_u128(w.as_u128(), 17);
    assert_eq!(again.digits(), w.digits());
}

#[test]
fn plus_minus_cmul_digitwise() {
    let a = Wire::from_u128(4 + 3 * 5, 5); // digits 4, 3
    let b = Wire::from_u128(2 + 4 * 5, 5); // digits 2, 4
    let s = a.plus(&b);
    assert_eq!(&s.digits()[..3], &[1, 2, 0]);
    let d = a.minus(&b);
    assert_eq!(&d.digits()[..3], &[2, 4, 0]);
    let m = a.cmul(3);
    assert_eq!(&m.digits()[..3], &[2, 4, 0]);
    assert_eq!(s.minus(&b).digits(), a.digits());
    assert_eq!(d.plus(&b).digits(), a.digits());
    let mut c = a.clone();
    c.plus_mov(&b);
    assert_eq!(c.digits(), s.digits());
}

#[test]
fn binary_plus_is_xor() {
    let a = Wire::from_u128(0b1100, 2);
    let b = Wire::from_u128(0b1010, 2);
    assert_eq!(a.plus(&b).as_u128(), 0b0110);
    assert_eq!(a.minus(&b).as_u128(), 0b0110);
    assert_eq!(a.cmul(2).as_u128(), 0);
    assert_eq!(a.cmul(3).as_u128(), 0b1100);
}

#[test]
fn hash_block_values() {
    assert_eq!(hash_block(0, 0), 223474450721853651292679238658107599956);
    assert_eq!(hash_block(1, 0), 329109579840298734435460096078284657960);
    assert_eq!(hash_block(0, 1), 241237774661556713818746566428898016271);
    assert_eq!(hash_block(5, 12345), 174629398244169788494371360703158642576);
}

#[test]
fn wire_hash_and_hashback() {
    let w = Wire::from_u128(12345, 2);
    assert_eq!(w.hash(5), 174629398244169788494371360703158642576);
    let v = Wire::from_u128(12345, 11);
    assert_eq!(v.hash(5), hash_block(5, 12345));
    let hb = v.hashback(5, 3);
    assert_eq!(hb.modulus(), 3);
    assert_eq!(hb.as_u128(), hash_block(5, 12345) % 3u128.pow(64));
}

#[test]
fn tweaks() {
    assert_eq!(tweak2(0, 0), 0);
    assert_eq!(tweak2(1, 2), (1u128 << 64) + 2);
    assert_eq!(tweak2(u64::MAX, u64::MAX), u128::MAX);
    assert_eq!(output_tweak(0, 3), (1u128 << 64) + 3);
    assert_eq!(output_tweak(4, 0), 5u128 << 64);
}
