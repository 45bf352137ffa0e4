use fancy_garbling::util::digits_per_u128;
use fancy_garbling::wire::npaths_tab::lookup;

fn powers(q: u16, n: usize) -> Vec<u128> {
    let mut v = vec![1u128; n];
    for i in 1..n {
        v[i] = v[i - 1] * q as u128;
    }
    v
}

#[test]
fn lookup_tabled_moduli_are_powers() {
    for q in [5u16, 6, 7, 9, 10, 11, 12, 13, 14, 15, 17, 18, 19, 20, 21, 22, 23, 24] {
        let tab = lookup(q);
        assert_eq!(tab, powers(q, digits_per_u128(q)), "modulus {}", q);
    }
}

#[test]
fn lookup_small_tables() {
    assert_eq!(lookup(5).len(), 42);
    assert_eq!(lookup(5)[3], 125);
    assert_eq!(lookup(5)[41], 45474735088646411895751953125);
    assert_eq!(lookup(9).len(), 32);
    assert_eq!(lookup(24).len(), 25);
    assert_eq!(lookup(24)[24], 1333735776850284124449081472843776);
}

#[test]
fn lookup_computed_moduli() {
    let t2 = lookup(2);
    assert_eq!(t2.len(), 128);
    assert_eq!(t2[127], 1u128 << 127);
    let t3 = lookup(3);
    assert_eq!(t3.len(), 64);
    assert_eq!(t3[63], 3u128.pow(63));
    let t100 = lookup(100);
    assert_eq!(t100.len(), 18);
    assert_eq!(t100[17], 100u128.pow(17));
    let tmax = lookup(65535);
    assert_eq!(tmax.len(), 8);
    assert_eq!(tmax[7], 65535u128.pow(7));
    assert_eq!(lookup(16), powers(16, 32));
    assert_eq!(lookup(25), powers(25, 25));
}

#[test]
fn digits_per_u128_values() {
    assert_eq!(digits_per_u128(2), 128);
    assert_eq!(digits_per_u128(3), 64);
    assert_eq!(digits_per_u128(4), 64);
    assert_eq!(digits_per_u128(5), 42);
    assert_eq!(digits_per_u128(8), 42);
    assert_eq!(digits_per_u128(9), 32);
    assert_eq!(digits_per_u128(16), 32);
    assert_eq!(digits_per_u128(17), 25);
    assert_eq!(digits_per_u128(256), 16);
    assert_eq!(digits_per_u128(257), 14);
    assert_eq!(digits_per_u128(65535), 8);
}
