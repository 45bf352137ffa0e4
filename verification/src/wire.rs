//! Wire labels: vectors of base-`q` digits that stand for 128-bit blocks.
use vstd::arithmetic::div_mod::{
    lemma_div_denominator, lemma_fundamental_div_mod, lemma_fundamental_div_mod_converse_div,
    lemma_fundamental_div_mod_converse_mod, lemma_mod_add_multiples_vanish, lemma_mod_breakdown,
    lemma_mod_pos_bound, lemma_small_mod,
};
use vstd::prelude::*;

use crate::util::{
    block_hash, digits_per_u128, hash_block, lemma_digits_fit, lemma_num_digits_range, lemma_power_exp_monotone, num_digits,
    power,
};
use npaths_tab::lookup;

pub mod npaths_tab;
mod power_tables;

verus! {

/// The abstract value of a wire label: its modulus and its base-`q` digits,
/// least significant first.
pub struct Label {
    pub q: nat,
    pub ds: Seq<nat>,
}

impl Label {
    /// A label of modulus `q` has `num_digits(q)` digits, each below `q`.
    pub open spec fn wf(self) -> bool {
        &&& 2 <= self.q < 65536
        &&& self.ds.len() == num_digits(self.q)
        &&& forall|i: int| 0 <= i < self.ds.len() ==> #[trigger] self.ds[i] < self.q
    }
}

/// The number written by the base-`q` digits `ds` (least significant first).
pub open spec fn digits_value(ds: Seq<nat>, q: nat) -> nat
    decreases ds.len(),
{
    if ds.len() == 0 {
        0
    } else {
        digits_value(ds.drop_last(), q) + ds.last() * power(q, (ds.len() - 1) as nat)
    }
}

/// The 128-bit block that a label stands for.
pub open spec fn label_value(l: Label) -> nat {
    digits_value(l.ds, l.q)
}

/// The label of modulus `q` whose digits are the low `num_digits(q)` base-`q` digits of `x`.
pub open spec fn label_of(x: nat, q: nat) -> Label {
    Label { q, ds: Seq::new(num_digits(q), |i: int| (x / power(q, i as nat)) % q) }
}

/// Digit-wise sum modulo `q`.
pub open spec fn label_plus(a: Label, b: Label) -> Label {
    Label { q: a.q, ds: Seq::new(a.ds.len(), |i: int| (a.ds[i] + b.ds[i]) % a.q) }
}

/// Digit-wise difference modulo `q`.
pub open spec fn label_minus(a: Label, b: Label) -> Label {
    Label {
        q: a.q,
        ds: Seq::new(a.ds.len(), |i: int| ((a.ds[i] - b.ds[i]) % (a.q as int)) as nat),
    }
}

/// Digit-wise multiplication by the constant `c`, modulo `q`.
pub open spec fn label_cmul(a: Label, c: nat) -> Label {
    Label { q: a.q, ds: Seq::new(a.ds.len(), |i: int| (a.ds[i] * c) % a.q) }
}

/// The color (point-and-permute bit, generalised to `Z_q`) of a label: its lowest digit.
pub open spec fn label_color(a: Label) -> nat {
    a.ds[0]
}

/// The hash of a label under `tweak`: the block hash of the label's 128-bit value.
pub open spec fn label_hash(a: Label, tweak: u128) -> u128 {
    block_hash(tweak, label_value(a) as u128)
}

/// The label of modulus `q` made from the hash of `a` under `tweak`.
pub open spec fn label_hashback(a: Label, tweak: u128, q: nat) -> Label {
    label_of(label_hash(a, tweak) as nat, q)
}

/// A wire label for modulus `q`: `num_digits(q)` digits in `Z_q`.
#[derive(Debug, PartialEq, Eq)]
pub struct Wire {
    q: u16,
    ds: Vec<u16>,
}

impl View for Wire {
    type V = Label;

    closed spec fn view(&self) -> Label {
        Label { q: self.q as nat, ds: self.ds@.map_values(|d: u16| d as nat) }
    }
}

impl Clone for Wire {
    fn clone(&self) -> (w: Self)
        ensures
            w@ == self@,
    {
        proof {
            use_type_invariant(self);
        }
        let ds = self.ds.clone();
        assert(ds@ =~= self.ds@);
        Wire { q: self.q, ds }
    }
}

impl Wire {
    /// Every wire's digits are well formed for its modulus.
    #[verifier::type_invariant]
    pub(crate) open spec fn inv(self) -> bool {
        self@.wf()
    }

    /// The modulus of the wire.
    pub fn modulus(&self) -> (q: u16)
        ensures
            q == self@.q,
    {
        self.q
    }

    /// The color of the wire: its lowest digit.
    pub fn color(&self) -> (c: u16)
        ensures
            c == label_color(self@),
            c < self@.q,
    {
        proof {
            use_type_invariant(self);
            lemma_num_digits_range(self@.q);
        }
        self.ds[0]
    }

    /// The digits of the wire, least significant first.
    pub fn digits(&self) -> (ds: Vec<u16>)
        ensures
            ds@.map_values(|d: u16| d as nat) == self@.ds,
    {
        let ds = self.ds.clone();
        assert(ds@ =~= self.ds@);
        ds
    }

    /// Splits the block `x` into the `num_digits(q)` low base-`q` digits of a label.
    pub fn from_u128(x: u128, q: u16) -> (w: Wire)
        requires
            q >= 2,
        ensures
            w@.wf(),
            w@ == label_of(x as nat, q as nat),
    {
        let n = digits_per_u128(q);
        let qq = q as u128;
        let mut ds: Vec<u16> = Vec::new();
        let mut rest = x;
        let mut i: usize = 0;
        assert(power(q as nat, 0) == 1);
        assert((x as nat) / 1 == x);
        while i < n
            invariant
                n == num_digits(q as nat),
                qq == q,
                q >= 2,
                i <= n,
                ds@.len() == i,
                rest == (x as nat) / power(q as nat, i as nat),
                forall|j: int|
                    0 <= j < i ==> #[trigger] ds@[j] == ((x as nat) / power(q as nat, j as nat)) % (q as nat),
            decreases n - i,
        {
            proof {
                lemma_power_exp_monotone(q as nat, 0, i as nat);
                lemma_div_denominator(x as int, power(q as nat, i as nat) as int, q as int);
                assert(power(q as nat, (i + 1) as nat) == q * power(q as nat, i as nat));
                assert(power(q as nat, i as nat) * q == q * power(q as nat, i as nat))
                    by (nonlinear_arith);
            }
            ds.push((rest % qq) as u16);
            rest = rest / qq;
            i = i + 1;
        }
        let w = Wire { q, ds };
        assert(w@.ds =~= label_of(x as nat, q as nat).ds);
        w
    }

    /// The 128-bit block that the wire stands for: the sum of its digits times the
    /// powers of its modulus.
    pub fn as_u128(&self) -> (x: u128)
        ensures
            x == label_value(self@),
    {
        proof {
            use_type_invariant(self);
        }
        let q = self.q;
        let tab = lookup(q);
        let n = self.ds.len();
        let ghost l = self@;
        let mut acc: u128 = 0;
        for i in 0..n
            invariant
                l == self@,
                l.wf(),
                n == l.ds.len(),
                q == l.q,
                tab@.len() == n,
                forall|j: int| 0 <= j < n ==> #[trigger] tab@[j] == power(q as nat, j as nat),
                acc == digits_value(l.ds.take(i as int), q as nat),
        {
            proof {
                let pre = l.ds.take(i as int);
                let next = l.ds.take(i + 1);
                assert(next.drop_last() =~= pre);
                lemma_digits_value_bound(next, q as nat);
                lemma_digits_fit(q as nat);
                lemma_power_exp_monotone(q as nat, (i + 1) as nat, n as nat);
                assert(self.ds@[i as int] as nat == l.ds[i as int]);
            }
            acc = acc + (self.ds[i] as u128) * tab[i];
        }
        assert(l.ds.take(n as int) =~= l.ds);
        acc
    }

    /// Digit-wise sum of two wires of the same modulus.
    pub fn plus(&self, other: &Wire) -> (w: Wire)
        requires
            self@.q == other@.q,
        ensures
            w@.wf(),
            w@ == label_plus(self@, other@),
    {
        proof {
            use_type_invariant(self);
            use_type_invariant(other);
        }
        let q = self.q as u32;
        let n = self.ds.len();
        let mut ds: Vec<u16> = Vec::new();
        for i in 0..n
            invariant
                self@.wf(),
                other@.wf(),
                self@.q == other@.q,
                q == self@.q,
                n == self@.ds.len(),
                ds@.len() == i,
                forall|j: int|
                    0 <= j < i ==> #[trigger] ds@[j] == (self@.ds[j] + other@.ds[j]) % self@.q,
        {
            let d = (self.ds[i] as u32 + other.ds[i] as u32) % q;
            ds.push(d as u16);
        }
        let w = Wire { q: self.q, ds };
        assert(w@.ds =~= label_plus(self@, other@).ds);
        w
    }

    /// Adds `other` into this wire, digit-wise modulo the modulus.
    pub fn plus_mov(&mut self, other: &Wire)
        requires
            old(self)@.q == other@.q,
        ensures
            final(self)@.wf(),
            final(self)@ == label_plus(old(self)@, other@),
    {
        *self = self.plus(other);
    }

    /// Digit-wise difference of two wires of the same modulus.
    pub fn minus(&self, other: &Wire) -> (w: Wire)
        requires
            self@.q == other@.q,
        ensures
            w@.wf(),
            w@ == label_minus(self@, other@),
    {
        proof {
            use_type_invariant(self);
            use_type_invariant(other);
        }
        let q = self.q as u32;
        let n = self.ds.len();
        let mut ds: Vec<u16> = Vec::new();
        for i in 0..n
            invariant
                self@.wf(),
                other@.wf(),
                self@.q == other@.q,
                q == self@.q,
                n == self@.ds.len(),
                ds@.len() == i,
                forall|j: int|
                    0 <= j < i ==> #[trigger] ds@[j] == ((self@.ds[j] - other@.ds[j]) % (q as int)),
        {
            let a = self.ds[i] as u32;
            let b = other.ds[i] as u32;
            assert(self@.ds[i as int] < q && other@.ds[i as int] < q);
            proof {
                lemma_mod_add_multiples_vanish(a - b, q as int);
            }
            let d = (a + q - b) % q;
            ds.push(d as u16);
        }
        let w = Wire { q: self.q, ds };
        assert(w@.ds =~= label_minus(self@, other@).ds);
        w
    }

    /// Multiplies every digit by the constant `c`, modulo the modulus.
    pub fn cmul(&self, c: u16) -> (w: Wire)
        ensures
            w@.wf(),
            w@ == label_cmul(self@, c as nat),
    {
        proof {
            use_type_invariant(self);
        }
        let q = self.q as u32;
        let n = self.ds.len();
        let mut ds: Vec<u16> = Vec::new();
        for i in 0..n
            invariant
                self@.wf(),
                q == self@.q,
                n == self@.ds.len(),
                ds@.len() == i,
                forall|j: int| 0 <= j < i ==> #[trigger] ds@[j] == (self@.ds[j] * (c as nat)) % self@.q,
        {
            let a = self.ds[i] as u32;
            assert(a * (c as u32) <= 65535 * 65535) by (nonlinear_arith)
                requires
                    a <= 65535,
                    c <= 65535,
            ;
            let d = (a * (c as u32)) % q;
            ds.push(d as u16);
        }
        let w = Wire { q: self.q, ds };
        assert(w@.ds =~= label_cmul(self@, c as nat).ds);
        w
    }

    /// Hashes the wire's 128-bit value under `tweak`.
    pub fn hash(&self, tweak: u128) -> (h: u128)
        ensures
            h == label_hash(self@, tweak),
    {
        hash_block(tweak, self.as_u128())
    }

    /// Hashes the wire under `tweak` and splits the hash into a label of modulus `q`.
    pub fn hashback(&self, tweak: u128, q: u16) -> (w: Wire)
        requires
            q >= 2,
        ensures
            w@.wf(),
            w@ == label_hashback(self@, tweak, q as nat),
    {
        Wire::from_u128(self.hash(tweak), q)
    }
}

/// A number written with digits below `q` is below `q` to the number of digits.
pub proof fn lemma_digits_value_bound(ds: Seq<nat>, q: nat)
    requires
        q >= 1,
        forall|i: int| 0 <= i < ds.len() ==> #[trigger] ds[i] < q,
    ensures
        digits_value(ds, q) < power(q, ds.len()),
    decreases ds.len(),
{
    if ds.len() > 0 {
        let n = (ds.len() - 1) as nat;
        let pre = ds.drop_last();
        lemma_digits_value_bound(pre, q);
        let v = digits_value(pre, q);
        let p = power(q, n);
        let d = ds.last();
        assert(d < q);
        assert(v + d * p < q * p) by (nonlinear_arith)
            requires
                v < p,
                d + 1 <= q,
        ;
    }
}

/// The label of `x` is well formed for any 16-bit modulus.
pub proof fn lemma_label_of_wf(x: nat, q: nat)
    requires
        2 <= q < 65536,
    ensures
        label_of(x, q).wf(),
{
    let l = label_of(x, q);
    assert forall|i: int| 0 <= i < l.ds.len() implies #[trigger] l.ds[i] < q by {
        lemma_power_exp_monotone(q, 0, i as nat);
        lemma_mod_pos_bound((x / power(q, i as nat)) as int, q as int);
    }
}

/// The first `k` digits of `label_of(x, q)` write `x mod q^k`.
proof fn lemma_label_of_prefix_value(x: nat, q: nat, k: nat)
    requires
        2 <= q < 65536,
        k <= num_digits(q),
    ensures
        digits_value(label_of(x, q).ds.take(k as int), q) == x % power(q, k),
    decreases k,
{
    let ds = label_of(x, q).ds;
    if k == 0 {
        assert(power(q, 0) == 1);
        assert(x % 1 == 0) by (nonlinear_arith);
    } else {
        let m = (k - 1) as nat;
        lemma_label_of_prefix_value(x, q, m);
        assert(ds.take(k as int).drop_last() =~= ds.take(m as int));
        let p = power(q, m);
        lemma_power_exp_monotone(q, 0, m);
        lemma_mod_breakdown(x as int, p as int, q as int);
        assert(power(q, k) == q * p);
        let d = (x / p) % q;
        assert(ds.take(k as int).last() == d);
        assert(p * d == d * p && p * q == q * p) by (nonlinear_arith);
    }
}

/// Law: splitting a block into a label and reading the label back gives the block
/// modulo `q^num_digits(q)` (for `q == 2`, the block itself).
pub proof fn lemma_value_of_label_of(x: nat, q: nat)
    requires
        2 <= q < 65536,
    ensures
        label_value(label_of(x, q)) == x % power(q, num_digits(q)),
{
    lemma_label_of_prefix_value(x, q, num_digits(q));
    assert(label_of(x, q).ds.take(num_digits(q) as int) =~= label_of(x, q).ds);
}

/// Two digit strings of equal length, with digits below `q`, that write the same
/// number are equal.
pub proof fn lemma_digits_unique(a: Seq<nat>, b: Seq<nat>, q: nat)
    requires
        q >= 1,
        a.len() == b.len(),
        forall|i: int| 0 <= i < a.len() ==> #[trigger] a[i] < q,
        forall|i: int| 0 <= i < b.len() ==> #[trigger] b[i] < q,
        digits_value(a, q) == digits_value(b, q),
    ensures
        a == b,
    decreases a.len(),
{
    if a.len() > 0 {
        let n = (a.len() - 1) as nat;
        let p = power(q, n);
        let v = digits_value(a, q);
        lemma_digits_value_bound(a.drop_last(), q);
        lemma_digits_value_bound(b.drop_last(), q);
        lemma_power_exp_monotone(q, 0, n);
        let la = a.last();
        let lb = b.last();
        assert(la * p == p * la && lb * p == p * lb) by (nonlinear_arith);
        lemma_fundamental_div_mod_converse_div(v as int, p as int, la as int, digits_value(a.drop_last(), q) as int);
        lemma_fundamental_div_mod_converse_div(v as int, p as int, lb as int, digits_value(b.drop_last(), q) as int);
        lemma_fundamental_div_mod_converse_mod(v as int, p as int, la as int, digits_value(a.drop_last(), q) as int);
        lemma_fundamental_div_mod_converse_mod(v as int, p as int, lb as int, digits_value(b.drop_last(), q) as int);
        lemma_digits_unique(a.drop_last(), b.drop_last(), q);
        assert forall|i: int| 0 <= i < a.len() implies a[i] == b[i] by {
            if i < n {
                assert(a[i] == a.drop_last()[i]);
                assert(b[i] == b.drop_last()[i]);
            }
        }
        assert(a =~= b);
    } else {
        assert(a =~= b);
    }
}

/// The value of a well-formed label is below `q^num_digits(q)`, hence fits in 128 bits.
pub proof fn lemma_label_value_bound(l: Label)
    requires
        l.wf(),
    ensures
        label_value(l) < power(l.q, num_digits(l.q)),
        label_value(l) <= u128::MAX,
{
    lemma_digits_value_bound(l.ds, l.q);
    lemma_digits_fit(l.q);
}

/// Law: reading a well-formed label as a block and splitting the block again gives back
/// the same label.
pub proof fn lemma_label_of_value(l: Label)
    requires
        l.wf(),
    ensures
        label_of(label_value(l), l.q) == l,
{
    let v = label_value(l);
    let q = l.q;
    lemma_label_value_bound(l);
    lemma_value_of_label_of(v, q);
    lemma_small_mod(v, power(q, num_digits(q)));
    lemma_label_of_wf(v, q);
    lemma_digits_unique(label_of(v, q).ds, l.ds, q);
}

/// Law: subtracting what was added gives back the label it started from.
pub proof fn lemma_minus_undoes_plus(a: Label, b: Label)
    requires
        a.wf(),
        b.wf(),
        a.q == b.q,
    ensures
        label_minus(label_plus(a, b), b) == a,
        label_plus(a, b).wf(),
{
    let s = label_plus(a, b);
    let q = a.q;
    assert forall|i: int| 0 <= i < a.ds.len() implies #[trigger] s.ds[i] < q by {
        lemma_mod_pos_bound((a.ds[i] + b.ds[i]) as int, q as int);
    }
    assert forall|i: int| 0 <= i < a.ds.len() implies ((s.ds[i] - b.ds[i]) % (q as int)) as nat == a.ds[i] by {
        let x = a.ds[i] as int;
        let y = b.ds[i] as int;
        let t = (x + y) / (q as int);
        lemma_fundamental_div_mod(x + y, q as int);
        assert(s.ds[i] - y == q * (-t) + x) by (nonlinear_arith)
            requires
                x + y == q * t + s.ds[i],
        ;
        vstd::arithmetic::div_mod::lemma_mod_multiples_vanish(-t, x, q as int);
        lemma_small_mod(a.ds[i], q);
    }
    assert(label_minus(s, b).ds =~= a.ds);
}

/// Law: adding back what was subtracted gives back the label it started from.
pub proof fn lemma_plus_undoes_minus(a: Label, b: Label)
    requires
        a.wf(),
        b.wf(),
        a.q == b.q,
    ensures
        label_plus(label_minus(a, b), b) == a,
        label_minus(a, b).wf(),
{
    let s = label_minus(a, b);
    let q = a.q;
    assert forall|i: int| 0 <= i < a.ds.len() implies #[trigger] s.ds[i] < q by {
        lemma_mod_pos_bound(a.ds[i] - b.ds[i] + q, q as int);
        lemma_mod_add_multiples_vanish(a.ds[i] - b.ds[i], q as int);
    }
    assert forall|i: int| 0 <= i < a.ds.len() implies (s.ds[i] + b.ds[i]) % q == a.ds[i] by {
        let x = a.ds[i] as int;
        let y = b.ds[i] as int;
        let d = (x - y) % (q as int);
        let t = (x - y) / (q as int);
        lemma_fundamental_div_mod(x - y, q as int);
        lemma_mod_add_multiples_vanish(x - y, q as int);
        lemma_mod_pos_bound(x - y + q, q as int);
        assert(d + y == q * (-t) + x) by (nonlinear_arith)
            requires
                x - y == q * t + d,
        ;
        vstd::arithmetic::div_mod::lemma_mod_multiples_vanish(-t, x, q as int);
        lemma_small_mod(a.ds[i], q);
    }
    assert(label_plus(s, b).ds =~= a.ds);
}

/// Law: for modulus 2 a label holds all 128 bits, so splitting a block into a label
/// and reading it back gives the block itself.
pub proof fn lemma_binary_label_roundtrip(x: u128)
    ensures
        label_value(label_of(x as nat, 2)) == x,
{
    reveal_with_fuel(crate::util::bit_width, 2);
    crate::util::lemma_num_digits(2, 1);
    crate::util::lemma_power2_128();
    lemma_value_of_label_of(x as nat, 2);
    lemma_small_mod(x as nat, power(2, 128));
}

} // verus!
