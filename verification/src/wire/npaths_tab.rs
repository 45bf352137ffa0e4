//! Powers of a modulus, used to move between a 128-bit block and its base-`q` digits.
use vstd::prelude::*;

use super::power_tables::{
    powers_of_5, powers_of_6, powers_of_7, powers_of_9, powers_of_10, powers_of_11, powers_of_12,
    powers_of_13, powers_of_14, powers_of_15, powers_of_17, powers_of_18, powers_of_19,
    powers_of_20, powers_of_21, powers_of_22, powers_of_23, powers_of_24,
};
use crate::util::{
    digits_per_u128, lemma_digits_fit, lemma_num_digits, lemma_power_exp_monotone, num_digits, power,
};

verus! {

/// `tab` holds exactly the first `n` powers of `q`: `tab[i] == q^i` for `i < n`.
pub open spec fn is_power_table(tab: Seq<u128>, q: nat, n: nat) -> bool {
    &&& tab.len() == n
    &&& forall|i: int| 0 <= i < n ==> #[trigger] tab[i] == power(q, i as nat)
}

/// Every power of `q` below `q^num_digits(q)` fits in a `u128`.
pub proof fn lemma_powers_fit(q: nat, i: nat)
    requires
        q >= 2,
        i < num_digits(q),
    ensures
        power(q, i) <= u128::MAX,
        q * power(q, i) <= u128::MAX + 1,
{
    lemma_digits_fit(q);
    lemma_power_exp_monotone(q, i + 1, num_digits(q));
    assert(power(q, i + 1) == q * power(q, i));
    let p = power(q, i);
    lemma_power_exp_monotone(q, 0, i);
    assert(p < q * p) by (nonlinear_arith)
        requires
            q >= 2,
            p >= 1,
    ;
}

/// Computes the powers `q^0, ..., q^(n-1)` by repeated multiplication, where `n` is
/// the number of base-`q` digits of a 128-bit label.
fn compute_powers(q: u16) -> (tab: Vec<u128>)
    requires
        q >= 2,
    ensures
        is_power_table(tab@, q as nat, num_digits(q as nat)),
{
    let ndigits = digits_per_u128(q);
    let mut npaths_tab: Vec<u128> = vec![1; ndigits];
    assert(npaths_tab@[0] == power(q as nat, 0));
    for i in 1..ndigits
        invariant
            ndigits == num_digits(q as nat),
            q >= 2,
            npaths_tab@.len() == ndigits,
            forall|j: int| 0 <= j < i ==> npaths_tab@[j] == power(q as nat, j as nat),
    {
        proof {
            lemma_powers_fit(q as nat, i as nat);
            assert(power(q as nat, i as nat) == q * power(q as nat, (i - 1) as nat));
            assert(npaths_tab@[i - 1] == power(q as nat, (i - 1) as nat));
        }
        let prev = npaths_tab[i - 1];
        assert(prev * q == q * prev) by (nonlinear_arith);
        let next = prev * q as u128;
        assert(next == power(q as nat, i as nat));
        npaths_tab.set(i, next);
    }
    npaths_tab
}

/// Returns the powers `q^0, q^1, ..., q^(n-1)` of the modulus `q`, where `n` is the
/// number of base-`q` digits of a 128-bit label. Common moduli come from a
/// precomputed table; the others are computed.
pub fn lookup(q: u16) -> (tab: Vec<u128>)
    requires
        q >= 2,
    ensures
        is_power_table(tab@, q as nat, num_digits(q as nat)),
{
    match q {
        5 => {
            proof {
                reveal_with_fuel(crate::util::bit_width, 6);
                lemma_num_digits(5, 3);
            }
            powers_of_5()
        },
        6 => {
            proof {
                reveal_with_fuel(crate::util::bit_width, 6);
                lemma_num_digits(6, 3);
            }
            powers_of_6()
        },
        7 => {
            proof {
                reveal_with_fuel(crate::util::bit_width, 6);
                lemma_num_digits(7, 3);
            }
            powers_of_7()
        },
        9 => {
            proof {
                reveal_with_fuel(crate::util::bit_width, 6);
                lemma_num_digits(9, 4);
            }
            powers_of_9()
        },
        10 => {
            proof {
                reveal_with_fuel(crate::util::bit_width, 6);
                lemma_num_digits(10, 4);
            }
            powers_of_10()
        },
        11 => {
            proof {
                reveal_with_fuel(crate::util::bit_width, 6);
                lemma_num_digits(11, 4);
            }
            powers_of_11()
        },
        12 => {
            proof {
                reveal_with_fuel(crate::util::bit_width, 6);
                lemma_num_digits(12, 4);
            }
            powers_of_12()
        },
        13 => {
            proof {
                reveal_with_fuel(crate::util::bit_width, 6);
                lemma_num_digits(13, 4);
            }
            powers_of_13()
        },
        14 => {
            proof {
                reveal_with_fuel(crate::util::bit_width, 6);
                lemma_num_digits(14, 4);
            }
            powers_of_14()
        },
        15 => {
            proof {
                reveal_with_fuel(crate::util::bit_width, 6);
                lemma_num_digits(15, 4);
            }
            powers_of_15()
        },
        17 => {
            proof {
                reveal_with_fuel(crate::util::bit_width, 6);
                lemma_num_digits(17, 5);
            }
            powers_of_17()
        },
        18 => {
            proof {
                reveal_with_fuel(crate::util::bit_width, 6);
                lemma_num_digits(18, 5);
            }
            powers_of_18()
        },
        19 => {
            proof {
                reveal_with_fuel(crate::util::bit_width, 6);
                lemma_num_digits(19, 5);
            }
            powers_of_19()
        },
        20 => {
            proof {
                reveal_with_fuel(crate::util::bit_width, 6);
                lemma_num_digits(20, 5);
            }
            powers_of_20()
        },
        21 => {
            proof {
                reveal_with_fuel(crate::util::bit_width, 6);
                lemma_num_digits(21, 5);
            }
            powers_of_21()
        },
        22 => {
            proof {
                reveal_with_fuel(crate::util::bit_width, 6);
                lemma_num_digits(22, 5);
            }
            powers_of_22()
        },
        23 => {
            proof {
                reveal_with_fuel(crate::util::bit_width, 6);
                lemma_num_digits(23, 5);
            }
            powers_of_23()
        },
        24 => {
            proof {
                reveal_with_fuel(crate::util::bit_width, 6);
                lemma_num_digits(24, 5);
            }
            powers_of_24()
        },
        _ => compute_powers(q),
    }
}

} // verus!
