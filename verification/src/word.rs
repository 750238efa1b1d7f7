//! The 256-bit unsigned integers of the chain: balances in wei, nonces and batch counters.

use crate::text::{decimal, law_decimal_has_the_digits};
use vstd::arithmetic::power::{lemma_pow_positive, lemma_pow_strictly_increases, pow};
use vstd::prelude::*;
use vstd::string::*;

verus! {

/// A 256-bit unsigned integer, as four 64-bit limbs, the least significant first.
#[derive(Clone, Copy, Debug, PartialEq, Eq, Structural)]
pub struct U256(pub u64, pub u64, pub u64, pub u64);

impl View for U256 {
    type V = nat;

    open spec fn view(&self) -> nat {
        (self.0 + self.1 * 0x1_0000_0000_0000_0000 + self.2
            * 0x1_0000_0000_0000_0000_0000_0000_0000_0000 + self.3
            * 0x1_0000_0000_0000_0000_0000_0000_0000_0000_0000_0000_0000_0000) as nat
    }
}

/// One limb of a subtraction: `a - b - borrow`, with a borrow from the next limb where needed.
fn sub_limb(a: u64, b: u64, borrow: bool) -> (res: (u64, bool))
    ensures
        res.0 == a - b - (if borrow {
            1int
        } else {
            0int
        }) + (if res.1 {
            0x1_0000_0000_0000_0000int
        } else {
            0int
        }),
{
    let taken: u128 = if borrow {
        b as u128 + 1
    } else {
        b as u128
    };
    if a as u128 >= taken {
        ((a as u128 - taken) as u64, false)
    } else {
        ((a as u128 + 0x1_0000_0000_0000_0000 - taken) as u64, true)
    }
}

impl U256 {
    /// The number `n`.
    pub fn from_u64(n: u64) -> (res: U256)
        ensures
            res@ == n,
    {
        U256(n, 0, 0, 0)
    }

    /// Whether `self` is the smaller number.
    pub fn less_than(&self, other: &U256) -> (res: bool)
        ensures
            res == (self@ < other@),
    {
        if self.3 != other.3 {
            self.3 < other.3
        } else if self.2 != other.2 {
            self.2 < other.2
        } else if self.1 != other.1 {
            self.1 < other.1
        } else {
            self.0 < other.0
        }
    }

    /// The difference, or zero where `other` is the larger number.
    pub fn saturating_sub(&self, other: &U256) -> (res: U256)
        ensures
            res@ == (if self@ >= other@ {
                self@ - other@
            } else {
                0
            }),
    {
        let (d0, b0) = sub_limb(self.0, other.0, false);
        let (d1, b1) = sub_limb(self.1, other.1, b0);
        let (d2, b2) = sub_limb(self.2, other.2, b1);
        let (d3, b3) = sub_limb(self.3, other.3, b2);
        if b3 {
            U256(0, 0, 0, 0)
        } else {
            U256(d0, d1, d2, d3)
        }
    }
}

/// Two values are the same exactly if they are the same number, so that a number has changed
/// exactly if one of its limbs has.
pub proof fn law_equal_numbers_are_the_same(a: U256, b: U256)
    ensures
        a@ == b@ <==> a == b,
{
}

/// `wei` as a count of ether: a whole part, a point and eighteen decimals.
pub open spec fn ether_text(wei: nat) -> Seq<char> {
    let decimals = decimal(wei % 1_000_000_000_000_000_000);
    decimal(wei / 1_000_000_000_000_000_000) + seq!['.'] + Seq::new(
        (18 - decimals.len()) as nat,
        |i: int| '0',
    ) + decimals
}

/// The limbs are digits to the base 2^64, the least significant first: each limb counts, and what
/// stands above the lowest one counts 2^64 times.
pub proof fn law_limbs_are_digits(a: u64, b: u64, c: u64, d: u64)
    ensures
        U256(a, 0, 0, 0)@ == a,
        U256(a, b, c, d)@ == a + 18_446_744_073_709_551_616 * U256(b, c, d, 0)@,
{
}

/// An amount in ether is the whole number of ether, a point, and the eighteen decimals of what is
/// left, each in its place.
pub proof fn law_ether_text_has_the_digits(wei: nat)
    ensures
        ({
            let text = ether_text(wei);
            let whole = decimal(wei / 1_000_000_000_000_000_000);
            let rest = wei as int % 1_000_000_000_000_000_000;
            let point = whole.len() as int;
            &&& text.len() == point + 19
            &&& text.take(point) == whole
            &&& text[point] == '.'
            &&& forall|i: int|
                0 <= i < 18 ==> #[trigger] text[point + 18 - i] == "0123456789"@[(rest / pow(
                    10,
                    i as nat,
                )) % 10]
        }),
{
    reveal_strlit("0123456789");
    let text = ether_text(wei);
    let whole = decimal(wei / 1_000_000_000_000_000_000);
    let rest = wei % 1_000_000_000_000_000_000;
    let decimals = decimal(rest);
    let point = whole.len() as int;
    let n = decimals.len();
    law_decimal_has_the_digits(rest);
    assert(pow(10, 18) == 1_000_000_000_000_000_000) by {
        reveal_with_fuel(pow, 19);
    }
    if n > 18 {
        if n - 1 > 18 {
            lemma_pow_strictly_increases(10, 18, (n - 1) as nat);
        }
        assert(rest > 0) by {
            if rest == 0 {
                assert(n == 1);
            }
        }
    }
    assert(text.take(point) =~= whole);
    assert forall|i: int| 0 <= i < 18 implies #[trigger] text[point + 18 - i] == "0123456789"@[(
    rest as int / pow(10, i as nat)) % 10] by {
        if i < n {
            assert(text[point + 18 - i] == decimals[n - 1 - i]);
        } else {
            lemma_pow_positive(10, i as nat);
            if i > n {
                lemma_pow_strictly_increases(10, n, i as nat);
            }
            lemma_small_quotient(rest as int, pow(10, i as nat));
        }
    }
}

proof fn lemma_small_quotient(a: int, b: int)
    by (nonlinear_arith)
    requires
        0 <= a < b,
    ensures
        a / b == 0,
{
}

/// `ethers::utils::format_ether`: the amount divided by 10^18, with exactly eighteen decimals,
/// padded with zeros on the left.
#[verifier::external_body]
pub(crate) fn format_ether(wei: &U256) -> (res: String)
    ensures
        res@ == ether_text(wei@),
{
    ethers::utils::format_ether(ethers::types::U256([wei.0, wei.1, wei.2, wei.3]))
}

/// The `Display` of `ethers::types::U256`: the number in decimal, without leading zeros.
#[verifier::external_body]
pub(crate) fn u256_text(n: &U256) -> (res: String)
    ensures
        res@ == decimal(n@),
{
    ethers::types::U256([n.0, n.1, n.2, n.3]).to_string()
}

} // verus!
