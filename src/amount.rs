//! 256-bit unsigned token amounts, held as four little-endian 64-bit words.

use vstd::prelude::*;
use web3::types::U256;

verus! {

/// Two to the sixty-fourth: the base of one word.
pub open spec fn word() -> nat {
    0x1_0000_0000_0000_0000nat
}

/// Two to the 128th: the weight of the third word.
pub open spec fn word2() -> nat {
    0x1_0000_0000_0000_0000_0000_0000_0000_0000nat
}

/// Two to the 192nd: the weight of the fourth word.
pub open spec fn word3() -> nat {
    0x1_0000_0000_0000_0000_0000_0000_0000_0000_0000_0000_0000_0000nat
}

/// Two to the 256th: every amount lies below it.
pub open spec fn amount_bound() -> nat {
    0x1_0000_0000_0000_0000_0000_0000_0000_0000_0000_0000_0000_0000_0000_0000_0000_0000nat
}

/// The largest amount.
pub open spec fn amount_max() -> nat {
    (amount_bound() - 1) as nat
}

/// Cuts a number short at the largest amount.
pub open spec fn saturate(n: nat) -> nat {
    if n < amount_bound() {
        n
    } else {
        amount_max()
    }
}

/// A 256-bit unsigned integer in base units; `w0` is the lowest word.
#[derive(Clone, Copy, Debug, PartialEq, Eq, Structural, Hash)]
pub struct Amount {
    pub w0: u64,
    pub w1: u64,
    pub w2: u64,
    pub w3: u64,
}

impl View for Amount {
    type V = nat;

    open spec fn view(&self) -> nat {
        self.w0 as nat + self.w1 as nat * word() + self.w2 as nat * word2() + self.w3 as nat * word3()
    }
}

/// Every amount lies below two to the 256th.
pub proof fn lemma_view_bound(a: Amount)
    ensures
        a@ < amount_bound(),
{
}

/// The words of an amount are the canonical words of its value.
pub proof fn lemma_from_nat_view(a: Amount)
    ensures
        Amount::from_nat(a@) == a,
{
    reveal(Amount::from_nat);
    let (w0, w1, w2, w3) = (a.w0 as int, a.w1 as int, a.w2 as int, a.w3 as int);
    let v = a@ as int;
    let w = word() as int;
    assert(word2() as int == w * w && word3() as int == w * w * w);
    assert(v == (w1 + w2 * w + w3 * (w * w)) * w + w0) by (nonlinear_arith)
        requires
            v == w0 + w1 * w + w2 * (w * w) + w3 * (w * w * w),
    ;
    assert(w1 + w2 * w + w3 * (w * w) == (w2 + w3 * w) * w + w1) by (nonlinear_arith);
    assert(v == (w2 + w3 * w) * (w * w) + (w0 + w1 * w)) by (nonlinear_arith)
        requires
            v == w0 + w1 * w + w2 * (w * w) + w3 * (w * w * w),
    ;
    vstd::arithmetic::div_mod::lemma_fundamental_div_mod_converse(v, w, w1 + w2 * w + w3 * (w * w), w0);
    vstd::arithmetic::div_mod::lemma_fundamental_div_mod_converse(
        w1 + w2 * w + w3 * (w * w),
        w,
        w2 + w3 * w,
        w1,
    );
    vstd::arithmetic::div_mod::lemma_fundamental_div_mod_converse(w2 + w3 * w, w, w3, w2);
    vstd::arithmetic::div_mod::lemma_fundamental_div_mod_converse(
        v,
        word2() as int,
        w2 + w3 * w,
        w0 + w1 * w,
    );
    vstd::arithmetic::div_mod::lemma_fundamental_div_mod_converse(
        v,
        word3() as int,
        w3,
        w0 + w1 * w + w2 * (word2() as int),
    );
    vstd::arithmetic::div_mod::lemma_fundamental_div_mod_converse(w3, w, 0, w3);
}

/// A number below two to the 256th is the value of its canonical words.
pub proof fn lemma_view_from_nat(n: nat)
    requires
        n < amount_bound(),
    ensures
        Amount::from_nat(n)@ == n,
{
    reveal(Amount::from_nat);
    let w = word() as int;
    let n0 = n as int;
    let q1 = n0 / w;
    let q2 = q1 / w;
    let q3 = q2 / w;
    vstd::arithmetic::div_mod::lemma_fundamental_div_mod(n0, w);
    vstd::arithmetic::div_mod::lemma_fundamental_div_mod(q1, w);
    vstd::arithmetic::div_mod::lemma_fundamental_div_mod(q2, w);
    vstd::arithmetic::div_mod::lemma_fundamental_div_mod(q3, w);
    vstd::arithmetic::div_mod::lemma_div_denominator(n0, w, w);
    vstd::arithmetic::div_mod::lemma_div_denominator(n0, w * w, w);
    assert(word2() as int == w * w && word3() as int == w * w * w);
    assert(q3 < w) by {
        vstd::arithmetic::div_mod::lemma_div_by_multiple_is_strongly_ordered(n0, amount_bound() as int, w * w * w, w);
        vstd::arithmetic::div_mod::lemma_div_by_multiple(w, w * w * w);
    }
    assert(q3 % w == q3) by {
        vstd::arithmetic::div_mod::lemma_small_mod(q3 as nat, w as nat);
    }
    assert(n0 == n0 % w + (q1 % w) * w + (q2 % w) * (w * w) + q3 * (w * w * w)) by (nonlinear_arith)
        requires
            n0 == w * q1 + n0 % w,
            q1 == w * q2 + q1 % w,
            q2 == w * q3 + q2 % w,
    ;
}

impl Amount {
    /// The canonical words of a number below `amount_bound()`.
    #[verifier::opaque]
    pub open spec fn from_nat(n: nat) -> Amount {
        Amount {
            w0: (n % word()) as u64,
            w1: ((n / word()) % word()) as u64,
            w2: ((n / word2()) % word()) as u64,
            w3: ((n / word3()) % word()) as u64,
        }
    }

    pub fn zero() -> (r: Amount)
        ensures
            r@ == 0,
            r == Amount::from_nat(0),
    {
        proof {
            reveal(Amount::from_nat);
        }
        Amount { w0: 0, w1: 0, w2: 0, w3: 0 }
    }

    pub fn from_u64(x: u64) -> (r: Amount)
        ensures
            r@ == x as nat,
            r == Amount::from_nat(x as nat),
    {
        proof {
            reveal(Amount::from_nat);
            assert((x as nat) % word() == x as nat);
            assert((x as nat) / word() == 0);
            assert((x as nat) / word2() == 0);
            assert((x as nat) / word3() == 0);
        }
        Amount { w0: x, w1: 0, w2: 0, w3: 0 }
    }

    pub fn is_zero(&self) -> (r: bool)
        ensures
            r == (self@ == 0),
    {
        proof {
            let (a, b, c, d) = (self.w0 as int, self.w1 as int, self.w2 as int, self.w3 as int);
            assert(a + b * 0x1_0000_0000_0000_0000 + c * 0x1_0000_0000_0000_0000_0000_0000_0000_0000
                + d * 0x1_0000_0000_0000_0000_0000_0000_0000_0000_0000_0000_0000_0000 == 0 ==> a == 0
                && b == 0 && c == 0 && d == 0) by (nonlinear_arith)
                requires
                    a >= 0,
                    b >= 0,
                    c >= 0,
                    d >= 0,
            ;
        }
        self.w0 == 0 && self.w1 == 0 && self.w2 == 0 && self.w3 == 0
    }

    /// `self + other`, or `None` where the sum does not fit.
    pub fn checked_add(self, other: Amount) -> (r: Option<Amount>)
        ensures
            r is Some <==> self@ + other@ < amount_bound(),
            r matches Some(v) ==> v@ == self@ + other@ && v == Amount::from_nat(self@ + other@),
    {
        u256_checked_add(self, other)
    }

    /// `self - other`, or `None` where `other` is the larger.
    pub fn checked_sub(self, other: Amount) -> (r: Option<Amount>)
        ensures
            r is Some <==> self@ >= other@,
            r matches Some(v) ==> v@ == self@ - other@ && v == Amount::from_nat((self@ - other@) as nat),
    {
        u256_checked_sub(self, other)
    }

    /// `self * other`, or `None` where the product does not fit.
    pub fn checked_mul(self, other: Amount) -> (r: Option<Amount>)
        ensures
            r is Some <==> self@ * other@ < amount_bound(),
            r matches Some(v) ==> v@ == self@ * other@ && v == Amount::from_nat(self@ * other@),
    {
        u256_checked_mul(self, other)
    }

    /// `self / other` rounded down, or `None` where `other` is zero.
    pub fn checked_div(self, other: Amount) -> (r: Option<Amount>)
        ensures
            r is Some <==> other@ != 0,
            r matches Some(v) ==> v@ == self@ / other@ && v == Amount::from_nat(self@ / other@),
    {
        u256_checked_div(self, other)
    }

    /// `self + other`, cut short at the largest amount.
    pub fn saturating_add(self, other: Amount) -> (r: Amount)
        ensures
            r@ == saturate(self@ + other@),
            r == Amount::from_nat(saturate(self@ + other@)),
    {
        u256_saturating_add(self, other)
    }

    pub fn lt(&self, other: &Amount) -> (r: bool)
        ensures
            r == (self@ < other@),
    {
        self.checked_sub(*other).is_none()
    }
}

/// Relies on `U256::checked_add`: `None` exactly on overflow, else the sum.
#[verifier::external_body]
fn u256_checked_add(a: Amount, b: Amount) -> (r: Option<Amount>)
    ensures
        r is Some <==> a@ + b@ < amount_bound(),
        r matches Some(v) ==> v@ == a@ + b@ && v == Amount::from_nat(a@ + b@),
{
    U256([a.w0, a.w1, a.w2, a.w3]).checked_add(U256([b.w0, b.w1, b.w2, b.w3])).map(
        |x| Amount { w0: x.0[0], w1: x.0[1], w2: x.0[2], w3: x.0[3] },
    )
}

/// Relies on `U256::checked_sub`: `None` exactly on underflow, else the difference.
#[verifier::external_body]
fn u256_checked_sub(a: Amount, b: Amount) -> (r: Option<Amount>)
    ensures
        r is Some <==> a@ >= b@,
        r matches Some(v) ==> v@ == a@ - b@ && v == Amount::from_nat((a@ - b@) as nat),
{
    U256([a.w0, a.w1, a.w2, a.w3]).checked_sub(U256([b.w0, b.w1, b.w2, b.w3])).map(
        |x| Amount { w0: x.0[0], w1: x.0[1], w2: x.0[2], w3: x.0[3] },
    )
}

/// Relies on `U256::checked_mul`: `None` exactly on overflow, else the product.
#[verifier::external_body]
fn u256_checked_mul(a: Amount, b: Amount) -> (r: Option<Amount>)
    ensures
        r is Some <==> a@ * b@ < amount_bound(),
        r matches Some(v) ==> v@ == a@ * b@ && v == Amount::from_nat(a@ * b@),
{
    U256([a.w0, a.w1, a.w2, a.w3]).checked_mul(U256([b.w0, b.w1, b.w2, b.w3])).map(
        |x| Amount { w0: x.0[0], w1: x.0[1], w2: x.0[2], w3: x.0[3] },
    )
}

/// Relies on `U256::checked_div`: `None` exactly for a zero divisor, else the
/// quotient rounded down.
#[verifier::external_body]
fn u256_checked_div(a: Amount, b: Amount) -> (r: Option<Amount>)
    ensures
        r is Some <==> b@ != 0,
        r matches Some(v) ==> v@ == a@ / b@ && v == Amount::from_nat(a@ / b@),
{
    U256([a.w0, a.w1, a.w2, a.w3]).checked_div(U256([b.w0, b.w1, b.w2, b.w3])).map(
        |x| Amount { w0: x.0[0], w1: x.0[1], w2: x.0[2], w3: x.0[3] },
    )
}

/// Relies on `U256::saturating_add`: the sum, or `U256::MAX` on overflow.
#[verifier::external_body]
fn u256_saturating_add(a: Amount, b: Amount) -> (r: Amount)
    ensures
        r@ == saturate(a@ + b@),
        r == Amount::from_nat(saturate(a@ + b@)),
{
    let x = U256([a.w0, a.w1, a.w2, a.w3]).saturating_add(U256([b.w0, b.w1, b.w2, b.w3]));
    Amount { w0: x.0[0], w1: x.0[1], w2: x.0[2], w3: x.0[3] }
}

} // verus!
