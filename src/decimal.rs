//! Fixed-point rationals with eighteen fractional digits, and the
//! floor-rounded products of token amounts with them.
use vstd::arithmetic::div_mod::{
    lemma_div_pos_is_pos, lemma_fundamental_div_mod, lemma_fundamental_div_mod_converse,
};
use vstd::prelude::*;

verus! {

/// Atomic units in one whole unit.
pub const DECIMAL_FRACTIONAL: u128 = 1_000_000_000_000_000_000;

/// The largest token amount.
pub const AMOUNT_MAX: u128 = 0xffff_ffff_ffff_ffff_ffff_ffff_ffff_ffff;

/// A non-negative rational `atomics / 10^18`.
#[derive(Clone, Copy, Debug, PartialEq, Eq, Structural)]
pub struct Decimal {
    pub atomics: u128,
}

/// `floor(amount × d)`, on mathematical integers.
pub open spec fn mul_floor(amount: int, d: Decimal) -> int {
    amount * d.atomics / DECIMAL_FRACTIONAL as int
}

/// `floor(num / den)` as a decimal's atomics.
pub open spec fn ratio_atomics(num: int, den: int) -> int {
    num * DECIMAL_FRACTIONAL as int / den
}

impl Decimal {
    pub fn zero() -> (r: Decimal)
        ensures
            r.atomics == 0,
    {
        Decimal { atomics: 0 }
    }

    pub fn one() -> (r: Decimal)
        ensures
            r.atomics == DECIMAL_FRACTIONAL,
    {
        Decimal { atomics: DECIMAL_FRACTIONAL }
    }

    /// `x / 100`.
    pub fn percent(x: u64) -> (r: Decimal)
        ensures
            r.atomics == x as int * (DECIMAL_FRACTIONAL as int / 100),
    {
        Decimal { atomics: (x as u128) * 10_000_000_000_000_000 }
    }

    /// `x / 1000`.
    pub fn permille(x: u64) -> (r: Decimal)
        ensures
            r.atomics == x as int * (DECIMAL_FRACTIONAL as int / 1000),
    {
        Decimal { atomics: (x as u128) * 1_000_000_000_000_000 }
    }

    pub fn is_zero(&self) -> (r: bool)
        ensures
            r == (self.atomics == 0),
    {
        self.atomics == 0
    }

    pub fn checked_add(self, other: Decimal) -> (r: Option<Decimal>)
        ensures
            r == (if self.atomics + other.atomics <= AMOUNT_MAX {
                Some(Decimal { atomics: (self.atomics + other.atomics) as u128 })
            } else {
                None::<Decimal>
            }),
    {
        match self.atomics.checked_add(other.atomics) {
            Some(a) => Some(Decimal { atomics: a }),
            None => None,
        }
    }

    pub fn checked_sub(self, other: Decimal) -> (r: Option<Decimal>)
        ensures
            r == (if other.atomics <= self.atomics {
                Some(Decimal { atomics: (self.atomics - other.atomics) as u128 })
            } else {
                None::<Decimal>
            }),
    {
        if other.atomics <= self.atomics {
            Some(Decimal { atomics: self.atomics - other.atomics })
        } else {
            None
        }
    }

    /// `floor(amount × self)`, or `None` where it exceeds the largest amount.
    pub fn checked_mul_floor(self, amount: u128) -> (r: Option<u128>)
        ensures
            r == (if mul_floor(amount as int, self) <= AMOUNT_MAX {
                Some(mul_floor(amount as int, self) as u128)
            } else {
                None::<u128>
            }),
    {
        let f = DECIMAL_FRACTIONAL;
        let qa = amount / f;
        let ra = amount % f;
        let qd = self.atomics / f;
        let rd = self.atomics % f;
        proof {
            lemma_mul_floor_split(amount as int, self.atomics as int);
        }
        assert(ra * rd <= (f - 1) * (f - 1)) by (nonlinear_arith)
            requires ra < f, rd < f;
        let low = ra * rd / f;
        let t1 = match qa.checked_mul(qd) {
            Some(x) => x,
            None => {
                proof { lemma_terms_bounded(amount as int, self.atomics as int); }
                return None;
            },
        };
        let t1 = match t1.checked_mul(f) {
            Some(x) => x,
            None => {
                proof { lemma_terms_bounded(amount as int, self.atomics as int); }
                return None;
            },
        };
        let t2 = match qa.checked_mul(rd) {
            Some(x) => x,
            None => {
                proof { lemma_terms_bounded(amount as int, self.atomics as int); }
                return None;
            },
        };
        let t3 = match ra.checked_mul(qd) {
            Some(x) => x,
            None => {
                proof { lemma_terms_bounded(amount as int, self.atomics as int); }
                return None;
            },
        };
        let s = match t1.checked_add(t2) {
            Some(x) => x,
            None => return None,
        };
        let s = match s.checked_add(t3) {
            Some(x) => x,
            None => return None,
        };
        s.checked_add(low)
    }

    /// `floor(num / den)` as a decimal, or `None` where it is too large to hold.
    pub fn checked_from_ratio(num: u128, den: u128) -> (r: Option<Decimal>)
        requires
            den > 0,
        ensures
            r == (if ratio_atomics(num as int, den as int) <= AMOUNT_MAX {
                Some(Decimal { atomics: ratio_atomics(num as int, den as int) as u128 })
            } else {
                None::<Decimal>
            }),
    {
        // num × F / den == q × F + floor(r × F / den) with num == q × den + r;
        // r × F is split the same way to stay within range.
        let f = DECIMAL_FRACTIONAL;
        let q = num / den;
        let r = num % den;
        proof {
            lemma_ratio_split(num as int, den as int);
        }
        let hi = match q.checked_mul(f) {
            Some(x) => x,
            None => {
                proof { lemma_ratio_lower(num as int, den as int); }
                return None;
            },
        };
        let lo = Self::scaled_fraction(r, den);
        match hi.checked_add(lo) {
            Some(a) => Some(Decimal { atomics: a }),
            None => None,
        }
    }

    /// `floor(r × 10^18 / den)` for `r < den`.
    fn scaled_fraction(r: u128, den: u128) -> (out: u128)
        requires
            r < den,
        ensures
            out as int == r as int * DECIMAL_FRACTIONAL as int / den as int,
    {
        // Long division by one decimal digit at a time keeps every
        // intermediate below 10 × den.
        let mut acc: u128 = 0;
        let mut rem: u128 = r;
        let mut i: u32 = 0;
        assert(pow10(0) == 1);
        while i < 18
            invariant
                i <= 18,
                r < den,
                rem < den,
                acc as int * den as int + rem as int == r as int * pow10(i as nat),
                acc as int <= pow10(i as nat) as int,
            decreases 18 - i,
        {
            proof {
                lemma_pow10_step(i as nat);
                lemma_pow10_mono(i as nat, 17);
                lemma_pow10_18();
                assert(pow10(18) == 10 * pow10(17));
            }
            // rem × 10 may exceed the range, so work on den - rem.
            let (digit, next) = Self::digit_step(rem, den);
            proof {
                assert(acc as int * 10 + digit as int <= pow10((i + 1) as nat)) by (nonlinear_arith)
                    requires
                        acc as int <= pow10(i as nat),
                        digit <= 9,
                        pow10((i + 1) as nat) == pow10(i as nat) * 10,
                        acc as int * den as int + rem as int == r as int * pow10(i as nat),
                        (digit as int) * den as int + next as int == rem as int * 10,
                        r < den,
                        next < den,
                        rem < den;
                assert((acc as int * 10 + digit as int) * den as int + next as int
                    == r as int * pow10((i + 1) as nat)) by (nonlinear_arith)
                    requires
                        pow10((i + 1) as nat) == pow10(i as nat) * 10,
                        acc as int * den as int + rem as int == r as int * pow10(i as nat),
                        (digit as int) * den as int + next as int == rem as int * 10;
            }
            acc = acc * 10 + digit;
            rem = next;
            i = i + 1;
        }
        proof {
            lemma_pow10_18();
            lemma_div_exact(acc as int, den as int, rem as int, r as int * DECIMAL_FRACTIONAL as int);
        }
        acc
    }

    /// One digit of long division: `rem × 10 == digit × den + next`.
    fn digit_step(rem: u128, den: u128) -> (out: (u128, u128))
        requires
            rem < den,
        ensures
            out.0 <= 9,
            out.1 < den,
            out.0 as int * den as int + out.1 as int == rem as int * 10,
    {
        let mut digit: u128 = 0;
        // After k rounds acc_left == rem × (k + 1) - digit × den.
        let mut acc_left: u128 = rem;
        let mut k: u32 = 0;
        while k < 9
            invariant
                k <= 9,
                rem < den,
                digit <= k,
                acc_left < den,
                digit as int * den as int + acc_left as int == rem as int * (k as int + 1),
            decreases 9 - k,
        {
            // acc_left + rem < 2 × den; subtract den when it reaches den.
            if acc_left >= den - rem {
                assert((digit as int + 1) * den as int + (acc_left + rem - den) == rem as int * (
                k as int + 2)) by (nonlinear_arith)
                    requires
                        digit as int * den as int + acc_left as int == rem as int * (k as int + 1);
                acc_left = acc_left - (den - rem);
                digit = digit + 1;
            } else {
                assert(digit as int * den as int + (acc_left + rem) == rem as int * (k as int + 2))
                    by (nonlinear_arith)
                    requires
                        digit as int * den as int + acc_left as int == rem as int * (k as int + 1);
                acc_left = acc_left + rem;
            }
            k = k + 1;
        }
        (digit, acc_left)
    }
}

pub open spec fn pow10(n: nat) -> nat
    decreases n,
{
    if n == 0 {
        1
    } else {
        10 * pow10((n - 1) as nat)
    }
}

proof fn lemma_pow10_step(n: nat)
    ensures
        pow10(n + 1) == pow10(n) * 10,
{
    assert(pow10(n + 1) == 10 * pow10(n));
}

proof fn lemma_pow10_mono(m: nat, n: nat)
    requires
        m <= n,
    ensures
        pow10(m) <= pow10(n),
    decreases n,
{
    if m < n {
        lemma_pow10_mono(m, (n - 1) as nat);
    }
}

proof fn lemma_pow10_18()
    ensures
        pow10(18) == DECIMAL_FRACTIONAL,
{
    reveal_with_fuel(pow10, 19);
}

proof fn lemma_div_exact(q: int, d: int, r: int, x: int)
    requires
        d > 0,
        0 <= r < d,
        q * d + r == x,
    ensures
        x / d == q,
{
    lemma_fundamental_div_mod_converse(x, d, q, r);
}

proof fn lemma_mul_floor_split(a: int, d: int)
    requires
        a >= 0,
        d >= 0,
    ensures
        ({
            let f = DECIMAL_FRACTIONAL as int;
            a * d / f == (a / f) * (d / f) * f + (a / f) * (d % f) + (a % f) * (d / f)
                + (a % f) * (d % f) / f
        }),
{
    let f = DECIMAL_FRACTIONAL as int;
    let qa = a / f;
    let ra = a % f;
    let qd = d / f;
    let rd = d % f;
    lemma_fundamental_div_mod(a, f);
    lemma_fundamental_div_mod(d, f);
    assert(a * d == (qa * qd * f + qa * rd + ra * qd) * f + ra * rd) by (nonlinear_arith)
        requires
            a == f * qa + ra,
            d == f * qd + rd;
    assert(ra * rd >= 0) by (nonlinear_arith)
        requires
            ra >= 0,
            rd >= 0;
    let t = qa * qd * f + qa * rd + ra * qd;
    let q2 = (ra * rd) / f;
    let r2 = (ra * rd) % f;
    lemma_fundamental_div_mod(ra * rd, f);
    assert(a * d == (t + q2) * f + r2) by (nonlinear_arith)
        requires
            a * d == t * f + ra * rd,
            ra * rd == f * q2 + r2;
    lemma_fundamental_div_mod_converse(a * d, f, t + q2, r2);
}

proof fn lemma_terms_bounded(a: int, d: int)
    requires
        a >= 0,
        d >= 0,
    ensures
        ({
            let f = DECIMAL_FRACTIONAL as int;
            &&& (a / f) * (d / f) <= a * d / f
            &&& (a / f) * (d / f) * f <= a * d / f
            &&& (a / f) * (d % f) <= a * d / f
            &&& (a % f) * (d / f) <= a * d / f
        }),
{
    let f = DECIMAL_FRACTIONAL as int;
    lemma_mul_floor_split(a, d);
    let qa = a / f;
    let ra = a % f;
    let qd = d / f;
    let rd = d % f;
    lemma_fundamental_div_mod(a, f);
    lemma_fundamental_div_mod(d, f);
    assert(qa >= 0 && qd >= 0 && ra >= 0 && rd >= 0);
    assert(ra * rd / f >= 0) by {
        assert(ra * rd >= 0) by (nonlinear_arith)
            requires
                ra >= 0,
                rd >= 0;
        lemma_div_pos_is_pos(ra * rd, f);
    }
    assert(qa * qd <= qa * qd * f) by (nonlinear_arith)
        requires
            qa >= 0,
            qd >= 0,
            f >= 1;
    assert(qa * rd >= 0 && ra * qd >= 0 && qa * qd >= 0) by (nonlinear_arith)
        requires
            qa >= 0,
            qd >= 0,
            ra >= 0,
            rd >= 0;
}

proof fn lemma_ratio_split(num: int, den: int)
    requires
        num >= 0,
        den > 0,
    ensures
        num * DECIMAL_FRACTIONAL as int / den == (num / den) * DECIMAL_FRACTIONAL as int + (
        num % den) * DECIMAL_FRACTIONAL as int / den,
{
    let f = DECIMAL_FRACTIONAL as int;
    let q = num / den;
    let r = num % den;
    lemma_fundamental_div_mod(num, den);
    assert(num * f == r * f + (q * f) * den) by (nonlinear_arith)
        requires
            num == den * q + r;
    let q2 = (r * f) / den;
    let r2 = (r * f) % den;
    lemma_fundamental_div_mod(r * f, den);
    assert(num * f == (q * f + q2) * den + r2) by (nonlinear_arith)
        requires
            num * f == r * f + (q * f) * den,
            r * f == den * q2 + r2;
    lemma_fundamental_div_mod_converse(num * f, den, q * f + q2, r2);
}

proof fn lemma_ratio_lower(num: int, den: int)
    requires
        num >= 0,
        den > 0,
    ensures
        (num / den) * DECIMAL_FRACTIONAL as int <= num * DECIMAL_FRACTIONAL as int / den,
{
    let f = DECIMAL_FRACTIONAL as int;
    lemma_ratio_split(num, den);
    let r = num % den;
    lemma_fundamental_div_mod(num, den);
    assert(r * f >= 0) by (nonlinear_arith)
        requires
            r >= 0,
            f > 0;
    lemma_div_pos_is_pos(r * f, den);
}

} // verus!
