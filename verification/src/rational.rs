//! Exact rational numbers. Every real-valued quantity of the record format —
//! channel multipliers and offsets, sampling rates, scaled samples, elapsed
//! times — is held as a signed fraction of two 128-bit integers, so the
//! scaling and timing rules can be stated and proved exactly. An operation
//! whose unreduced result would not fit reports that instead of rounding.
use vstd::prelude::*;

use crate::text::{
    all_digits, check_digits, digits_in_range_to_u128, digits_val, find_byte, find_either_byte,
    int_token_val, lemma_find_byte, strip_sign, subrange_vec, valid_int_token, MINUS, PLUS,
};

verus! {

/// A signed fraction `(-1)^neg * num / den`. Well-formed values keep
/// `den >= 1` and never mark zero as negative.
#[derive(Debug, Clone, Copy, PartialEq, Eq, Structural)]
pub struct Rational {
    pub neg: bool,
    pub num: u128,
    pub den: u128,
}

impl Rational {
    pub open spec fn wf(self) -> bool {
        self.den >= 1 && (self.num == 0 ==> !self.neg)
    }

    /// The signed numerator as a mathematical integer.
    pub open spec fn val_num(self) -> int {
        if self.neg {
            -(self.num as int)
        } else {
            self.num as int
        }
    }

    pub open spec fn val_den(self) -> int {
        self.den as int
    }

    pub fn zero() -> (r: Rational)
        ensures
            r.wf(),
            r.val_num() == 0,
            r.val_den() == 1,
            r == (Rational { neg: false, num: 0, den: 1 }),
    {
        Rational { neg: false, num: 0, den: 1 }
    }

    /// Whether the unreduced product of `self` and `other` fits.
    pub open spec fn mul_fits(self, other: Rational) -> bool {
        self.num * other.num <= u128::MAX && self.den * other.den <= u128::MAX
    }

    /// Exact multiplication; the result is the unreduced product.
    pub fn checked_mul(&self, other: &Rational) -> (r: Option<Rational>)
        requires
            self.wf(),
            other.wf(),
        ensures
            r is Some <==> self.mul_fits(*other),
            r is Some ==> ({
                let v = r->0;
                &&& v.wf()
                &&& v.val_num() == self.val_num() * other.val_num()
                &&& v.val_den() == self.val_den() * other.val_den()
                &&& v == spec_mul(*self, *other)
            }),
    {
        let num = match self.num.checked_mul(other.num) {
            Some(n) => n,
            None => {
                return None;
            },
        };
        let den = match self.den.checked_mul(other.den) {
            Some(d) => d,
            None => {
                return None;
            },
        };
        let r = Rational { neg: (self.neg != other.neg) && num != 0, num, den };
        proof {
            assert(den >= 1) by (nonlinear_arith)
                requires
                    self.den >= 1,
                    other.den >= 1,
                    den == self.den * other.den,
            ;
            assert(r.val_num() == self.val_num() * other.val_num()) by (nonlinear_arith)
                requires
                    num == self.num * other.num,
                    r.neg == ((self.neg != other.neg) && num != 0),
                    r.num == num,
                    self.num == 0 ==> !self.neg,
                    other.num == 0 ==> !other.neg,
                    r.val_num() == (if r.neg { -(r.num as int) } else { r.num as int }),
                    self.val_num() == (if self.neg { -(self.num as int) } else { self.num as int }),
                    other.val_num() == (if other.neg { -(other.num as int) } else { other.num as int }),
            ;
        }
        Some(r)
    }

    /// Whether the unreduced sum of `self` and `other` fits.
    pub open spec fn add_fits(self, other: Rational) -> bool {
        &&& self.num * other.den <= u128::MAX
        &&& other.num * self.den <= u128::MAX
        &&& self.den * other.den <= u128::MAX
        &&& (self.neg == other.neg ==> self.num * other.den + other.num * self.den <= u128::MAX)
    }

    /// Exact addition over the common (unreduced) denominator.
    pub fn checked_add(&self, other: &Rational) -> (r: Option<Rational>)
        requires
            self.wf(),
            other.wf(),
        ensures
            r is Some <==> self.add_fits(*other),
            r is Some ==> ({
                let v = r->0;
                &&& v.wf()
                &&& v.val_num() == self.val_num() * other.val_den() + other.val_num()
                    * self.val_den()
                &&& v.val_den() == self.val_den() * other.val_den()
                &&& v == spec_add(*self, *other)
            }),
    {
        let ad = match self.num.checked_mul(other.den) {
            Some(x) => x,
            None => {
                return None;
            },
        };
        let bc = match other.num.checked_mul(self.den) {
            Some(x) => x,
            None => {
                return None;
            },
        };
        let den = match self.den.checked_mul(other.den) {
            Some(x) => x,
            None => {
                return None;
            },
        };
        proof {
            assert(den >= 1) by (nonlinear_arith)
                requires
                    self.den >= 1,
                    other.den >= 1,
                    den == self.den * other.den,
            ;
        }
        let ghost goal: int = self.val_num() * other.val_den() + other.val_num() * self.val_den();
        proof {
            assert(self.val_num() * other.val_den() == (if self.neg {
                -(ad as int)
            } else {
                ad as int
            })) by (nonlinear_arith)
                requires
                    ad == self.num * other.den,
                    self.val_num() == (if self.neg { -(self.num as int) } else { self.num as int }),
                    other.val_den() == other.den as int,
            ;
            assert(other.val_num() * self.val_den() == (if other.neg {
                -(bc as int)
            } else {
                bc as int
            })) by (nonlinear_arith)
                requires
                    bc == other.num * self.den,
                    other.val_num() == (if other.neg { -(other.num as int) } else { other.num as int }),
                    self.val_den() == self.den as int,
            ;
        }
        if self.neg == other.neg {
            let num = match ad.checked_add(bc) {
                Some(x) => x,
                None => {
                    return None;
                },
            };
            Some(Rational { neg: self.neg && num != 0, num, den })
        } else {
            if ad >= bc {
                let num: u128 = ad - bc;
                Some(Rational { neg: self.neg && num != 0, num, den })
            } else {
                let num: u128 = bc - ad;
                Some(Rational { neg: other.neg && num != 0, num, den })
            }
        }
    }
}

/// The unreduced product of two well-formed rationals; exact whenever it
/// fits.
pub open spec fn spec_mul(a: Rational, b: Rational) -> Rational {
    Rational {
        neg: (a.neg != b.neg) && a.num * b.num != 0,
        num: (a.num * b.num) as u128,
        den: (a.den * b.den) as u128,
    }
}

/// The unreduced sum of two well-formed rationals over the common
/// denominator; exact whenever it fits.
pub open spec fn spec_add(a: Rational, b: Rational) -> Rational {
    let ad = a.num * b.den;
    let bc = b.num * a.den;
    let den = (a.den * b.den) as u128;
    if a.neg == b.neg {
        Rational { neg: a.neg && ad + bc != 0, num: (ad + bc) as u128, den }
    } else if ad >= bc {
        Rational { neg: a.neg && ad - bc != 0, num: (ad - bc) as u128, den }
    } else {
        Rational { neg: b.neg && bc - ad != 0, num: (bc - ad) as u128, den }
    }
}

// ---------------------------------------------------------------------------
// Powers of ten
// ---------------------------------------------------------------------------

pub open spec fn pow10(k: nat) -> nat
    decreases k,
{
    if k == 0 {
        1
    } else {
        10 * pow10((k - 1) as nat)
    }
}

pub proof fn lemma_pow10_monotone(j: nat, k: nat)
    requires
        j <= k,
    ensures
        pow10(j) <= pow10(k),
        pow10(j) >= 1,
    decreases k,
{
    if k > 0 {
        if j <= k - 1 {
            lemma_pow10_monotone(j, (k - 1) as nat);
        } else {
            lemma_pow10_monotone((j - 1) as nat, (k - 1) as nat);
        }
    }
}

/// `10^k`, or nothing when that exceeds `u128::MAX`.
pub fn pow10_u128(k: u64) -> (r: Option<u128>)
    ensures
        r is Some <==> pow10(k as nat) <= u128::MAX,
        r is Some ==> r->0 == pow10(k as nat),
{
    let mut acc: u128 = 1;
    let mut i: u64 = 0;
    while i < k
        invariant
            0 <= i <= k,
            acc == pow10(i as nat),
        decreases k - i,
    {
        match acc.checked_mul(10) {
            Some(v) => {
                acc = v;
            },
            None => {
                proof {
                    lemma_pow10_monotone((i + 1) as nat, k as nat);
                }
                return None;
            },
        }
        i += 1;
    }
    proof {
        lemma_pow10_monotone(0, k as nat);
    }
    Some(acc)
}

// ---------------------------------------------------------------------------
// Decimal tokens
// ---------------------------------------------------------------------------

/// Decimal point.
pub const DOT: u8 = 46;

/// Index of the first exponent marker (`e` or `E`) at or after `i`, or -1.
pub open spec fn find_exp(s: Seq<u8>, i: int) -> int
    decreases s.len() - i,
{
    if i < 0 || i >= s.len() {
        -1
    } else if s[i] == 101 || s[i] == 69 {
        i
    } else {
        find_exp(s, i + 1)
    }
}

pub proof fn lemma_find_exp(s: Seq<u8>, i: int)
    requires
        0 <= i <= s.len(),
    ensures
        find_exp(s, i) == -1 ==> forall|j: int| i <= j < s.len() ==> s[j] != 101 && s[j] != 69,
        find_exp(s, i) != -1 ==> i <= find_exp(s, i) < s.len() && (s[find_exp(s, i)] == 101 || s[
            find_exp(s, i)
        ] == 69) && forall|j: int| i <= j < find_exp(s, i) ==> s[j] != 101 && s[j] != 69,
    decreases s.len() - i,
{
    if i < s.len() && s[i] != 101 && s[i] != 69 {
        lemma_find_exp(s, i + 1);
    }
}

/// The mantissa part of a decimal token: everything before the first
/// exponent marker.
pub open spec fn dec_mantissa(s: Seq<u8>) -> Seq<u8> {
    let k = find_exp(s, 0);
    if k < 0 {
        s
    } else {
        s.take(k)
    }
}

/// The exponent digits of a decimal token (empty when no marker is present).
pub open spec fn dec_exp_tok(s: Seq<u8>) -> Seq<u8> {
    let k = find_exp(s, 0);
    if k < 0 {
        Seq::empty()
    } else {
        s.skip(k + 1)
    }
}

/// The significant digits: integer digits followed by fraction digits.
pub open spec fn dec_digits(s: Seq<u8>) -> Seq<u8> {
    let m = strip_sign(dec_mantissa(s));
    let p = find_byte(m, DOT, 0);
    if p < 0 {
        m
    } else {
        m.take(p) + m.skip(p + 1)
    }
}

/// How many digits stand after the decimal point.
pub open spec fn dec_frac_len(s: Seq<u8>) -> int {
    let m = strip_sign(dec_mantissa(s));
    let p = find_byte(m, DOT, 0);
    if p < 0 {
        0
    } else {
        m.len() - p - 1
    }
}

pub open spec fn dec_is_neg(s: Seq<u8>) -> bool {
    let m = dec_mantissa(s);
    m.len() > 0 && m[0] == MINUS
}

pub open spec fn dec_exp_val(s: Seq<u8>) -> int {
    let k = find_exp(s, 0);
    if k < 0 {
        0
    } else {
        int_token_val(dec_exp_tok(s))
    }
}

/// A decimal number as the standard library's float grammar accepts it,
/// special values and hexadecimal forms aside: an optional sign, digits with
/// at most one point and at least one digit, and an optional signed integer
/// exponent.
pub open spec fn valid_decimal_token(s: Seq<u8>) -> bool {
    &&& dec_digits(s).len() >= 1
    &&& all_digits(dec_digits(s))
    &&& (find_exp(s, 0) >= 0 ==> valid_int_token(dec_exp_tok(s)))
}

/// The shift of the value's power of ten against its digits.
pub open spec fn dec_scale(s: Seq<u8>) -> int {
    dec_exp_val(s) - dec_frac_len(s)
}

/// The exact value of the token, as numerator over denominator.
pub open spec fn dec_num(s: Seq<u8>) -> int {
    let m = digits_val(dec_digits(s)) as int;
    let scaled = if dec_scale(s) >= 0 {
        m * pow10(dec_scale(s) as nat) as int
    } else {
        m
    };
    if dec_is_neg(s) {
        -scaled
    } else {
        scaled
    }
}

pub open spec fn dec_den(s: Seq<u8>) -> int {
    if dec_scale(s) >= 0 {
        1
    } else {
        pow10((-dec_scale(s)) as nat) as int
    }
}

/// Whether the token's exact value fits a `Rational` without reduction.
pub open spec fn decimal_fits(s: Seq<u8>) -> bool {
    digits_val(dec_digits(s)) == 0 || (digits_val(dec_digits(s)) <= u128::MAX && (dec_scale(s) >= 0
        ==> dec_num(s) <= u128::MAX && -dec_num(s) <= u128::MAX) && (dec_scale(s) < 0 ==> pow10(
        (-dec_scale(s)) as nat,
    ) <= u128::MAX))
}

/// The exact representation `parse_rational` yields for a token: the digit
/// value scaled into the numerator or a power-of-ten denominator, zero
/// normalised.
pub open spec fn rat_of_token(t: Seq<u8>) -> Rational {
    let m = digits_val(dec_digits(t));
    let sc = dec_scale(t);
    if m == 0 {
        Rational { neg: false, num: 0, den: 1 }
    } else if sc >= 0 {
        Rational { neg: dec_is_neg(t), num: (m * pow10(sc as nat)) as u128, den: 1 }
    } else {
        Rational { neg: dec_is_neg(t), num: m as u128, den: pow10((-sc) as nat) as u128 }
    }
}

/// Parses a decimal token into its exact rational value. Succeeds exactly on
/// well-formed tokens whose unreduced value fits; the result then equals the
/// written number.
#[verifier::rlimit(100)]
pub fn parse_rational(s: &[u8]) -> (r: Option<Rational>)
    ensures
        r is Some <==> valid_decimal_token(s@) && decimal_fits(s@),
        r is Some ==> ({
            let v = r->0;
            &&& v.wf()
            &&& v.val_num() * dec_den(s@) == dec_num(s@) * v.val_den()
            &&& v == rat_of_token(s@)
        }),
{
    let n = s.len();
    // Locate the exponent marker.
    let found_exp = find_either_byte(s, 0, 101, 69);
    let has_exp = found_exp.is_some();
    let k: usize = match found_exp {
        Some(i) => i,
        None => n,
    };
    proof {
        lemma_find_exp(s@, 0);
        if has_exp {
            assert(find_exp(s@, 0) == k) by {
                let f = find_exp(s@, 0);
                if f == -1 {
                } else if f < k {
                } else if f > k {
                }
            }
            assert(dec_mantissa(s@) == s@.take(k as int));
            assert(dec_exp_tok(s@) =~= s@.subrange(k + 1 as int, n as int));
        } else {
            assert(find_exp(s@, 0) == -1);
            assert(dec_mantissa(s@) =~= s@.take(n as int));
            assert(s@.take(n as int) =~= s@);
        }
    }
    let mant_end: usize = if has_exp {
        k
    } else {
        n
    };
    let ghost mant = dec_mantissa(s@);
    proof {
        assert(mant =~= s@.subrange(0, mant_end as int));
    }

    // Sign of the mantissa.
    let neg: bool = mant_end > 0 && s[0] == MINUS;
    let ms: usize = if mant_end > 0 && (s[0] == MINUS || s[0] == PLUS) {
        1
    } else {
        0
    };
    let ghost mstripped = strip_sign(mant);
    proof {
        assert(mstripped =~= s@.subrange(ms as int, mant_end as int));
    }

    // Locate the decimal point inside the stripped mantissa.
    let found_dot = find_either_byte(s, ms, DOT, DOT);
    let has_dot = match found_dot {
        Some(i) => i < mant_end,
        None => false,
    };
    let p: usize = match found_dot {
        Some(i) => if i < mant_end {
            i
        } else {
            mant_end
        },
        None => mant_end,
    };
    proof {
        assert(has_dot ==> p < mant_end && s@[p as int] == DOT);
        assert(forall|j: int| ms <= j < p ==> s@[j] != DOT);
        lemma_find_byte(mstripped, DOT, 0);
        if has_dot {
            assert(find_byte(mstripped, DOT, 0) == p - ms) by {
                lemma_find_byte(mstripped, DOT, 0);
                let f = find_byte(mstripped, DOT, 0);
                assert(mstripped[p - ms as int] == DOT);
                if f == -1 {
                } else if f < p - ms {
                    assert(mstripped[f] == s@[ms + f]);
                } else if f > p - ms {
                }
            }
        } else {
            assert(forall|j: int| 0 <= j < mstripped.len() ==> mstripped[j] == s@[ms + j]);
            assert(find_byte(mstripped, DOT, 0) == -1);
        }
    }

    // Collect the digits, integer part then fraction part.
    let mut digits: Vec<u8>;
    let flen: usize = if has_dot {
        mant_end - p - 1
    } else {
        0
    };
    if has_dot {
        digits = subrange_vec(s, ms, p);
        let mut frac = subrange_vec(s, p + 1, mant_end);
        digits.append(&mut frac);
        proof {
            assert(mstripped.take(p - ms as int) =~= s@.subrange(ms as int, p as int));
            assert(mstripped.skip(p - ms + 1 as int) =~= s@.subrange(p + 1 as int, mant_end as int));
            assert(digits@ =~= dec_digits(s@));
            assert(flen == dec_frac_len(s@));
        }
    } else {
        digits = subrange_vec(s, ms, mant_end);
        proof {
            assert(digits@ =~= dec_digits(s@));
            assert(flen == dec_frac_len(s@));
        }
    }
    let dlen = digits.len();

    // The digit value. A failure here means the digits are missing or
    // malformed, or that the value cannot fit at any scale.
    let m: u128 = match digits_in_range_to_u128(digits.as_slice(), 0, dlen, u128::MAX) {
        Some(v) => v,
        None => {
            proof {
                assert(digits@.subrange(0, dlen as int) =~= digits@);
            }
            return None;
        },
    };
    proof {
        assert(digits@.subrange(0, dlen as int) =~= digits@);
        assert(m == digits_val(dec_digits(s@)));
    }

    // The exponent's sign and magnitude. A magnitude beyond the fraction
    // length plus forty puts the scale out of reach of a 128-bit value.
    let ghost etok = dec_exp_tok(s@);
    let mut eneg: bool = false;
    let mut emag: u128 = 0;
    if has_exp {
        let elo: usize = k + 1;
        match read_exponent(s, elo, flen) {
            ExpToken::Malformed => {
                // The exponent part is not a signed integer: the token is
                // invalid.
                return None;
            },
            ExpToken::Oversized(en) => {
                // The exponent magnitude exceeds the fraction length by more
                // than forty: only an all-zero digit string still fits.
                eneg = en;
                if m == 0 {
                    proof {
                        assert(digits_val(dec_digits(s@)) as int * pow10(
                            dec_scale(s@) as nat,
                        ) as int == 0) by (nonlinear_arith)
                            requires
                                digits_val(dec_digits(s@)) == 0,
                        ;
                        assert(dec_num(s@) == 0);
                        lemma_zero_is_value(dec_num(s@), dec_den(s@));
                    }
                    return Some(Rational::zero());
                }
                proof {
                    let ev = digits_val(strip_sign(etok)) as int;
                    assert(ev > flen + 40);
                    if eneg {
                        assert(dec_exp_val(s@) == -ev);
                        assert(dec_scale(s@) < -40);
                        lemma_pow10_over_40((-dec_scale(s@)) as nat);
                    } else {
                        assert(dec_exp_val(s@) == ev);
                        assert(dec_scale(s@) > 40);
                        lemma_pow10_over_40(dec_scale(s@) as nat);
                        lemma_mul_ge_one_factor(m as int, pow10(dec_scale(s@) as nat) as int);
                    }
                }
                return None;
            },
            ExpToken::Value(en, v) => {
                eneg = en;
                emag = v;
            },
        }
        proof {
            assert(emag == digits_val(strip_sign(etok)));
            assert(dec_exp_val(s@) == (if eneg { -(emag as int) } else { emag as int }));
        }
    } else {
        proof {
            assert(dec_exp_val(s@) == 0);
        }
    }

    if m == 0 {
        proof {
            assert(digits_val(dec_digits(s@)) as int * pow10(dec_scale(s@) as nat) as int == 0)
                by (nonlinear_arith)
                requires
                    digits_val(dec_digits(s@)) == 0,
            ;
            assert(dec_num(s@) == 0);
            lemma_zero_is_value(dec_num(s@), dec_den(s@));
        }
        return Some(Rational::zero());
    }

    proof {
        assert(flen as u128 + 40 <= u128::MAX) by {
            assert(usize::MAX <= u64::MAX);
        }
    }
    let scale: i128 = if eneg {
        -(emag as i128) - (flen as i128)
    } else {
        (emag as i128) - (flen as i128)
    };
    proof {
        assert(scale == dec_scale(s@));
        assert(neg == dec_is_neg(s@));
        assert(i128::MIN < scale) by {
            assert(usize::MAX <= u64::MAX);
        }
    }
    let r = scale_rational(neg, m, scale);
    proof {
        if scale >= 0 {
            assert(dec_den(s@) == 1);
            if dec_is_neg(s@) {
                assert(dec_num(s@) == -(m as int * pow10(scale as nat) as int));
            } else {
                assert(dec_num(s@) == m as int * pow10(scale as nat) as int);
            }
        } else {
            assert(dec_den(s@) == pow10((-scale) as nat) as int);
            assert(dec_num(s@) == (if dec_is_neg(s@) {
                -(m as int)
            } else {
                m as int
            }));
        }
    }
    r
}

/// Builds the rational `(-1)^neg * m * 10^scale` for a non-zero digit value,
/// reporting nothing when the numerator or denominator cannot fit.
fn scale_rational(neg: bool, m: u128, scale: i128) -> (r: Option<Rational>)
    requires
        m >= 1,
        i128::MIN < scale,
    ensures
        r is Some <==> ((scale >= 0 ==> m * pow10(scale as nat) <= u128::MAX) && (scale < 0
            ==> pow10((-scale) as nat) <= u128::MAX)),
        r is Some ==> ({
            let v = r->0;
            &&& v.wf()
            &&& scale >= 0 ==> v == (Rational {
                neg,
                num: (m * pow10(scale as nat)) as u128,
                den: 1u128,
            }) && v.val_num() == (if neg {
                -(m as int * pow10(scale as nat) as int)
            } else {
                m as int * pow10(scale as nat) as int
            }) && v.val_den() == 1
            &&& scale < 0 ==> v == (Rational {
                neg,
                num: m,
                den: pow10((-scale) as nat) as u128,
            }) && v.val_num() == (if neg {
                -(m as int)
            } else {
                m as int
            }) && v.val_den() == pow10((-scale) as nat) as int
        }),
{
    if scale >= 0 {
        if scale > 40 {
            proof {
                lemma_pow10_over_40(scale as nat);
                lemma_mul_ge_one_factor(m as int, pow10(scale as nat) as int);
            }
            return None;
        }
        let p10 = match pow10_u128(scale as u64) {
            Some(v) => v,
            None => {
                proof {
                    lemma_mul_ge_one_factor(m as int, pow10(scale as nat) as int);
                }
                return None;
            },
        };
        proof {
            lemma_pow10_monotone(0, scale as nat);
        }
        let num = match m.checked_mul(p10) {
            Some(v) => v,
            None => {
                return None;
            },
        };
        let v = Rational { neg, num, den: 1 };
        proof {
            assert(num >= 1) by (nonlinear_arith)
                requires
                    m >= 1,
                    p10 >= 1,
                    num == m * p10,
            ;
        }
        Some(v)
    } else {
        let nscale: i128 = -scale;
        if nscale > 40 {
            proof {
                lemma_pow10_over_40(nscale as nat);
            }
            return None;
        }
        let den = match pow10_u128(nscale as u64) {
            Some(v) => v,
            None => {
                return None;
            },
        };
        let v = Rational { neg, num: m, den };
        proof {
            lemma_pow10_monotone(0, nscale as nat);
        }
        Some(v)
    }
}


/// The shape of an exponent part: malformed, too large to matter, or a
/// signed magnitude.
enum ExpToken {
    Malformed,
    Oversized(bool),
    Value(bool, u128),
}

/// Reads the exponent part `s[elo..]` as a signed integer whose magnitude is
/// capped at `flen + 40`; a larger well-formed magnitude reports only its
/// sign.
fn read_exponent(s: &[u8], elo: usize, flen: usize) -> (r: ExpToken)
    requires
        elo <= s@.len(),
    ensures
        ({
            let etok = s@.subrange(elo as int, s@.len() as int);
            let neg = etok.len() > 0 && etok[0] == MINUS;
            let mag = digits_val(strip_sign(etok));
            match r {
                ExpToken::Malformed => !valid_int_token(etok),
                ExpToken::Oversized(en) => valid_int_token(etok) && mag > flen + 40 && en == neg,
                ExpToken::Value(en, v) => valid_int_token(etok) && mag <= flen + 40 && en == neg
                    && v == mag,
            }
        }),
{
    let ghost etok = s@.subrange(elo as int, s@.len() as int);
    let n = s.len();
    let eneg: bool = n > elo && s[elo] == MINUS;
    let estart: usize = if n > elo && (s[elo] == MINUS || s[elo] == PLUS) {
        elo + 1
    } else {
        elo
    };
    proof {
        assert(strip_sign(etok) =~= s@.subrange(estart as int, n as int));
        assert(usize::MAX <= u64::MAX);
    }
    if !check_digits(s, estart, n) {
        return ExpToken::Malformed;
    }
    let limit: u128 = flen as u128 + 40;
    match digits_in_range_to_u128(s, estart, n, limit) {
        Some(v) => ExpToken::Value(eneg, v),
        None => ExpToken::Oversized(eneg),
    }
}

/// The zero rational stands for any fraction whose numerator is zero.
proof fn lemma_zero_is_value(n: int, d: int)
    requires
        n == 0,
    ensures
        (Rational { neg: false, num: 0, den: 1 }).val_num() * d == n * (Rational {
            neg: false,
            num: 0,
            den: 1,
        }).val_den(),
{
    assert(0int * d == 0) by (nonlinear_arith);
}

/// A product of two factors, each at least one, is at least either factor.
proof fn lemma_mul_ge_one_factor(a: int, b: int)
    requires
        a >= 1,
        b >= 1,
    ensures
        a * b >= a,
        a * b >= b,
{
    assert(a * b >= a && a * b >= b) by (nonlinear_arith)
        requires
            a >= 1,
            b >= 1,
    ;
}

pub proof fn lemma_pow10_add(a: nat, b: nat)
    ensures
        pow10(a + b) == pow10(a) * pow10(b),
    decreases b,
{
    if b == 0 {
        assert(pow10(0) == 1);
        assert(pow10(a + 0) == pow10(a) * 1);
    } else {
        lemma_pow10_add(a, (b - 1) as nat);
        assert(pow10(a + b) == 10 * pow10((a + b - 1) as nat));
        assert(pow10(b) == 10 * pow10((b - 1) as nat));
        assert(10 * (pow10(a) * pow10((b - 1) as nat)) == pow10(a) * (10 * pow10(
            (b - 1) as nat,
        ))) by (nonlinear_arith);
    }
}

/// Ten to any power above forty exceeds `u128::MAX`.
proof fn lemma_pow10_over_40(k: nat)
    requires
        k > 40,
    ensures
        pow10(k) > u128::MAX,
{
    assert(pow10(0) == 1);
    assert(pow10(1) == 10);
    assert(pow10(2) == 100);
    assert(pow10(3) == 1000);
    assert(pow10(4) == 10000);
    assert(pow10(5) == 100000);
    assert(pow10(10) == 10000000000) by {
        lemma_pow10_add(5, 5);
    }
    assert(pow10(20) == 100000000000000000000) by {
        lemma_pow10_add(10, 10);
    }
    assert(pow10(40) == 10000000000000000000000000000000000000000) by {
        lemma_pow10_add(20, 20);
    }
    assert(pow10(41) == 10 * pow10(40)) by {
        lemma_pow10_add(1, 40);
    }
    lemma_pow10_monotone(41, k);
}

} // verus!
