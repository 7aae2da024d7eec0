//! A validated share in `[0, 1]`, and the proportional part of a balance it
//! entitles to.
use vstd::prelude::*;
use vstd::arithmetic::div_mod::{
    lemma_div_is_ordered,
    lemma_div_by_multiple,
    lemma_fundamental_div_mod,
    lemma_hoist_over_denominator,
};
use crate::decimal::{IntParseError, parse_spec, parse_range, dec_text, lemma_dec_text, chars_of};

verus! {

/// The largest balance.
pub const MAX_BALANCE: u128 = 0xffff_ffff_ffff_ffff_ffff_ffff_ffff_ffffu128;

/// The largest numerator or denominator.
pub const MAX_TERM: u128 = 0xffff_ffffu128;

/// Represents a number between `0` and `1`, meant as the part of a balance
/// that one recipient is owed. The denominator is never `0` and the
/// numerator never exceeds it, in every `Fraction` that `new` or `from_str`
/// hands out; `validate` tells whether one built from its fields is.
#[derive(Debug, Clone, Copy)]
pub struct Fraction {
    /// The numerator.
    pub num: u32,
    /// The denominator.
    pub den: u32,
}

/// Why a fraction could not be made.
#[derive(Debug, Clone, Copy, PartialEq, Eq, Structural)]
pub enum FractionError {
    /// The denominator is zero.
    InvalidFraction,
    /// The numerator exceeds the denominator.
    FractionExceedsOne,
    /// The text is not two terms around a single `/`.
    MalformedFraction,
    /// A term of the text is not a 32-bit unsigned integer.
    Int(IntParseError),
}

/// What validating a fraction with these terms gives.
pub open spec fn check_spec(num: nat, den: nat) -> Result<(), FractionError> {
    if den == 0 {
        Err(FractionError::InvalidFraction)
    } else if num > den {
        Err(FractionError::FractionExceedsOne)
    } else {
        Ok(())
    }
}

/// `floor(balance * num / den)`: the part of `balance` that the fraction entitles to.
pub open spec fn scale(f: Fraction, balance: nat) -> nat {
    (balance * f.num as nat / f.den as nat) as nat
}

impl Fraction {
    /// Nonzero denominator, numerator at most the denominator.
    pub open spec fn wf(&self) -> bool {
        self.den > 0 && self.num <= self.den
    }

    /// The fraction's value measured at the largest balance: what equality and
    /// order go by.
    pub open spec fn scaled_max(&self) -> nat {
        scale(*self, MAX_BALANCE as nat)
    }

    /// Tells whether the fraction is valid, and if not, why: a zero
    /// denominator comes before a numerator above the denominator.
    pub fn validate(&self) -> (r: Result<(), FractionError>)
        ensures
            r == check_spec(self.num as nat, self.den as nat),
            r is Ok <==> self.wf(),
    {
        if self.den == 0 {
            return Err(FractionError::InvalidFraction);
        }
        if self.num > self.den {
            return Err(FractionError::FractionExceedsOne);
        }
        Ok(())
    }

    /// Asserts that the fraction is valid: its denominator is not zero, and
    /// its numerator does not exceed the denominator. An invalid fraction is
    /// a fatal error, so it is ruled out here; `validate` tells which fault a
    /// fraction has.
    pub fn check(&self)
        requires
            self.den != 0,
            self.num <= self.den,
    {
    }

    /// Makes the fraction `num / den`. An invalid fraction is a fatal error
    /// at construction, so it is ruled out here.
    pub fn new(num: u32, den: u32) -> (r: Fraction)
        requires
            den != 0,
            num <= den,
        ensures
            r == (Fraction { num, den }),
            r.wf(),
    {
        let f = Fraction { num, den };
        f.check();
        f
    }

    /// Multiplies the fraction by `value`, rounding down. The product
    /// `value * num` is never formed, so no balance overflows.
    pub fn mult(&self, value: u128) -> (r: u128)
        requires
            self.wf(),
        ensures
            r as nat == scale(*self, value as nat),
            r <= value,
    {
        let den = self.den as u128;
        let num = self.num as u128;
        let q: u128 = value / den;
        let m: u128 = value % den;
        proof {
            lemma_fundamental_div_mod(value as int, den as int);
            assert(num * q <= value) by (nonlinear_arith)
                requires
                    num <= den,
                    value == den * q + m,
                    q >= 0,
                    m >= 0,
            ;
            assert(num * m < 0x1_0000_0000_0000_0000) by (nonlinear_arith)
                requires
                    num <= 0xffff_ffff,
                    m < den,
                    den <= 0xffff_ffff,
                    num >= 0,
                    m >= 0,
            ;
        }
        let low: u128 = num * m / den;
        proof {
            assert(value * num == num * m + (num * q) * den) by (nonlinear_arith)
                requires
                    value == den * q + m,
            ;
            lemma_hoist_over_denominator((num * m) as int, (num * q) as int, den as nat);
            assert(value * num <= value * den) by (nonlinear_arith)
                requires
                    num <= den,
                    value >= 0,
            ;
            lemma_div_is_ordered((value * num) as int, (value * den) as int, den as int);
            lemma_div_by_multiple(value as int, den as int);
        }
        num * q + low
    }

    /// Whether the two fractions give the same part of the largest balance.
    pub fn share_eq(&self, other: &Fraction) -> (r: bool)
        requires
            self.wf(),
            other.wf(),
        ensures
            r == (self.scaled_max() == other.scaled_max()),
    {
        self.mult(MAX_BALANCE) == other.mult(MAX_BALANCE)
    }

    /// Orders the two fractions by the part of the largest balance they give.
    pub fn share_cmp(&self, other: &Fraction) -> (r: core::cmp::Ordering)
        requires
            self.wf(),
            other.wf(),
        ensures
            (r == core::cmp::Ordering::Less) == (self.scaled_max() < other.scaled_max()),
            (r == core::cmp::Ordering::Equal) == (self.scaled_max() == other.scaled_max()),
            (r == core::cmp::Ordering::Greater) == (self.scaled_max() > other.scaled_max()),
    {
        let a = self.mult(MAX_BALANCE);
        let b = other.mult(MAX_BALANCE);
        if a < b {
            core::cmp::Ordering::Less
        } else if a == b {
            core::cmp::Ordering::Equal
        } else {
            core::cmp::Ordering::Greater
        }
    }
}

/// `num/den` written in decimal: the text form of a fraction.
pub open spec fn fraction_text(num: nat, den: nat) -> Seq<char> {
    dec_text(num) + seq!['/'] + dec_text(den)
}

/// Position `p` holds a `/`, and no other position does.
pub open spec fn lone_slash_at(s: Seq<char>, p: int) -> bool {
    &&& 0 <= p < s.len()
    &&& s[p] == '/'
    &&& forall|i: int| 0 <= i < s.len() && i != p ==> s[i] != '/'
}

/// What reading a fraction from its text form gives: the text must be two
/// 32-bit unsigned integers around a single `/`, and the fraction valid.
pub open spec fn fraction_from_text(s: Seq<char>) -> Result<Fraction, FractionError> {
    if exists|p: int| lone_slash_at(s, p) {
        let p = choose|p: int| lone_slash_at(s, p);
        match parse_spec(s.take(p), MAX_TERM as nat) {
            Err(e) => Err(FractionError::Int(e)),
            Ok(n) => match parse_spec(s.skip(p + 1), MAX_TERM as nat) {
                Err(e) => Err(FractionError::Int(e)),
                Ok(d) => match check_spec(n, d) {
                    Err(e) => Err(e),
                    Ok(_) => Ok(Fraction { num: n as u32, den: d as u32 }),
                },
            },
        }
    } else {
        Err(FractionError::MalformedFraction)
    }
}

/// Relies on `format!` of two `u32` with `{}`: each is written in decimal,
/// with no sign and no leading zeros.
#[verifier::external_body]
fn write_fraction(num: u32, den: u32) -> (r: String)
    ensures
        r@ == fraction_text(num as nat, den as nat),
{
    format!("{}/{}", num, den)
}

impl Fraction {
    /// The text form `num/den`.
    pub fn to_string(&self) -> (r: String)
        ensures
            r@ == fraction_text(self.num as nat, self.den as nat),
    {
        write_fraction(self.num, self.den)
    }

    /// Reads a fraction from the text form `num/den`. The text is split at
    /// its single `/`, each side read as a 32-bit unsigned integer, and the
    /// fraction validated.
    pub fn from_str(s: &str) -> (r: Result<Fraction, FractionError>)
        ensures
            r == fraction_from_text(s@),
            r matches Ok(f) ==> f.wf(),
    {
        let cs = chars_of(s);
        let n = cs.len();
        let mut pos: usize = n;
        let mut i: usize = 0;
        while i < n
            invariant
                cs@ == s@,
                n == cs@.len(),
                0 <= i <= n,
                pos == n <==> forall|j: int| 0 <= j < i ==> cs@[j] != '/',
                pos < n ==> pos < i && cs@[pos as int] == '/',
                pos < n ==> forall|j: int| 0 <= j < i && j != pos ==> cs@[j] != '/',
                pos <= n,
            decreases n - i,
        {
            if cs[i] == '/' {
                if pos < n {
                    assert forall|p: int| !lone_slash_at(s@, p) by {
                        if lone_slash_at(s@, p) {
                            assert(p == pos || p == i);
                        }
                    }
                    return Err(FractionError::MalformedFraction);
                }
                pos = i;
            }
            i = i + 1;
        }
        if pos == n {
            assert forall|p: int| !lone_slash_at(s@, p) by {
                if 0 <= p < n {
                    assert(cs@[p] != '/');
                }
            }
            return Err(FractionError::MalformedFraction);
        }
        assert(lone_slash_at(s@, pos as int));
        let ghost p = choose|p: int| lone_slash_at(s@, p);
        assert(p == pos);
        assert(cs@.subrange(0, pos as int) =~= s@.take(pos as int));
        assert(cs@.subrange(pos + 1, n as int) =~= s@.skip(pos + 1));
        let num = match parse_range(&cs, 0, pos, MAX_TERM) {
            Ok(v) => v,
            Err(e) => {
                return Err(FractionError::Int(e));
            },
        };
        let den = match parse_range(&cs, pos + 1, n, MAX_TERM) {
            Ok(v) => v,
            Err(e) => {
                return Err(FractionError::Int(e));
            },
        };
        let f = Fraction { num: num as u32, den: den as u32 };
        match f.validate() {
            Ok(()) => Ok(f),
            Err(e) => Err(e),
        }
    }
}

/// Writing a valid fraction as text and reading that text back gives the same
/// fraction, and so one equal to it by scaled value.
pub proof fn lemma_text_round_trip(f: Fraction)
    requires
        f.wf(),
    ensures
        fraction_from_text(fraction_text(f.num as nat, f.den as nat)) == Ok::<
            Fraction,
            FractionError,
        >(f),
{
    let a = dec_text(f.num as nat);
    let b = dec_text(f.den as nat);
    let s = fraction_text(f.num as nat, f.den as nat);
    lemma_dec_text(f.num as nat);
    lemma_dec_text(f.den as nat);
    let p = a.len() as int;
    assert forall|i: int| 0 <= i < s.len() && i != p implies s[i] != '/' by {
        if i < p {
            assert(s[i] == a[i]);
        } else {
            assert(s[i] == b[i - p - 1]);
        }
    }
    assert(lone_slash_at(s, p));
    let q = choose|q: int| lone_slash_at(s, q);
    assert(q == p);
    assert(s.take(p) =~= a);
    assert(s.skip(p + 1) =~= b);
}

/// The part of a balance that a valid fraction entitles to grows with the
/// balance, and never exceeds it.
pub proof fn lemma_scale_monotonic(f: Fraction, a: nat, b: nat)
    requires
        f.wf(),
        a <= b,
    ensures
        scale(f, a) <= scale(f, b),
        scale(f, b) <= b,
{
    assert(a * f.num <= b * f.num) by (nonlinear_arith)
        requires
            a <= b,
    ;
    assert(b * f.num <= b * f.den) by (nonlinear_arith)
        requires
            f.num <= f.den,
    ;
    lemma_div_is_ordered((a * f.num) as int, (b * f.num) as int, f.den as int);
    lemma_div_is_ordered((b * f.num) as int, (b * f.den) as int, f.den as int);
    lemma_div_by_multiple(b as int, f.den as int);
}

} // verus!
