//! Unsigned decimal integers: their text form, as `str::parse` reads it for
//! an unsigned type and as `Display` writes it.
use vstd::prelude::*;

verus! {

/// Why a decimal text is not an unsigned integer of the requested width.
#[derive(Debug, Clone, Copy, PartialEq, Eq, Structural)]
pub enum IntParseError {
    /// The text is empty.
    Empty,
    /// A character that is not a decimal digit, or a sign with no digits.
    InvalidDigit,
    /// The digits name a number above the largest value of the type.
    Overflow,
}

/// A decimal digit character.
pub open spec fn is_digit(c: char) -> bool {
    '0' <= c && c <= '9'
}

/// The value of a decimal digit character.
pub open spec fn digit_value(c: char) -> nat {
    (c as nat - '0' as nat) as nat
}

/// Every character is a decimal digit.
pub open spec fn all_digits(t: Seq<char>) -> bool {
    forall|i: int| 0 <= i < t.len() ==> is_digit(#[trigger] t[i])
}

/// The number that a run of decimal digits names, most significant first.
pub open spec fn digits_value(t: Seq<char>) -> nat
    decreases t.len(),
{
    if t.len() == 0 {
        0
    } else {
        digits_value(t.drop_last()) * 10 + digit_value(t.last())
    }
}

/// The part of the text after an optional leading `+`.
pub open spec fn unsigned_body(s: Seq<char>) -> Seq<char> {
    if s.len() > 0 && s[0] == '+' {
        s.drop_first()
    } else {
        s
    }
}

/// The text names an integer in `0..=max`.
pub open spec fn is_decimal_within(s: Seq<char>, max: nat) -> bool {
    let t = unsigned_body(s);
    t.len() > 0 && all_digits(t) && digits_value(t) <= max
}

/// Reading the digits left to right, position `k` is the first one that is
/// not a digit, while the digits before it still name a value within `max`.
pub open spec fn bad_digit_first(t: Seq<char>, k: int, max: nat) -> bool {
    0 <= k < t.len() && !is_digit(t[k]) && all_digits(t.take(k)) && digits_value(t.take(k))
        <= max
}

/// What parsing the text as an unsigned integer in `0..=max` gives.
pub open spec fn parse_spec(s: Seq<char>, max: nat) -> Result<nat, IntParseError> {
    let t = unsigned_body(s);
    if s.len() == 0 {
        Err(IntParseError::Empty)
    } else if is_decimal_within(s, max) {
        Ok(digits_value(t))
    } else if t.len() == 0 || exists|k: int| bad_digit_first(t, k, max) {
        Err(IntParseError::InvalidDigit)
    } else {
        Err(IntParseError::Overflow)
    }
}

/// The characters of a string slice, in order.
pub fn chars_of(s: &str) -> (r: Vec<char>)
    ensures
        r@ == s@,
{
    let mut v: Vec<char> = Vec::new();
    for c in it: s.chars()
        invariant
            v@ == it.seq().take(it.index() as int),
    {
        v.push(c);
    }
    v
}

proof fn lemma_prefix_step(t: Seq<char>, i: int)
    requires
        0 <= i < t.len(),
    ensures
        t.take(i + 1).drop_last() == t.take(i),
        t.take(i + 1).last() == t[i],
        digits_value(t.take(i + 1)) == digits_value(t.take(i)) * 10 + digit_value(t[i]),
{
    assert(t.take(i + 1).drop_last() =~= t.take(i));
}

proof fn lemma_prefix_monotone(t: Seq<char>, j: int, k: int)
    requires
        0 <= j <= k <= t.len(),
    ensures
        digits_value(t.take(j)) <= digits_value(t.take(k)),
    decreases k - j,
{
    if j < k {
        lemma_prefix_monotone(t, j, k - 1);
        lemma_prefix_step(t, k - 1);
    }
}

/// Reads the characters `cs[lo..hi]` as an unsigned decimal integer in
/// `0..=max`: an optional `+`, then one or more digits. On bad text the error
/// names the first fault met reading left to right.
pub fn parse_range(cs: &Vec<char>, lo: usize, hi: usize, max: u128) -> (r: Result<
    u128,
    IntParseError,
>)
    requires
        lo <= hi <= cs@.len(),
    ensures
        match parse_spec(cs@.subrange(lo as int, hi as int), max as nat) {
            Ok(v) => r == Ok::<u128, IntParseError>(v as u128),
            Err(e) => r == Err::<u128, IntParseError>(e),
        },
{
    let ghost w = cs@.subrange(lo as int, hi as int);
    if lo == hi {
        return Err(IntParseError::Empty);
    }
    let start: usize = if cs[lo] == '+' { lo + 1 } else { lo };
    let ghost t = unsigned_body(w);
    assert(t =~= cs@.subrange(start as int, hi as int));
    if start == hi {
        return Err(IntParseError::InvalidDigit);
    }
    let mut acc: u128 = 0;
    let mut i: usize = start;
    while i < hi
        invariant
            lo <= hi <= cs@.len(),
            w == cs@.subrange(lo as int, hi as int),
            w.len() > 0,
            t == cs@.subrange(start as int, hi as int),
            t == unsigned_body(w),
            lo <= start <= i <= hi,
            all_digits(t.take(i - start)),
            digits_value(t.take(i - start)) == acc as nat,
            acc <= max,
        decreases hi - i,
    {
        let c = cs[i];
        let ghost k: int = i - start;
        assert(t[k] == c);
        if !('0' <= c && c <= '9') {
            assert(bad_digit_first(t, k, max as nat));
            assert(!all_digits(t));
            return Err(IntParseError::InvalidDigit);
        }
        let d: u128 = (c as u32 - '0' as u32) as u128;
        proof {
            lemma_prefix_step(t, k);
        }
        if d > max || acc > (max - d) / 10 {
            proof {
                assert(acc * 10 + d > max) by (nonlinear_arith)
                    requires
                        d > max || acc > (max - d) / 10,
                        acc >= 0,
                        d >= 0,
                ;
                assert(digits_value(t.take(k + 1)) > max);
                assert forall|m: int| !bad_digit_first(t, m, max as nat) by {
                    if 0 <= m < t.len() && !is_digit(t[m]) {
                        if m > k {
                            assert(t.take(m)[k] == t[k]);
                            lemma_prefix_monotone(t, k + 1, m);
                        } else if m < k {
                            assert(t.take(k)[m] == t[m]);
                        }
                    }
                }
                if all_digits(t) {
                    lemma_prefix_monotone(t, k + 1, t.len() as int);
                    assert(t.take(t.len() as int) =~= t);
                }
            }
            return Err(IntParseError::Overflow);
        }
        proof {
            assert(acc * 10 + d <= max) by (nonlinear_arith)
                requires
                    acc <= (max - d) / 10,
                    d <= max,
                    acc >= 0,
            ;
            assert forall|m: int| 0 <= m < k + 1 implies is_digit(#[trigger] t.take(k + 1)[m]) by {
                if m < k {
                    assert(t.take(k + 1)[m] == t.take(k)[m]);
                }
            }
        }
        acc = acc * 10 + d;
        i = i + 1;
    }
    assert(t.take(hi - start) =~= t);
    Ok(acc)
}

/// Reads `s` as an unsigned decimal integer in `0..=max`, as `parse_range`
/// reads a run of characters.
pub fn parse_decimal(s: &str, max: u128) -> (r: Result<u128, IntParseError>)
    ensures
        match parse_spec(s@, max as nat) {
            Ok(v) => r == Ok::<u128, IntParseError>(v as u128),
            Err(e) => r == Err::<u128, IntParseError>(e),
        },
{
    let cs = chars_of(s);
    assert(cs@.subrange(0, cs@.len() as int) =~= s@);
    parse_range(&cs, 0, cs.len(), max)
}

/// The decimal digit character for a value below ten.
pub open spec fn digit_char(m: nat) -> char {
    if m == 0 { '0' } else if m == 1 { '1' } else if m == 2 { '2' } else if m == 3 { '3' }
    else if m == 4 { '4' } else if m == 5 { '5' } else if m == 6 { '6' } else if m == 7 { '7' }
    else if m == 8 { '8' } else { '9' }
}

/// The shortest decimal text of `n`: no sign, no leading zeros.
pub open spec fn dec_text(n: nat) -> Seq<char>
    decreases n,
{
    if n < 10 {
        seq![digit_char(n)]
    } else {
        dec_text(n / 10).push(digit_char(n % 10))
    }
}

proof fn lemma_digit_char(m: nat)
    requires
        m < 10,
    ensures
        is_digit(digit_char(m)),
        digit_value(digit_char(m)) == m,
        digit_char(m) != '+',
{
}

/// The shortest decimal text of `n` is a nonempty run of digits that names `n`.
pub proof fn lemma_dec_text(n: nat)
    ensures
        dec_text(n).len() > 0,
        all_digits(dec_text(n)),
        digits_value(dec_text(n)) == n,
        unsigned_body(dec_text(n)) == dec_text(n),
    decreases n,
{
    if n >= 10 {
        lemma_dec_text(n / 10);
        lemma_digit_char(n % 10);
        let t = dec_text(n);
        assert(t.drop_last() =~= dec_text(n / 10));
        assert forall|i: int| 0 <= i < t.len() implies is_digit(#[trigger] t[i]) by {
            if i < t.len() - 1 {
                assert(t[i] == dec_text(n / 10)[i]);
            }
        }
        assert(t[0] == dec_text(n / 10)[0]);
        assert(t.last() == digit_char(n % 10));
        assert(n == (n / 10) * 10 + n % 10);
        assert(digits_value(t) == digits_value(dec_text(n / 10)) * 10 + digit_value(digit_char(n % 10)));
    } else {
        lemma_digit_char(n);
        assert(dec_text(n).drop_last() =~= Seq::<char>::empty());
        assert(dec_text(n).last() == digit_char(n));
        assert(digits_value(dec_text(n)) == digits_value(Seq::<char>::empty()) * 10 + digit_value(digit_char(n)));
    }
}

} // verus!
