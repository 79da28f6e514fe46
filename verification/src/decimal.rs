//! Fixed-point decimals: every price and quantity is an unsigned integer
//! counting hundred-millionths of a unit, read from text of the form
//! `digits` or `digits.digits`.

use vstd::prelude::*;
use vstd::string::StringSliceAdditionalSpecFns;

verus! {

/// Number of fractional decimal places carried by every amount.
pub const DECIMALS: usize = 8;

/// One whole unit, expressed in hundred-millionths.
pub const SCALE: u64 = 100_000_000;

/// ASCII full stop, the fraction separator.
pub const DOT: u8 = 0x2e;

/// ASCII hyphen-minus, the negative sign.
pub const MINUS: u8 = 0x2d;

/// ASCII digit zero.
pub const ZERO: u8 = 0x30;

/// ASCII digit nine.
pub const NINE: u8 = 0x39;

/// Why a piece of text is not an amount this library can hold.
#[derive(Clone, Copy, Debug, PartialEq, Eq, Structural)]
pub enum DecimalError {
    /// The text is neither a decimal nor a decimal preceded by a minus sign.
    NotNumeric,
    /// The text is a well-formed decimal preceded by a minus sign.
    Negative,
    /// The text is a well-formed decimal with more than eight fractional
    /// digits, or one too large for sixty-four bits.
    Unrepresentable,
}

pub open spec fn is_digit(b: u8) -> bool {
    ZERO <= b <= NINE
}

pub open spec fn all_digits(s: Seq<u8>) -> bool {
    forall|i: int| 0 <= i < s.len() ==> is_digit(#[trigger] s[i])
}

/// The number written by a string of decimal digits, most significant first.
pub open spec fn digits_value(s: Seq<u8>) -> nat
    decreases s.len(),
{
    if s.len() == 0 {
        0
    } else {
        10 * digits_value(s.drop_last()) + (s.last() - ZERO) as nat
    }
}

/// What stands before the first separator: all of `s` when it has none.
pub open spec fn integer_digits(s: Seq<u8>) -> Seq<u8> {
    match s.index_of_first(DOT) {
        Some(i) => s.subrange(0, i),
        None => s,
    }
}

/// What stands after the first separator: nothing when `s` has none.
pub open spec fn fraction_digits(s: Seq<u8>) -> Seq<u8> {
    match s.index_of_first(DOT) {
        Some(i) => s.subrange(i + 1, s.len() as int),
        None => Seq::empty(),
    }
}

/// `s` is `digits` or `digits.digits`; either side of the separator may be
/// empty, but not both.
pub open spec fn is_decimal(s: Seq<u8>) -> bool {
    &&& all_digits(integer_digits(s))
    &&& all_digits(fraction_digits(s))
    &&& integer_digits(s).len() + fraction_digits(s).len() > 0
}

/// The digits of a decimal with its fraction filled up to eight places.
pub open spec fn padded_digits(s: Seq<u8>) -> Seq<u8>
    recommends
        fraction_digits(s).len() <= DECIMALS,
{
    integer_digits(s) + fraction_digits(s) + Seq::new(
        (DECIMALS - fraction_digits(s).len()) as nat,
        |i: int| ZERO,
    )
}

/// The amount a decimal denotes, in hundred-millionths.
pub open spec fn scaled_value(s: Seq<u8>) -> nat
    recommends
        fraction_digits(s).len() <= DECIMALS,
{
    digits_value(padded_digits(s))
}

/// The amount that a piece of text denotes, or the reason it denotes none.
pub open spec fn amount_of(s: Seq<u8>) -> Result<u64, DecimalError> {
    if is_decimal(s) {
        if fraction_digits(s).len() <= DECIMALS && scaled_value(s) <= u64::MAX {
            Ok(scaled_value(s) as u64)
        } else {
            Err(DecimalError::Unrepresentable)
        }
    } else if s.len() > 0 && s[0] == MINUS && is_decimal(s.drop_first()) {
        Err(DecimalError::Negative)
    } else {
        Err(DecimalError::NotNumeric)
    }
}

/// Ten to the power `n`.
pub open spec fn pow10(n: nat) -> nat
    decreases n,
{
    if n == 0 {
        1
    } else {
        10 * pow10((n - 1) as nat)
    }
}

/// Digits written after a number shift it left by their count and add what
/// they write themselves.
pub proof fn law_digits_concat(a: Seq<u8>, b: Seq<u8>)
    ensures
        digits_value(a + b) == digits_value(a) * pow10(b.len()) + digits_value(b),
    decreases b.len(),
{
    if b.len() == 0 {
        assert(a + b == a);
        assert(digits_value(a) * 1 == digits_value(a)) by (nonlinear_arith);
    } else {
        let front = b.drop_last();
        assert((a + b).drop_last() == a + front);
        assert((a + b).last() == b.last());
        law_digits_concat(a, front);
        let high = digits_value(a) as int;
        let low = digits_value(front) as int;
        let shift = pow10(front.len()) as int;
        let weight = pow10(b.len()) as int;
        assert(weight == 10 * shift);
        assert(10 * (high * shift + low) == high * weight + 10 * low) by (nonlinear_arith)
            requires
                weight == 10 * shift,
        ;
    }
}

/// Zeros write zero.
pub proof fn law_zeros_write_zero(n: nat)
    ensures
        digits_value(Seq::new(n, |i: int| ZERO)) == 0,
    decreases n,
{
    if n > 0 {
        assert(Seq::new(n, |i: int| ZERO).drop_last() == Seq::new(
            (n - 1) as nat,
            |i: int| ZERO,
        ));
        law_zeros_write_zero((n - 1) as nat);
    }
}

/// The amount of a decimal is its integer part times one unit plus its
/// fraction, read as a number, times the weight of the fraction's last
/// place.
pub proof fn law_positional_value(s: Seq<u8>)
    requires
        fraction_digits(s).len() <= DECIMALS,
    ensures
        pow10(DECIMALS as nat) == SCALE,
        scaled_value(s) == digits_value(integer_digits(s)) * SCALE + digits_value(
            fraction_digits(s),
        ) * pow10((DECIMALS - fraction_digits(s).len()) as nat),
{
    reveal_with_fuel(pow10, 9);
    let whole = integer_digits(s);
    let fraction = fraction_digits(s);
    let fill = (DECIMALS - fraction.len()) as nat;
    let zeros = Seq::new(fill, |i: int| ZERO);
    law_zeros_write_zero(fill);
    law_digits_concat(whole + fraction, zeros);
    law_digits_concat(whole, fraction);
    lemma_pow10_adds(fraction.len(), fill);
    let w = digits_value(whole) as int;
    let f = digits_value(fraction) as int;
    let pf = pow10(fraction.len()) as int;
    let pz = pow10(fill) as int;
    assert((w * pf + f) * pz == w * (pf * pz) + f * pz) by (nonlinear_arith);
}

/// Powers of ten multiply by adding exponents.
proof fn lemma_pow10_adds(a: nat, b: nat)
    ensures
        pow10(a) * pow10(b) == pow10(a + b),
    decreases a,
{
    let other = pow10(b) as int;
    if a > 0 {
        lemma_pow10_adds((a - 1) as nat, b);
        let more = pow10(a) as int;
        let less = pow10((a - 1) as nat) as int;
        assert(more == 10 * less);
        assert(pow10(a + b) == 10 * pow10((a - 1 + b) as nat));
        assert(more * other == 10 * (less * other)) by (nonlinear_arith)
            requires
                more == 10 * less,
        ;
    } else {
        assert(1 * other == other) by (nonlinear_arith);
    }
}

/// A position that holds the first separator, or the length where there is
/// none, fixes the two digit strings.
proof fn lemma_separator(s: Seq<u8>, d: int)
    requires
        0 <= d <= s.len(),
        forall|j: int| 0 <= j < d ==> s[j] != DOT,
        d < s.len() ==> s[d] == DOT,
    ensures
        integer_digits(s) == s.subrange(0, d),
        fraction_digits(s) == if d < s.len() {
            s.subrange(d + 1, s.len() as int)
        } else {
            Seq::<u8>::empty()
        },
{
    s.index_of_first_ensures(DOT);
    match s.index_of_first(DOT) {
        Some(i) => {
            if i < d {
                assert(s[i] != DOT);
            }
            if d < i {
                assert(s[d] != DOT);
            }
            assert(d < s.len()) by {
                if d == s.len() {
                    assert(s[i] != DOT);
                }
            }
        },
        None => {
            if d < s.len() {
                assert(s.contains(s[d]));
            }
            assert(s.subrange(0, d) == s);
        },
    }
}

/// A prefix of a digit string never writes a larger number than the whole.
proof fn lemma_prefix_value(s: Seq<u8>, k: int)
    requires
        0 <= k <= s.len(),
    ensures
        digits_value(s.subrange(0, k)) <= digits_value(s),
    decreases s.len(),
{
    if k == s.len() {
        assert(s.subrange(0, k) == s);
    } else {
        assert(s.subrange(0, k) == s.drop_last().subrange(0, k));
        lemma_prefix_value(s.drop_last(), k);
    }
}

/// Appending one digit multiplies the number by ten and adds the digit.
proof fn lemma_value_step(s: Seq<u8>, k: int)
    requires
        0 <= k < s.len(),
    ensures
        digits_value(s.subrange(0, k + 1)) == 10 * digits_value(s.subrange(0, k)) + (s[k]
            - ZERO) as nat,
{
    assert(s.subrange(0, k + 1).drop_last() == s.subrange(0, k));
}

/// First position at or after `from` that holds a separator, or the length.
fn find_separator(bytes: &[u8], from: usize) -> (d: usize)
    requires
        from <= bytes.len(),
    ensures
        from <= d <= bytes.len(),
        forall|j: int| from <= j < d ==> bytes[j] != DOT,
        d < bytes.len() ==> bytes[d as int] == DOT,
{
    let mut d: usize = from;
    while d < bytes.len() && bytes[d] != DOT
        invariant
            from <= d <= bytes.len(),
            forall|j: int| from <= j < d ==> bytes[j] != DOT,
        decreases bytes.len() - d,
    {
        d += 1;
    }
    d
}

/// Whether every byte in `from..to` is a digit.
fn digits_only(bytes: &[u8], from: usize, to: usize) -> (r: bool)
    requires
        from <= to <= bytes.len(),
    ensures
        r == all_digits(bytes@.subrange(from as int, to as int)),
{
    let mut i: usize = from;
    while i < to
        invariant
            from <= i <= to <= bytes.len(),
            all_digits(bytes@.subrange(from as int, i as int)),
        decreases to - i,
    {
        if bytes[i] < ZERO || bytes[i] > NINE {
            assert(!is_digit(bytes@.subrange(from as int, to as int)[i - from]));
            return false;
        }
        assert forall|j: int| 0 <= j < i + 1 - from implies is_digit(
            #[trigger] bytes@.subrange(from as int, i + 1)[j],
        ) by {
            if j < i - from {
                assert(bytes@.subrange(from as int, i as int)[j] == bytes[from + j]);
            }
        }
        i += 1;
    }
    true
}

/// Tells whether the bytes from `from` on form a decimal, and if so where
/// its separator stands (the length when it has none).
fn scan(bytes: &[u8], from: usize) -> (r: Option<usize>)
    requires
        from <= bytes.len(),
    ensures
        r is Some <==> is_decimal(bytes@.subrange(from as int, bytes.len() as int)),
        r matches Some(d) ==> {
            let tail = bytes@.subrange(from as int, bytes.len() as int);
            &&& from <= d <= bytes.len()
            &&& integer_digits(tail) == bytes@.subrange(from as int, d as int)
            &&& fraction_digits(tail) == if d < bytes.len() {
                bytes@.subrange(d + 1, bytes.len() as int)
            } else {
                Seq::<u8>::empty()
            }
        },
{
    let len: usize = bytes.len();
    let d: usize = find_separator(bytes, from);
    let ghost tail = bytes@.subrange(from as int, len as int);
    proof {
        lemma_separator(tail, d - from);
        assert(tail.subrange(0, d - from) == bytes@.subrange(from as int, d as int));
        if d < len {
            assert(tail.subrange(d - from + 1, tail.len() as int) == bytes@.subrange(
                d + 1,
                len as int,
            ));
        }
    }
    if !digits_only(bytes, from, d) {
        return None;
    }
    if d < len {
        if !digits_only(bytes, d + 1, len) {
            return None;
        }
        if d == from && d + 1 == len {
            return None;
        }
    } else if d == from {
        return None;
    }
    Some(d)
}

/// Appends one digit to a number, unless the result leaves sixty-four bits.
fn push_digit(acc: u64, digit: u8) -> (r: Option<u64>)
    requires
        is_digit(digit),
    ensures
        r == if 10 * acc + (digit - ZERO) <= u64::MAX {
            Some((10 * acc + (digit - ZERO)) as u64)
        } else {
            None
        },
{
    match acc.checked_mul(10) {
        Some(shifted) => shifted.checked_add((digit - ZERO) as u64),
        None => None,
    }
}

/// The amount written by a decimal whose separator stands at `dot`.
fn evaluate(bytes: &[u8], dot: usize) -> (r: Option<u64>)
    requires
        is_decimal(bytes@),
        dot <= bytes.len(),
        integer_digits(bytes@) == bytes@.subrange(0, dot as int),
        fraction_digits(bytes@) == if dot < bytes.len() {
            bytes@.subrange(dot + 1, bytes.len() as int)
        } else {
            Seq::<u8>::empty()
        },
        fraction_digits(bytes@).len() <= DECIMALS,
    ensures
        r == if scaled_value(bytes@) <= u64::MAX {
            Some(scaled_value(bytes@) as u64)
        } else {
            None
        },
{
    let len: usize = bytes.len();
    let ghost digits = padded_digits(bytes@);
    let ghost whole = integer_digits(bytes@);
    let ghost fraction = fraction_digits(bytes@);
    let mut acc: u64 = 0;
    let mut i: usize = 0;
    while i < dot
        invariant
            i <= dot <= len == bytes.len(),
            digits == padded_digits(bytes@),
            whole == bytes@.subrange(0, dot as int),
            whole == integer_digits(bytes@),
            all_digits(whole),
            acc == digits_value(digits.subrange(0, i as int)),
        decreases dot - i,
    {
        proof {
            assert(digits[i as int] == whole[i as int]);
            assert(is_digit(whole[i as int]));
            lemma_value_step(digits, i as int);
            lemma_prefix_value(digits, i + 1);
        }
        match push_digit(acc, bytes[i]) {
            Some(next) => {
                acc = next;
            },
            None => {
                return None;
            },
        }
        i += 1;
    }
    let mut taken: usize = 0;
    if dot < len {
        let mut j: usize = dot + 1;
        while j < len
            invariant
                dot < j <= len == bytes.len(),
                digits == padded_digits(bytes@),
                whole == integer_digits(bytes@),
                whole.len() == dot,
                fraction == fraction_digits(bytes@),
                fraction == bytes@.subrange(dot + 1, len as int),
                fraction.len() <= DECIMALS,
                all_digits(fraction),
                acc == digits_value(digits.subrange(0, j - 1)),
            decreases len - j,
        {
            proof {
                assert(digits[j - 1] == fraction[j - 1 - dot]);
                assert(is_digit(fraction[j - 1 - dot]));
                lemma_value_step(digits, j - 1);
                lemma_prefix_value(digits, j as int);
            }
            match push_digit(acc, bytes[j]) {
                Some(next) => {
                    acc = next;
                },
                None => {
                    return None;
                },
            }
            j += 1;
        }
        taken = len - dot - 1;
    }
    while taken < DECIMALS
        invariant
            taken <= DECIMALS,
            digits == padded_digits(bytes@),
            whole == integer_digits(bytes@),
            fraction == fraction_digits(bytes@),
            fraction.len() <= DECIMALS,
            digits.len() == whole.len() + DECIMALS,
            fraction.len() <= taken,
            acc == digits_value(digits.subrange(0, whole.len() + taken)),
        decreases DECIMALS - taken,
    {
        proof {
            assert(digits[whole.len() + taken] == ZERO);
            lemma_value_step(digits, whole.len() + taken);
            lemma_prefix_value(digits, whole.len() + taken + 1);
        }
        match push_digit(acc, ZERO) {
            Some(next) => {
                acc = next;
            },
            None => {
                return None;
            },
        }
        taken += 1;
    }
    assert(digits.subrange(0, whole.len() + taken) == digits);
    Some(acc)
}

/// Reads an amount from bytes.
///
/// Succeeds exactly on a decimal with at most eight fractional digits whose
/// value fits sixty-four bits of hundred-millionths; otherwise names the
/// reason.
pub fn parse_amount_bytes(bytes: &[u8]) -> (r: Result<u64, DecimalError>)
    ensures
        r == amount_of(bytes@),
{
    let len: usize = bytes.len();
    assert(bytes@.subrange(0, len as int) == bytes@);
    match scan(bytes, 0) {
        Some(dot) => {
            if dot < len && len - dot - 1 > DECIMALS {
                return Err(DecimalError::Unrepresentable);
            }
            match evaluate(bytes, dot) {
                Some(value) => Ok(value),
                None => Err(DecimalError::Unrepresentable),
            }
        },
        None => {
            if len > 0 && bytes[0] == MINUS {
                assert(bytes@.drop_first() == bytes@.subrange(1, len as int));
                if scan(bytes, 1).is_some() {
                    return Err(DecimalError::Negative);
                }
            }
            Err(DecimalError::NotNumeric)
        },
    }
}

/// Reads an amount from text; see [`parse_amount_bytes`].
pub fn parse_amount(text: &str) -> (r: Result<u64, DecimalError>)
    ensures
        r == amount_of(text.spec_bytes()),
{
    parse_amount_bytes(text.as_bytes())
}

} // verus!
