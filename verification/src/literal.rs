//! Decoding sized literals.

use vstd::prelude::*;
use num_bigint::BigUint;
use crate::ast::{bits_value, Literal, LiteralView};
use crate::bignum::{big_from_u64, big_or, big_shl, big_value, digits_to_biguint};
use crate::bitmath::lemma_or_disjoint;
use crate::errors::{EvalError, ParseError};
use crate::text::{
    all_digits,
    ascii_lower,
    decimal_text,
    digit_of,
    digit_run,
    digits_value,
    lemma_decimal_reads_back,
    lemma_digit_values_number,
    number_of,
    parse_number,
    read_digits,
    str_to_chars,
    to_ascii_lower,
};

verus! {

fn bits_to_biguint(bits: &Vec<bool>) -> (r: BigUint)
    ensures
        big_value(r) == bits_value(bits@),
{
    let mut value = big_from_u64(0);
    let mut i: usize = 0;
    assert(bits@.subrange(0, 0) =~= Seq::<bool>::empty());
    while i < bits.len()
        invariant
            i <= bits.len(),
            big_value(value) == bits_value(bits@.subrange(0, i as int)),
        decreases bits.len() - i,
    {
        let bit = big_from_u64(if bits[i] { 1 } else { 0 });
        let doubled = big_shl(&value, 1);
        proof {
            let done = bits@.subrange(0, i as int);
            let next = bits@.subrange(0, i as int + 1);
            assert(next.drop_last() =~= done);
            assert(next.last() == bits[i as int]);
            vstd::arithmetic::power2::lemma2_to64();
            lemma_or_disjoint(big_value(value), big_value(bit), 1);
            vstd::arithmetic::mul::lemma_mul_is_commutative(big_value(value) as int, 2);
        }
        value = big_or(&doubled, &bit);
        i += 1;
    }
    assert(bits@.subrange(0, bits.len() as int) =~= bits@);
    value
}

/// The magnitude and the bit width of a literal. This never fails.
pub fn literal_to_biguint(literal: &Literal) -> (r: Result<(BigUint, u32), EvalError>)
    ensures
        r is Ok,
        big_value(r->Ok_0.0) == literal@.magnitude(),
        r->Ok_0.1 == literal@.width(),
{
    match literal {
        Literal::Binary(bits, width) => Ok((bits_to_biguint(bits), *width)),
        Literal::Decimal(digits, width) => Ok((digits_to_biguint(digits, 10), *width)),
        Literal::Hexadecimal(digits, width) => Ok((digits_to_biguint(digits, 16), *width)),
    }
}

/// The characters of `s` other than `_`, in order.
pub open spec fn without_underscores(s: Seq<char>) -> Seq<char>
    decreases s.len(),
{
    if s.len() == 0 {
        s
    } else {
        let front = without_underscores(s.drop_last());
        if s.last() == '_' {
            front
        } else {
            front.push(s.last())
        }
    }
}

/// The bits that binary digits spell, most significant first, where every
/// character is `0` or `1`.
pub open spec fn binary_digits(s: Seq<char>) -> Option<Seq<bool>> {
    if forall|i: int| 0 <= i < s.len() ==> s[i] == '0' || s[i] == '1' {
        Some(Seq::new(s.len(), |i: int| s[i] == '1'))
    } else {
        None
    }
}

/// The width that the text in front of the quote spells: a decimal number
/// from 1 up to `2^32 - 1`.
pub open spec fn width_of(width_text: Seq<char>) -> Option<u32> {
    match number_of(width_text, 10) {
        Some(w) => if 1 <= w <= u32::MAX {
            Some(w as u32)
        } else {
            None
        },
        None => None,
    }
}

/// The literal with the given text in front of the quote, base character
/// behind it, and digits behind that.
///
/// The base is `b`, `d` or `h` in either case; where `expected` names a
/// base, it must be that one. Underscores among the digits do not count.
/// Decimal and hexadecimal digits are kept as they stand, however many
/// there are, and there must be at least one. The width is looked at
/// first, then the base, then the digits.
pub open spec fn decode_literal(
    width_text: Seq<char>,
    base: Option<char>,
    digit_text: Seq<char>,
    expected: Option<char>,
) -> Result<LiteralView, ParseError> {
    match width_of(width_text) {
        None => Err(ParseError::InvalidWidth),
        Some(width) => match base {
            None => Err(ParseError::InvalidLiteralBase),
            Some(b) => {
                let base = ascii_lower(b);
                let digits = without_underscores(digit_text);
                if expected is Some && expected->0 != base {
                    Err(ParseError::InvalidLiteralBase)
                } else if base == 'b' {
                    match binary_digits(digits) {
                        Some(bits) => Ok(LiteralView::Binary(bits, width)),
                        None => Err(ParseError::InvalidBinaryDigit),
                    }
                } else if base == 'd' {
                    match digit_run(digits, 10) {
                        Some(values) => Ok(LiteralView::Decimal(values, width)),
                        None => Err(ParseError::InvalidDecimalValue),
                    }
                } else if base == 'h' {
                    match digit_run(digits, 16) {
                        Some(values) => Ok(LiteralView::Hexadecimal(values, width)),
                        None => Err(ParseError::InvalidHexValue),
                    }
                } else {
                    Err(ParseError::InvalidLiteralBase)
                }
            },
        },
    }
}

/// The index of the first `'` at or after `from`; the length of `s` where
/// there is none.
pub open spec fn first_quote(s: Seq<char>, from: int) -> int
    decreases s.len() - from,
{
    if from < 0 || from >= s.len() {
        s.len() as int
    } else if s[from] == '\'' {
        from
    } else {
        first_quote(s, from + 1)
    }
}

/// The literal that the whole text `s` spells: `<width>'<base><digits>` with
/// exactly one quote.
pub open spec fn literal_of(s: Seq<char>, expected: Option<char>) -> Result<LiteralView, ParseError> {
    let quote = first_quote(s, 0);
    if quote >= s.len() || first_quote(s, quote + 1) < s.len() {
        Err(ParseError::MalformedLiteral)
    } else {
        decode_literal(
            s.subrange(0, quote),
            if quote + 1 < s.len() {
                Some(s[quote + 1])
            } else {
                None
            },
            if quote + 2 <= s.len() {
                s.subrange(quote + 2, s.len() as int)
            } else {
                Seq::empty()
            },
            expected,
        )
    }
}

pub proof fn lemma_first_quote(s: Seq<char>, from: int)
    requires
        0 <= from <= s.len(),
    ensures
        from <= first_quote(s, from) <= s.len(),
        first_quote(s, from) < s.len() ==> s[first_quote(s, from)] == '\'',
        forall|i: int| from <= i < first_quote(s, from) ==> s[i] != '\'',
    decreases s.len() - from,
{
    if from < s.len() && s[from] != '\'' {
        lemma_first_quote(s, from + 1);
    }
}

/// Binary digits spell the same number as bits and as text.
pub proof fn lemma_binary_digits_value(s: Seq<char>)
    requires
        binary_digits(s) is Some,
    ensures
        bits_value(binary_digits(s)->0) == digits_value(s, 2),
    decreases s.len(),
{
    let bits = binary_digits(s)->0;
    if s.len() > 0 {
        let front = s.drop_last();
        assert forall|i: int| 0 <= i < front.len() implies front[i] == '0' || front[i] == '1' by {
            assert(front[i] == s[i]);
        }
        lemma_binary_digits_value(front);
        assert(binary_digits(front)->0 =~= bits.drop_last());
        assert(s.last() == s[s.len() - 1]);
    }
}

/// Zeros in front of digits do not change the number that the digits spell.
pub proof fn lemma_leading_zeros(zeros: nat, s: Seq<char>, radix: nat)
    requires
        radix >= 2,
    ensures
        digits_value(Seq::new(zeros, |i: int| '0') + s, radix) == digits_value(s, radix),
    decreases zeros + s.len(),
{
    let z = Seq::new(zeros, |i: int| '0');
    if s.len() == 0 {
        assert(z + s =~= z);
        if zeros > 0 {
            let fewer = Seq::new((zeros - 1) as nat, |i: int| '0');
            assert(z.drop_last() =~= fewer);
            assert(z.last() == '0');
            assert(digit_of('0', radix) == Some(0nat));
            lemma_leading_zeros((zeros - 1) as nat, s, radix);
            assert(fewer + s =~= fewer);
            assert(digits_value(fewer, radix) == 0);
            assert(radix * 0 == 0);
        }
    } else {
        lemma_leading_zeros(zeros, s.drop_last(), radix);
        assert((z + s).drop_last() =~= z + s.drop_last());
        assert((z + s).last() == s.last());
    }
}

/// Text without underscores stays as it is when underscores are passed over.
pub proof fn lemma_nothing_to_strip(s: Seq<char>)
    requires
        forall|i: int| 0 <= i < s.len() ==> s[i] != '_',
    ensures
        without_underscores(s) == s,
    decreases s.len(),
{
    if s.len() > 0 {
        let front = s.drop_last();
        assert forall|i: int| 0 <= i < front.len() implies front[i] != '_' by {
            assert(front[i] == s[i]);
        }
        lemma_nothing_to_strip(front);
        assert(front.push(s.last()) =~= s);
    }
}

/// The text of a valid binary literal: a width, a quote, `b` or `B`, and
/// binary digits.
pub open spec fn binary_literal_text(width_text: Seq<char>, base: char, bit_text: Seq<char>) -> Seq<
    char,
> {
    width_text + seq!['\'', base] + bit_text
}

/// A valid binary literal decodes to the width written in front of the
/// quote and to the number that its digits spell in binary, however many
/// digits there are; zeros put in front of the digits change neither.
pub proof fn lemma_binary_literal(width_text: Seq<char>, base: char, bit_text: Seq<char>, zeros: nat)
    requires
        width_of(width_text) is Some,
        base == 'b' || base == 'B',
        forall|i: int| 0 <= i < bit_text.len() ==> bit_text[i] == '0' || bit_text[i] == '1',
    ensures
        literal_of(binary_literal_text(width_text, base, bit_text), Some('b')) is Ok,
        literal_of(binary_literal_text(width_text, base, bit_text), None) == literal_of(
            binary_literal_text(width_text, base, bit_text),
            Some('b'),
        ),
        literal_of(binary_literal_text(width_text, base, bit_text), Some('b'))->Ok_0.width()
            == width_of(width_text)->0,
        literal_of(binary_literal_text(width_text, base, bit_text), Some('b'))->Ok_0.magnitude()
            == digits_value(bit_text, 2),
        literal_of(
            binary_literal_text(width_text, base, Seq::new(zeros, |i: int| '0') + bit_text),
            Some('b'),
        ) is Ok,
        literal_of(
            binary_literal_text(width_text, base, Seq::new(zeros, |i: int| '0') + bit_text),
            Some('b'),
        )->Ok_0.width() == width_of(width_text)->0,
        literal_of(
            binary_literal_text(width_text, base, Seq::new(zeros, |i: int| '0') + bit_text),
            Some('b'),
        )->Ok_0.magnitude() == digits_value(bit_text, 2),
{
    lemma_binary_literal_once(width_text, base, bit_text);
    let padded = Seq::new(zeros, |i: int| '0') + bit_text;
    lemma_binary_literal_once(width_text, base, padded);
    lemma_leading_zeros(zeros, bit_text, 2);
}

/// The binary literal with the width `w` written in decimal decodes to the
/// width `w` and to the number that its digits spell, whatever the number
/// of digits and of zeros in front of them.
pub proof fn lemma_binary_literal_of_width(w: u32, base: char, bit_text: Seq<char>, zeros: nat)
    requires
        w >= 1,
        base == 'b' || base == 'B',
        forall|i: int| 0 <= i < bit_text.len() ==> bit_text[i] == '0' || bit_text[i] == '1',
    ensures
        literal_of(
            binary_literal_text(
                decimal_text(w as nat),
                base,
                Seq::new(zeros, |i: int| '0') + bit_text,
            ),
            Some('b'),
        ) is Ok,
        literal_of(
            binary_literal_text(
                decimal_text(w as nat),
                base,
                Seq::new(zeros, |i: int| '0') + bit_text,
            ),
            Some('b'),
        )->Ok_0.width() == w,
        literal_of(
            binary_literal_text(
                decimal_text(w as nat),
                base,
                Seq::new(zeros, |i: int| '0') + bit_text,
            ),
            Some('b'),
        )->Ok_0.magnitude() == digits_value(bit_text, 2),
{
    lemma_decimal_reads_back(w as nat);
    lemma_binary_literal(decimal_text(w as nat), base, bit_text, zeros);
}

proof fn lemma_binary_literal_once(width_text: Seq<char>, base: char, bit_text: Seq<char>)
    requires
        width_of(width_text) is Some,
        base == 'b' || base == 'B',
        forall|i: int| 0 <= i < bit_text.len() ==> bit_text[i] == '0' || bit_text[i] == '1',
    ensures
        literal_of(binary_literal_text(width_text, base, bit_text), Some('b')) == Ok::<
            LiteralView,
            ParseError,
        >(LiteralView::Binary(binary_digits(bit_text)->0, width_of(width_text)->0)),
        literal_of(binary_literal_text(width_text, base, bit_text), None) == literal_of(
            binary_literal_text(width_text, base, bit_text),
            Some('b'),
        ),
        bits_value(binary_digits(bit_text)->0) == digits_value(bit_text, 2),
{
    let s = binary_literal_text(width_text, base, bit_text);
    let q = width_text.len() as int;
    assert(all_digits(width_text, 10));
    assert forall|i: int| 0 <= i < q implies s[i] != '\'' by {
        assert(s[i] == width_text[i]);
        assert(digit_of(width_text[i], 10) is Some);
    }
    assert(s[q] == '\'');
    assert(s[q + 1] == base);
    lemma_first_quote(s, 0);
    assert(first_quote(s, 0) == q);
    assert forall|i: int| q + 1 <= i < s.len() implies s[i] != '\'' by {
        if i > q + 1 {
            assert(s[i] == bit_text[i - q - 2]);
        }
    }
    lemma_first_quote(s, q + 1);
    assert(first_quote(s, q + 1) == s.len());
    assert(s.subrange(0, q) =~= width_text);
    assert(s.subrange(q + 2, s.len() as int) =~= bit_text);
    lemma_nothing_to_strip(bit_text);
    lemma_binary_digits_value(bit_text);
}

/// A decimal or hexadecimal literal with at least one digit decodes,
/// however many digits it has: to the width in front of the quote, and to
/// the number that its digits spell, underscores passed over.
pub proof fn lemma_digits_literal(width_text: Seq<char>, base: char, digit_text: Seq<char>)
    requires
        width_of(width_text) is Some,
        ascii_lower(base) == 'd' || ascii_lower(base) == 'h',
        without_underscores(digit_text).len() > 0,
        all_digits(
            without_underscores(digit_text),
            if ascii_lower(base) == 'd' {
                10
            } else {
                16
            },
        ),
    ensures
        decode_literal(width_text, Some(base), digit_text, None) is Ok,
        decode_literal(width_text, Some(base), digit_text, None)->Ok_0.width() == width_of(
            width_text,
        )->0,
        decode_literal(width_text, Some(base), digit_text, None)->Ok_0.magnitude() == digits_value(
            without_underscores(digit_text),
            if ascii_lower(base) == 'd' {
                10
            } else {
                16
            },
        ),
{
    let digits = without_underscores(digit_text);
    if ascii_lower(base) == 'd' {
        lemma_digit_values_number(digits, 10);
    } else {
        lemma_digit_values_number(digits, 16);
    }
}

fn find_quote(chars: &Vec<char>, from: usize) -> (at: usize)
    requires
        from <= chars.len(),
    ensures
        at as int == first_quote(chars@, from as int),
        from <= at <= chars.len(),
{
    let mut i: usize = from;
    while i < chars.len() && chars[i] != '\''
        invariant
            from <= i <= chars.len(),
            first_quote(chars@, from as int) == first_quote(chars@, i as int),
        decreases chars.len() - i,
    {
        i += 1;
    }
    i
}

fn strip_underscores(chars: &Vec<char>, from: usize, to: usize) -> (out: Vec<char>)
    requires
        from <= to <= chars.len(),
    ensures
        out@ == without_underscores(chars@.subrange(from as int, to as int)),
{
    let ghost s = chars@.subrange(from as int, to as int);
    let mut out: Vec<char> = Vec::new();
    let mut i: usize = from;
    assert(s.subrange(0, 0) =~= Seq::<char>::empty());
    while i < to
        invariant
            from <= i <= to <= chars.len(),
            s == chars@.subrange(from as int, to as int),
            out@ == without_underscores(s.subrange(0, i - from)),
        decreases to - i,
    {
        assert(s.subrange(0, i - from + 1).drop_last() =~= s.subrange(0, i - from));
        assert(s.subrange(0, i - from + 1).last() == chars[i as int]);
        if chars[i] != '_' {
            out.push(chars[i]);
        }
        i += 1;
    }
    assert(s.subrange(0, to - from) =~= s);
    out
}

fn read_binary_digits(digits: &Vec<char>) -> (r: Option<Vec<bool>>)
    ensures
        match r {
            Some(bits) => binary_digits(digits@) == Some(bits@),
            None => binary_digits(digits@) is None,
        },
{
    let mut bits: Vec<bool> = Vec::new();
    let mut i: usize = 0;
    while i < digits.len()
        invariant
            i <= digits.len(),
            bits.len() == i,
            forall|j: int| 0 <= j < i ==> digits[j] == '0' || digits[j] == '1',
            forall|j: int| 0 <= j < i ==> bits[j] == (digits[j] == '1'),
        decreases digits.len() - i,
    {
        let c = digits[i];
        if c == '0' {
            bits.push(false);
        } else if c == '1' {
            bits.push(true);
        } else {
            return None;
        }
        i += 1;
    }
    assert(bits@ =~= Seq::new(digits@.len(), |i: int| digits@[i] == '1'));
    Some(bits)
}

/// Decodes the literal that stands in `chars[start..end]` with its quote at
/// index `quote`.
pub fn decode_literal_at(
    chars: &Vec<char>,
    start: usize,
    quote: usize,
    end: usize,
    expected: Option<char>,
) -> (r: Result<Literal, ParseError>)
    requires
        start <= quote < end <= chars.len(),
    ensures
        match r {
            Ok(lit) => decode_literal(
                chars@.subrange(start as int, quote as int),
                if quote + 1 < end {
                    Some(chars[quote + 1])
                } else {
                    None
                },
                if quote + 2 <= end {
                    chars@.subrange(quote + 2, end as int)
                } else {
                    Seq::empty()
                },
                expected,
            ) == Ok::<LiteralView, ParseError>(lit@),
            Err(e) => decode_literal(
                chars@.subrange(start as int, quote as int),
                if quote + 1 < end {
                    Some(chars[quote + 1])
                } else {
                    None
                },
                if quote + 2 <= end {
                    chars@.subrange(quote + 2, end as int)
                } else {
                    Seq::empty()
                },
                expected,
            ) == Err::<LiteralView, ParseError>(e),
        },
{
    let width: u32 = match parse_number(chars, start, quote, 10) {
        Some(w) => {
            if w < 1 || w > u32::MAX as u64 {
                return Err(ParseError::InvalidWidth);
            }
            w as u32
        },
        None => {
            return Err(ParseError::InvalidWidth);
        },
    };
    if quote + 1 >= end {
        return Err(ParseError::InvalidLiteralBase);
    }
    let base = to_ascii_lower(chars[quote + 1]);
    match expected {
        Some(wanted) => {
            if wanted != base {
                return Err(ParseError::InvalidLiteralBase);
            }
        },
        None => {},
    }
    let digits = strip_underscores(chars, quote + 2, end);
    assert(digits@.subrange(0, digits.len() as int) =~= digits@);
    if base == 'b' {
        match read_binary_digits(&digits) {
            Some(bits) => Ok(Literal::Binary(bits, width)),
            None => Err(ParseError::InvalidBinaryDigit),
        }
    } else if base == 'd' {
        match read_digits(&digits, 0, 10) {
            Some(values) => Ok(Literal::Decimal(values, width)),
            None => Err(ParseError::InvalidDecimalValue),
        }
    } else if base == 'h' {
        match read_digits(&digits, 0, 16) {
            Some(values) => Ok(Literal::Hexadecimal(values, width)),
            None => Err(ParseError::InvalidHexValue),
        }
    } else {
        Err(ParseError::InvalidLiteralBase)
    }
}

fn parse_literal_text(s: &str, expected: Option<char>) -> (r: Result<Literal, ParseError>)
    ensures
        match r {
            Ok(lit) => literal_of(s@, expected) == Ok::<LiteralView, ParseError>(lit@),
            Err(e) => literal_of(s@, expected) == Err::<LiteralView, ParseError>(e),
        },
{
    let chars = str_to_chars(s);
    let quote = find_quote(&chars, 0);
    if quote >= chars.len() {
        return Err(ParseError::MalformedLiteral);
    }
    let second = find_quote(&chars, quote + 1);
    if second < chars.len() {
        return Err(ParseError::MalformedLiteral);
    }
    decode_literal_at(&chars, 0, quote, chars.len(), expected)
}

/// Parses a sized literal of any base, as in `4'b0101`, `3'd2` or `5'h1A`.
pub fn parse_literal(s: &str) -> (r: Result<Literal, ParseError>)
    ensures
        match r {
            Ok(lit) => literal_of(s@, None) == Ok::<LiteralView, ParseError>(lit@),
            Err(e) => literal_of(s@, None) == Err::<LiteralView, ParseError>(e),
        },
{
    parse_literal_text(s, None)
}

/// Parses a binary literal, as in `4'b0101`.
///
/// The width is the number in front of the quote, whatever the number of
/// digits. Each digit is `0` or `1`; `x` and `z` are refused. Letters count
/// in either case, and underscores among the digits are passed over.
pub fn parse_binary_literal(s: &str) -> (r: Result<Literal, ParseError>)
    ensures
        match r {
            Ok(lit) => literal_of(s@, Some('b')) == Ok::<LiteralView, ParseError>(lit@),
            Err(e) => literal_of(s@, Some('b')) == Err::<LiteralView, ParseError>(e),
        },
{
    parse_literal_text(s, Some('b'))
}

/// Parses a decimal literal, as in `3'd2`. There may be any number of
/// digits, at least one; the magnitude is not bounded.
pub fn parse_decimal_literal(s: &str) -> (r: Result<Literal, ParseError>)
    ensures
        match r {
            Ok(lit) => literal_of(s@, Some('d')) == Ok::<LiteralView, ParseError>(lit@),
            Err(e) => literal_of(s@, Some('d')) == Err::<LiteralView, ParseError>(e),
        },
{
    parse_literal_text(s, Some('d'))
}

/// Parses a hexadecimal literal, as in `5'h1A`. There may be any number of
/// digits, at least one; the magnitude is not bounded.
pub fn parse_hex_literal(s: &str) -> (r: Result<Literal, ParseError>)
    ensures
        match r {
            Ok(lit) => literal_of(s@, Some('h')) == Ok::<LiteralView, ParseError>(lit@),
            Err(e) => literal_of(s@, Some('h')) == Err::<LiteralView, ParseError>(e),
        },
{
    parse_literal_text(s, Some('h'))
}

} // verus!
