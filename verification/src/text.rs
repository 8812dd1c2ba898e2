//! Characters, digits and numbers in text.

use vstd::prelude::*;
use vstd::string::*;

verus! {

/// The characters of a string, in order.
pub fn str_to_chars(s: &str) -> (chars: Vec<char>)
    ensures
        chars@ == s@,
{
    let mut chars: Vec<char> = Vec::new();
    for c in it: s.chars()
        invariant
            it.seq() == s@,
            chars@ == s@.subrange(0, it.index() as int),
    {
        chars.push(c);
        assert(chars@ =~= s@.subrange(0, it.index() + 1));
    }
    assert(chars@ =~= s@);
    chars
}

/// The lower-case form of an ASCII letter; any other character unchanged.
pub open spec fn ascii_lower(c: char) -> char {
    if 'A' <= c && c <= 'Z' {
        ((c as u8) + 32) as char
    } else {
        c
    }
}

/// The lower-case form of an ASCII letter; any other character unchanged.
pub fn to_ascii_lower(c: char) -> (r: char)
    ensures
        r == ascii_lower(c),
{
    if 'A' <= c && c <= 'Z' {
        ((c as u8) + 32) as char
    } else {
        c
    }
}

/// A sequence of characters with each ASCII letter in lower case.
pub open spec fn lower_text(s: Seq<char>) -> Seq<char> {
    Seq::new(s.len(), |i: int| ascii_lower(s[i]))
}

/// The value of a digit character in a radix up to 16, if it is one.
pub open spec fn digit_of(c: char, radix: nat) -> Option<nat> {
    let v: int = if '0' <= c && c <= '9' {
        c as int - '0' as int
    } else if 'a' <= c && c <= 'f' {
        c as int - 'a' as int + 10
    } else if 'A' <= c && c <= 'F' {
        c as int - 'A' as int + 10
    } else {
        16
    };
    if v < radix {
        Some(v as nat)
    } else {
        None
    }
}

/// The value of a digit character in a radix up to 16, if it is one.
pub fn char_digit(c: char, radix: u8) -> (r: Option<u8>)
    requires
        radix <= 16,
    ensures
        r is Some <==> digit_of(c, radix as nat) is Some,
        r is Some ==> r->0 as nat == digit_of(c, radix as nat)->0 && r->0 < radix,
{
    let v: u8 = if '0' <= c && c <= '9' {
        (c as u8) - ('0' as u8)
    } else if 'a' <= c && c <= 'f' {
        (c as u8) - ('a' as u8) + 10
    } else if 'A' <= c && c <= 'F' {
        (c as u8) - ('A' as u8) + 10
    } else {
        16
    };
    if v < radix {
        Some(v)
    } else {
        None
    }
}

/// Whether every character is a digit in the radix.
pub open spec fn all_digits(s: Seq<char>, radix: nat) -> bool {
    forall|i: int| 0 <= i < s.len() ==> (#[trigger] digit_of(s[i], radix)) is Some
}

/// The number that digits spell in the radix, most significant digit first.
pub open spec fn digits_value(s: Seq<char>, radix: nat) -> nat
    decreases s.len(),
{
    if s.len() == 0 {
        0
    } else {
        radix * digits_value(s.drop_last(), radix) + match digit_of(s.last(), radix) {
            Some(d) => d,
            None => 0,
        }
    }
}

/// The number that a non-empty run of digits spells, if it fits in 64 bits.
pub open spec fn number_of(s: Seq<char>, radix: nat) -> Option<u64> {
    if s.len() > 0 && all_digits(s, radix) && digits_value(s, radix) <= u64::MAX {
        Some(digits_value(s, radix) as u64)
    } else {
        None
    }
}

/// A longer run of digits spells no smaller a number than its beginning.
pub proof fn lemma_digits_value_prefix(s: Seq<char>, radix: nat, k: int)
    requires
        0 <= k <= s.len(),
        radix >= 1,
    ensures
        digits_value(s.subrange(0, k), radix) <= digits_value(s, radix),
    decreases s.len(),
{
    if k == s.len() {
        assert(s.subrange(0, k) =~= s);
    } else {
        lemma_digits_value_prefix(s.drop_last(), radix, k);
        assert(s.drop_last().subrange(0, k) =~= s.subrange(0, k));
        let v = digits_value(s.drop_last(), radix);
        assert(v <= radix * v) by (nonlinear_arith)
            requires
                radix >= 1,
        ;
    }
}

/// Reads `chars[from..to]` as a number in the radix: a non-empty run of
/// digits whose value fits in 64 bits.
pub fn parse_number(chars: &Vec<char>, from: usize, to: usize, radix: u8) -> (r: Option<u64>)
    requires
        from <= to <= chars.len(),
        2 <= radix <= 16,
    ensures
        r == number_of(chars@.subrange(from as int, to as int), radix as nat),
{
    let ghost s = chars@.subrange(from as int, to as int);
    if from == to {
        return None;
    }
    let mut acc: u64 = 0;
    let mut i: usize = from;
    while i < to
        invariant
            from <= i <= to <= chars.len(),
            2 <= radix <= 16,
            s == chars@.subrange(from as int, to as int),
            all_digits(s.subrange(0, i - from), radix as nat),
            acc as nat == digits_value(s.subrange(0, i - from), radix as nat),
        decreases to - i,
    {
        let ghost done = s.subrange(0, i - from);
        let ghost next = s.subrange(0, i - from + 1);
        assert(next.drop_last() =~= done);
        assert(next.last() == chars@[i as int]);
        match char_digit(chars[i], radix) {
            None => {
                assert(digit_of(s[i - from], radix as nat) is None);
                return None;
            },
            Some(d) => {
                proof {
                    lemma_digits_value_prefix(s, radix as nat, i - from + 1);
                }
                let limit: u64 = (u64::MAX - d as u64) / (radix as u64);
                if acc > limit {
                    assert(radix as nat * acc as nat + d as nat > u64::MAX) by (nonlinear_arith)
                        requires
                            acc > limit,
                            limit as int == (u64::MAX as int - d as int) / (radix as int),
                            2 <= radix <= 16,
                            d < 16,
                    ;
                    return None;
                }
                assert(acc as int * radix as int + d as int <= u64::MAX && acc as int * radix as int
                    == radix as nat * acc as nat && acc as int * radix as int >= 0)
                    by (nonlinear_arith)
                    requires
                        acc <= limit,
                        limit as int == (u64::MAX as int - d as int) / (radix as int),
                        2 <= radix <= 16,
                        d < 16,
                ;
                acc = acc * (radix as u64) + d as u64;
                assert forall|j: int| 0 <= j < next.len() implies (#[trigger] digit_of(
                    next[j],
                    radix as nat,
                )) is Some by {
                    if j < done.len() {
                        assert(next[j] == done[j]);
                    }
                }
                i += 1;
            },
        }
    }
    assert(s.subrange(0, to - from) =~= s);
    Some(acc)
}

/// The number that digits spell in the radix, most significant digit first;
/// there is no bound on it.
pub open spec fn digits_number(digits: Seq<u8>, radix: nat) -> nat
    decreases digits.len(),
{
    if digits.len() == 0 {
        0
    } else {
        radix * digits_number(digits.drop_last(), radix) + digits.last() as nat
    }
}

/// The values of digit characters, one for one.
pub open spec fn digit_values(s: Seq<char>, radix: nat) -> Seq<u8> {
    Seq::new(
        s.len(),
        |i: int|
            match digit_of(s[i], radix) {
                Some(d) => d as u8,
                None => 0u8,
            },
    )
}

/// The digits of a non-empty run of digit characters of the radix; `None`
/// for an empty run and for a run with any other character in it.
pub open spec fn digit_run(s: Seq<char>, radix: nat) -> Option<Seq<u8>> {
    if s.len() > 0 && all_digits(s, radix) {
        Some(digit_values(s, radix))
    } else {
        None
    }
}

/// The values of digit characters spell the number that the characters
/// spell.
pub proof fn lemma_digit_values_number(s: Seq<char>, radix: nat)
    requires
        all_digits(s, radix),
        radix <= 16,
    ensures
        digits_number(digit_values(s, radix), radix) == digits_value(s, radix),
    decreases s.len(),
{
    if s.len() > 0 {
        let front = s.drop_last();
        assert forall|i: int| 0 <= i < front.len() implies (#[trigger] digit_of(front[i], radix))
            is Some by {
            assert(front[i] == s[i]);
        }
        lemma_digit_values_number(front, radix);
        assert(digit_values(s, radix).drop_last() =~= digit_values(front, radix));
        assert(digit_of(s[s.len() - 1], radix) is Some);
        assert(s.last() == s[s.len() - 1]);
    }
}

/// Reads a non-empty run of digits of the radix, however long.
pub fn read_digits(chars: &Vec<char>, from: usize, radix: u8) -> (r: Option<Vec<u8>>)
    requires
        from <= chars.len(),
        2 <= radix <= 16,
    ensures
        match r {
            Some(digits) => digit_run(chars@.subrange(from as int, chars.len() as int), radix as nat)
                == Some(digits@),
            None => digit_run(chars@.subrange(from as int, chars.len() as int), radix as nat)
                is None,
        },
{
    let ghost s = chars@.subrange(from as int, chars.len() as int);
    if from == chars.len() {
        return None;
    }
    let mut digits: Vec<u8> = Vec::new();
    let mut i: usize = from;
    while i < chars.len()
        invariant
            from <= i <= chars.len(),
            2 <= radix <= 16,
            s == chars@.subrange(from as int, chars.len() as int),
            digits.len() == i - from,
            forall|j: int| 0 <= j < i - from ==> (#[trigger] digit_of(s[j], radix as nat)) is Some,
            forall|j: int|
                0 <= j < i - from ==> digits[j] as nat == (#[trigger] digit_of(
                    s[j],
                    radix as nat,
                ))->0,
        decreases chars.len() - i,
    {
        assert(s[i - from] == chars[i as int]);
        match char_digit(chars[i], radix) {
            None => {
                assert(digit_of(s[i - from], radix as nat) is None);
                return None;
            },
            Some(d) => {
                digits.push(d);
            },
        }
        i += 1;
    }
    assert(digits@ =~= digit_values(s, radix as nat));
    Some(digits)
}

/// The character of a digit below 16, letters in lower case.
pub open spec fn digit_char(d: nat) -> char {
    if d < 10 {
        (d + 48) as char
    } else {
        (d + 87) as char
    }
}

/// A number in decimal, without leading zeros.
pub open spec fn decimal_text(n: nat) -> Seq<char>
    decreases n,
{
    if n < 10 {
        seq![digit_char(n)]
    } else {
        decimal_text(n / 10).push(digit_char(n % 10))
    }
}

/// A number written in decimal reads back as the number.
pub proof fn lemma_decimal_reads_back(n: nat)
    ensures
        decimal_text(n).len() > 0,
        all_digits(decimal_text(n), 10),
        digits_value(decimal_text(n), 10) == n,
        n <= u64::MAX ==> number_of(decimal_text(n), 10) == Some(n as u64),
    decreases n,
{
    let text = decimal_text(n);
    if n < 10 {
        assert(text.len() == 1);
        assert(text[0] == digit_char(n));
        assert(digit_of(digit_char(n), 10) == Some(n));
        assert(text.drop_last() =~= Seq::<char>::empty());
        assert(digits_value(text.drop_last(), 10) == 0);
        assert(text.last() == digit_char(n));
    } else {
        let front = decimal_text(n / 10);
        lemma_decimal_reads_back(n / 10);
        assert(text.drop_last() =~= front);
        assert(text.last() == digit_char(n % 10));
        assert(digit_of(digit_char(n % 10), 10) == Some(n % 10));
        assert forall|i: int| 0 <= i < text.len() implies (#[trigger] digit_of(text[i], 10))
            is Some by {
            if i < front.len() {
                assert(text[i] == front[i]);
            }
        }
    }
}

/// The one-character string of a digit below 16, letters in lower case.
pub fn digit_str(d: u8) -> (s: &'static str)
    requires
        d < 16,
    ensures
        s@ == seq![digit_char(d as nat)],
{
    proof {
        reveal_strlit("0");
        reveal_strlit("1");
        reveal_strlit("2");
        reveal_strlit("3");
        reveal_strlit("4");
        reveal_strlit("5");
        reveal_strlit("6");
        reveal_strlit("7");
        reveal_strlit("8");
        reveal_strlit("9");
        reveal_strlit("a");
        reveal_strlit("b");
        reveal_strlit("c");
        reveal_strlit("d");
        reveal_strlit("e");
        reveal_strlit("f");
    }
    let s = match d {
        0 => "0",
        1 => "1",
        2 => "2",
        3 => "3",
        4 => "4",
        5 => "5",
        6 => "6",
        7 => "7",
        8 => "8",
        9 => "9",
        10 => "a",
        11 => "b",
        12 => "c",
        13 => "d",
        14 => "e",
        _ => "f",
    };
    assert(s@ =~= seq![digit_char(d as nat)]);
    s
}

/// Appends a number in decimal to `out`.
pub fn append_decimal(out: &mut String, n: u128)
    ensures
        final(out)@ == old(out)@ + decimal_text(n as nat),
    decreases n,
{
    if n >= 10 {
        append_decimal(out, n / 10);
    }
    out.append(digit_str((n % 10) as u8));
    assert(out@ =~= old(out)@ + decimal_text(n as nat));
}

} // verus!
