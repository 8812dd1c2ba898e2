//! Writing tokens as text, and reading the text back.
//!
//! Every token has a text, and the texts of tokens, a blank behind each,
//! read back as the tokens. With the spelling of conditions in tokens this
//! gives every condition a text that parses to it.

use vstd::prelude::*;
use crate::ast::{ConditionView, LiteralView};
use crate::errors::ParseError;
use crate::lexer::{
    is_digit,
    is_ident_char,
    is_ident_start,
    is_space,
    lemma_run_end,
    lex_from,
    past_at,
    path_end,
    run_end,
    token_at,
    tokens_of,
    TokenView,
};
use crate::literal::{
    binary_digits,
    decode_literal,
    lemma_nothing_to_strip,
    width_of,
};
use crate::parser::parse_text;
use crate::spelling::{group, lemma_spelling_reads_back, spell, spellable};
use crate::text::{
    all_digits,
    decimal_text,
    digit_char,
    digit_of,
    digit_run,
    digit_values,
    lemma_decimal_reads_back,
};

verus! {

/// Bits as binary digits.
pub open spec fn bit_text(bits: Seq<bool>) -> Seq<char> {
    Seq::new(
        bits.len(),
        |i: int|
            if bits[i] {
                '1'
            } else {
                '0'
            },
    )
}

/// Digits as characters, letters in lower case.
pub open spec fn digits_text(digits: Seq<u8>) -> Seq<char> {
    Seq::new(digits.len(), |i: int| digit_char(digits[i] as nat))
}

/// Whether the digits are digits of the radix, and at least one.
pub open spec fn digits_of_radix(digits: Seq<u8>, radix: nat) -> bool {
    digits.len() > 0 && forall|i: int| 0 <= i < digits.len() ==> (#[trigger] digits[i]) < radix
}

/// Digits written as characters read back as the digits.
pub proof fn lemma_digits_read_back(digits: Seq<u8>, radix: nat)
    requires
        digits_of_radix(digits, radix),
        radix <= 16,
    ensures
        all_digits(digits_text(digits), radix),
        digit_run(digits_text(digits), radix) == Some(digits),
{
    let text = digits_text(digits);
    assert forall|i: int| 0 <= i < text.len() implies (#[trigger] digit_of(text[i], radix))
        == Some(digits[i] as nat) by {
        assert(digits[i] < radix);
        assert(text[i] == digit_char(digits[i] as nat));
    }
    assert(digit_values(text, radix) =~= digits);
}

/// Whether every character is a letter, a digit or `_`, and none is `_`.
pub open spec fn plain_word(s: Seq<char>) -> bool {
    forall|i: int| 0 <= i < s.len() ==> is_ident_char(#[trigger] s[i]) && s[i] != '_'
}

/// Whether every character is a decimal digit.
pub open spec fn plain_digits(s: Seq<char>) -> bool {
    forall|i: int| 0 <= i < s.len() ==> is_digit(#[trigger] s[i])
}

/// Digits of a radix up to 16 are letters and digits.
pub proof fn lemma_digits_are_plain(s: Seq<char>, radix: nat)
    requires
        all_digits(s, radix),
        radix <= 16,
    ensures
        plain_word(s),
        radix <= 10 ==> plain_digits(s),
{
    assert forall|i: int| 0 <= i < s.len() implies is_ident_char(#[trigger] s[i]) && s[i] != '_'
        && (radix <= 10 ==> is_digit(s[i])) by {
        assert(digit_of(s[i], radix) is Some);
    }
}

/// Whether `part` stands in `s` at `pos`.
pub open spec fn text_at(s: Seq<char>, pos: int, part: Seq<char>) -> bool {
    0 <= pos && pos + part.len() <= s.len() && s.subrange(pos, pos + part.len()) == part
}

pub proof fn lemma_text_at(s: Seq<char>, pos: int, part: Seq<char>)
    requires
        text_at(s, pos, part),
    ensures
        forall|i: int| 0 <= i < part.len() ==> s[pos + i] == part[i],
{
    assert forall|i: int| 0 <= i < part.len() implies s[pos + i] == part[i] by {
        assert(s.subrange(pos, pos + part.len())[i] == s[pos + i]);
    }
}

pub proof fn lemma_text_part(s: Seq<char>, pos: int, whole: Seq<char>, start: int, part: Seq<char>)
    requires
        text_at(s, pos, whole),
        0 <= start,
        start + part.len() <= whole.len(),
        whole.subrange(start, start + part.len()) == part,
    ensures
        text_at(s, pos + start, part),
{
    lemma_text_at(s, pos, whole);
    assert(s.subrange(pos + start, pos + start + part.len()) =~= part) by {
        assert forall|i: int| 0 <= i < part.len() implies s.subrange(
            pos + start,
            pos + start + part.len(),
        )[i] == part[i] by {
            assert(whole.subrange(start, start + part.len())[i] == whole[start + i]);
        }
    }
}

/// A run that stands in a text, with nothing of its kind behind it, is the
/// longest run from its start.
pub proof fn lemma_run_over(s: Seq<char>, pos: int, run: Seq<char>, digits_only: bool)
    requires
        text_at(s, pos, run),
        if digits_only {
            plain_digits(run)
        } else {
            forall|i: int| 0 <= i < run.len() ==> is_ident_char(#[trigger] run[i])
        },
        pos + run.len() < s.len() ==> !(if digits_only {
            is_digit(s[pos + run.len()])
        } else {
            is_ident_char(s[pos + run.len()])
        }),
    ensures
        run_end(s, pos, digits_only) == pos + run.len(),
    decreases run.len(),
{
    lemma_text_at(s, pos, run);
    if run.len() > 0 {
        let rest = run.drop_first();
        assert(run.subrange(1, 1 + rest.len() as int) =~= rest);
        lemma_text_part(s, pos, run, 1, rest);
        assert forall|i: int| 0 <= i < rest.len() implies (if digits_only {
            is_digit(#[trigger] rest[i])
        } else {
            is_ident_char(rest[i])
        }) by {
            assert(rest[i] == run[i + 1]);
        }
        assert(s[pos] == run[0]);
        lemma_run_over(s, pos + 1, rest, digits_only);
    }
}

/// Whether a text is a dotted path: identifiers with single dots between
/// them.
pub open spec fn is_path(p: Seq<char>) -> bool {
    p.len() > 0 && is_ident_start(p[0]) && path_end(p, 0) == p.len()
}

/// Whether the character behind a text that stands at `pos`, if there is
/// one, neither continues an identifier nor is a dot.
pub open spec fn ends_word(s: Seq<char>, at: int) -> bool {
    0 <= at < s.len() ==> !is_ident_char(s[at]) && s[at] != '.'
}

proof fn lemma_run_shift(s: Seq<char>, pos: int, p: Seq<char>, k: int)
    requires
        text_at(s, pos, p),
        0 <= k <= p.len(),
        ends_word(s, pos + p.len()),
    ensures
        run_end(s, pos + k, false) == pos + run_end(p, k, false),
    decreases p.len() - k,
{
    lemma_text_at(s, pos, p);
    if k < p.len() {
        assert(s[pos + k] == p[k]);
        if is_ident_char(p[k]) {
            lemma_run_shift(s, pos, p, k + 1);
        }
    }
}

proof fn lemma_path_shift(s: Seq<char>, pos: int, p: Seq<char>, k: int)
    requires
        text_at(s, pos, p),
        0 <= k <= p.len(),
        ends_word(s, pos + p.len()),
    ensures
        path_end(s, pos + k) == pos + path_end(p, k),
    decreases p.len() - k,
{
    lemma_text_at(s, pos, p);
    lemma_run_shift(s, pos, p, k);
    lemma_run_end(p, k, false);
    let e = run_end(p, k, false);
    if e + 1 < p.len() {
        assert(s[pos + e] == p[e]);
        assert(s[pos + e + 1] == p[e + 1]);
        if p[e] == '.' && is_ident_start(p[e + 1]) {
            lemma_path_shift(s, pos, p, e + 1);
        }
    } else if e < p.len() {
        assert(s[pos + e] == p[e]);
    }
}

/// The text of a literal: the width in decimal, the quote, the base in
/// lower case, and the digits.
pub open spec fn literal_text(lit: LiteralView) -> Seq<char> {
    match lit {
        LiteralView::Binary(bits, width) => decimal_text(width as nat) + seq!['\'', 'b']
            + bit_text(bits),
        LiteralView::Decimal(digits, width) => decimal_text(width as nat) + seq!['\'', 'd']
            + digits_text(digits),
        LiteralView::Hexadecimal(digits, width) => decimal_text(width as nat) + seq!['\'', 'h']
            + digits_text(digits),
    }
}

/// The text of a token.
pub open spec fn token_text(token: TokenView) -> Seq<char> {
    match token {
        TokenView::OrOr => seq!['|', '|'],
        TokenView::AndAnd => seq!['&', '&'],
        TokenView::EqEq => seq!['=', '='],
        TokenView::NotEq => seq!['!', '='],
        TokenView::Pipe => seq!['|'],
        TokenView::Caret => seq!['^'],
        TokenView::Amp => seq!['&'],
        TokenView::Bang => seq!['!'],
        TokenView::Tilde => seq!['~'],
        TokenView::LParen => seq!['('],
        TokenView::RParen => seq![')'],
        TokenView::LBracket => seq!['['],
        TokenView::RBracket => seq![']'],
        TokenView::Colon => seq![':'],
        TokenView::Past => seq!['$', 'p', 'a', 's', 't'],
        TokenView::Number(n) => decimal_text(n as nat),
        TokenView::Literal(lit) => literal_text(lit),
        TokenView::Path(path) => path,
    }
}

/// Whether a token can stand in a text: a path is a dotted path, and a
/// literal is one that can stand in a text.
pub open spec fn writable(token: TokenView) -> bool {
    match token {
        TokenView::Literal(lit) => writable_literal(lit),
        TokenView::Path(path) => is_path(path),
        _ => true,
    }
}

/// What is asked of a token's text that is read: it stands at `pos`, and a
/// blank stands behind it.
pub open spec fn written_at(s: Seq<char>, pos: int, token: TokenView) -> bool {
    &&& writable(token)
    &&& text_at(s, pos, token_text(token))
    &&& pos + token_text(token).len() < s.len()
    &&& s[pos + token_text(token).len()] == ' '
}

/// What reading a token's text gives: the token, and the place behind the
/// text.
pub open spec fn token_reads_back(s: Seq<char>, pos: int, token: TokenView) -> bool {
    token_at(s, pos) == Ok::<(TokenView, int), ParseError>(
        (token, pos + token_text(token).len()),
    )
}

proof fn lemma_mark_reads_back(s: Seq<char>, pos: int, token: TokenView)
    requires
        written_at(s, pos, token),
        !(token is Number) && !(token is Literal) && !(token is Path),
    ensures
        token_reads_back(s, pos, token),
{
    lemma_text_at(s, pos, token_text(token));
    let text = token_text(token);
    assert(s[pos] == text[0]);
    if text.len() > 1 {
        assert(s[pos + 1] == text[1]);
    }
    if token is Past {
        assert(s[pos + 2] == text[2]);
        assert(s[pos + 3] == text[3]);
        assert(s[pos + 4] == text[4]);
        assert(past_at(s, pos));
    }
}

proof fn lemma_number_reads_back(s: Seq<char>, pos: int, n: u32)
    requires
        written_at(s, pos, TokenView::Number(n)),
    ensures
        token_reads_back(s, pos, TokenView::Number(n)),
{
    let text = decimal_text(n as nat);
    lemma_decimal_reads_back(n as nat);
    lemma_digits_are_plain(text, 10);
    lemma_text_at(s, pos, text);
    lemma_run_over(s, pos, text, true);
    assert(s[pos] == text[0]);
    assert(is_digit(text[0]));
    assert(s.subrange(pos, pos + text.len()) == text);
}

proof fn lemma_path_reads_back(s: Seq<char>, pos: int, path: Seq<char>)
    requires
        written_at(s, pos, TokenView::Path(path)),
    ensures
        token_reads_back(s, pos, TokenView::Path(path)),
{
    lemma_text_at(s, pos, path);
    assert(s[pos] == path[0]);
    lemma_path_shift(s, pos, path, 0);
}

/// The digits of a literal, as its text has them.
pub open spec fn literal_digits(lit: LiteralView) -> Seq<char> {
    match lit {
        LiteralView::Binary(bits, _) => bit_text(bits),
        LiteralView::Decimal(digits, _) => digits_text(digits),
        LiteralView::Hexadecimal(digits, _) => digits_text(digits),
    }
}

/// The base character of a literal, as its text has it.
pub open spec fn literal_base(lit: LiteralView) -> char {
    match lit {
        LiteralView::Binary(_, _) => 'b',
        LiteralView::Decimal(_, _) => 'd',
        LiteralView::Hexadecimal(_, _) => 'h',
    }
}

/// Whether a literal can stand in a text: it is at least one bit wide, and
/// its digits are digits of its base, at least one.
pub open spec fn writable_literal(lit: LiteralView) -> bool {
    lit.width() >= 1 && match lit {
        LiteralView::Binary(_, _) => true,
        LiteralView::Decimal(digits, _) => digits_of_radix(digits, 10),
        LiteralView::Hexadecimal(digits, _) => digits_of_radix(digits, 16),
    }
}

/// The parts of a literal's text decode to the literal.
proof fn lemma_literal_decodes(lit: LiteralView)
    requires
        writable_literal(lit),
    ensures
        decode_literal(
            decimal_text(lit.width() as nat),
            Some(literal_base(lit)),
            literal_digits(lit),
            None,
        ) == Ok::<LiteralView, ParseError>(lit),
        plain_word(literal_digits(lit)),
        plain_digits(decimal_text(lit.width() as nat)),
        decimal_text(lit.width() as nat).len() > 0,
{
    let digits = literal_digits(lit);
    lemma_decimal_reads_back(lit.width() as nat);
    lemma_digits_are_plain(decimal_text(lit.width() as nat), 10);
    assert(width_of(decimal_text(lit.width() as nat)) == Some(lit.width()));
    match lit {
        LiteralView::Binary(bits, _) => {
            assert(plain_word(digits));
            assert(binary_digits(digits) == Some(bits)) by {
                assert(binary_digits(digits)->0 =~= bits);
            }
        },
        LiteralView::Decimal(values, _) => {
            lemma_digits_read_back(values, 10);
            lemma_digits_are_plain(digits, 10);
        },
        LiteralView::Hexadecimal(values, _) => {
            lemma_digits_read_back(values, 16);
            lemma_digits_are_plain(digits, 16);
        },
    }
    assert forall|i: int| 0 <= i < digits.len() implies digits[i] != '_' by {
        assert(is_ident_char(digits[i]) && digits[i] != '_');
    }
    lemma_nothing_to_strip(digits);
}

proof fn lemma_literal_reads_back(s: Seq<char>, pos: int, lit: LiteralView)
    requires
        written_at(s, pos, TokenView::Literal(lit)),
    ensures
        token_reads_back(s, pos, TokenView::Literal(lit)),
{
    let text = literal_text(lit);
    let width_text = decimal_text(lit.width() as nat);
    let digits = literal_digits(lit);
    let w = width_text.len() as int;
    let d = digits.len() as int;
    lemma_literal_decodes(lit);
    assert(text == width_text + seq!['\'', literal_base(lit)] + digits);
    assert(text.len() == w + 2 + d);
    lemma_text_at(s, pos, text);
    assert(text.subrange(0, w) =~= width_text);
    assert(text.subrange(w + 2, w + 2 + d) =~= digits);
    lemma_text_part(s, pos, text, 0, width_text);
    lemma_text_part(s, pos, text, w + 2, digits);
    assert(s[pos] == text[0]);
    assert(text[0] == width_text[0]);
    assert(is_digit(width_text[0]));
    assert(s[pos + w] == text[w]);
    assert(s[pos + w + 1] == text[w + 1]);
    assert(text[w] == '\'');
    assert(text[w + 1] == literal_base(lit));
    lemma_run_over(s, pos, width_text, true);
    assert forall|i: int| 0 <= i < digits.len() implies is_ident_char(#[trigger] digits[i]) by {
        assert(is_ident_char(digits[i]) && digits[i] != '_');
    }
    lemma_run_over(s, pos + w + 2, digits, false);
    let end = run_end(s, pos, true);
    let stop = run_end(s, end + 2, false);
    assert(end == pos + w);
    assert(stop == pos + w + 2 + d);
    assert(s.subrange(pos, end) == width_text);
    assert(s.subrange(end + 2, stop) == digits);
}

/// The text of a token that can stand in a text, with a blank behind it,
/// reads as the token.
pub proof fn lemma_token_reads_back(s: Seq<char>, pos: int, token: TokenView)
    requires
        written_at(s, pos, token),
    ensures
        token_reads_back(s, pos, token),
        token_text(token).len() > 0,
        !is_space(s[pos]),
{
    lemma_text_at(s, pos, token_text(token));
    match token {
        TokenView::Number(n) => {
            lemma_decimal_reads_back(n as nat);
            lemma_digits_are_plain(decimal_text(n as nat), 10);
            lemma_number_reads_back(s, pos, n);
            assert(s[pos] == decimal_text(n as nat)[0]);
            assert(is_digit(decimal_text(n as nat)[0]));
        },
        TokenView::Literal(lit) => {
            lemma_literal_decodes(lit);
            lemma_literal_reads_back(s, pos, lit);
            let width_text = decimal_text(lit.width() as nat);
            assert(literal_text(lit)[0] == width_text[0]);
            assert(s[pos] == literal_text(lit)[0]);
            assert(is_digit(width_text[0]));
        },
        TokenView::Path(path) => {
            lemma_path_reads_back(s, pos, path);
            assert(s[pos] == path[0]);
        },
        _ => {
            lemma_mark_reads_back(s, pos, token);
            assert(s[pos] == token_text(token)[0]);
        },
    }
}

/// The text of tokens: the text of each token with a blank behind it.
pub open spec fn tokens_text(tokens: Seq<TokenView>) -> Seq<char>
    decreases tokens.len(),
{
    if tokens.len() == 0 {
        Seq::empty()
    } else {
        token_text(tokens[0]) + seq![' '] + tokens_text(tokens.drop_first())
    }
}

/// Whether every token can stand in a text.
pub open spec fn all_writable(tokens: Seq<TokenView>) -> bool {
    forall|i: int| 0 <= i < tokens.len() ==> writable(#[trigger] tokens[i])
}

proof fn lemma_lex_reads_back(s: Seq<char>, pos: int, tokens: Seq<TokenView>)
    requires
        all_writable(tokens),
        0 <= pos <= s.len(),
        s.subrange(pos, s.len() as int) == tokens_text(tokens),
    ensures
        lex_from(s, pos) == Ok::<Seq<TokenView>, ParseError>(tokens),
    decreases tokens.len(),
{
    if tokens.len() == 0 {
        assert(tokens =~= Seq::<TokenView>::empty());
    } else {
        let first = tokens[0];
        let rest = tokens.drop_first();
        let text = token_text(first);
        let n = text.len() as int;
        let tail = s.subrange(pos, s.len() as int);
        assert(tail == text + seq![' '] + tokens_text(rest));
        assert(tail.len() == n + 1 + tokens_text(rest).len());
        assert(s.subrange(pos, pos + n) =~= text) by {
            assert forall|i: int| 0 <= i < n implies s.subrange(pos, pos + n)[i] == text[i] by {
                assert(tail[i] == s[pos + i]);
            }
        }
        assert(s[pos + n] == tail[n]);
        assert(tail[n] == ' ');
        assert(writable(first));
        lemma_token_reads_back(s, pos, first);
        assert(s.subrange(pos + n + 1, s.len() as int) =~= tokens_text(rest)) by {
            assert forall|i: int| 0 <= i < tokens_text(rest).len() implies s.subrange(
                pos + n + 1,
                s.len() as int,
            )[i] == tokens_text(rest)[i] by {
                assert(tail[n + 1 + i] == s[pos + n + 1 + i]);
            }
        }
        assert forall|i: int| 0 <= i < rest.len() implies writable(#[trigger] rest[i]) by {
            assert(rest[i] == tokens[i + 1]);
        }
        lemma_lex_reads_back(s, pos + n + 1, rest);
        assert(lex_from(s, pos + n) == lex_from(s, pos + n + 1));
        assert(seq![first] + rest =~= tokens);
    }
}

/// The text of tokens that can stand in a text reads back as the tokens.
pub proof fn lemma_tokens_read_back(tokens: Seq<TokenView>)
    requires
        all_writable(tokens),
    ensures
        tokens_of(tokens_text(tokens)) == Ok::<Seq<TokenView>, ParseError>(tokens),
{
    let s = tokens_text(tokens);
    assert(s.subrange(0, s.len() as int) =~= s);
    lemma_lex_reads_back(s, 0, tokens);
}

/// Whether a condition can be written as text: every path is a dotted
/// path, every bit range has both of its bounds, and every literal is at
/// least one bit wide and has digits of its base.
pub open spec fn writable_condition(c: ConditionView) -> bool
    decreases c,
{
    match c {
        ConditionView::And(l, r) => writable_condition(*l) && writable_condition(*r),
        ConditionView::Or(l, r) => writable_condition(*l) && writable_condition(*r),
        ConditionView::Not(e) => writable_condition(*e),
        ConditionView::BitwiseNot(e) => writable_condition(*e),
        ConditionView::Signal(path) => is_path(path),
        ConditionView::BitExtract(path, msb, lsb) => is_path(path) && msb is Some && lsb is Some,
        ConditionView::Eq(l, r) => writable_condition(*l) && writable_condition(*r),
        ConditionView::Neq(l, r) => writable_condition(*l) && writable_condition(*r),
        ConditionView::BitwiseAnd(l, r) => writable_condition(*l) && writable_condition(*r),
        ConditionView::BitwiseOr(l, r) => writable_condition(*l) && writable_condition(*r),
        ConditionView::BitwiseXor(l, r) => writable_condition(*l) && writable_condition(*r),
        ConditionView::Literal(lit) => writable_literal(lit),
        ConditionView::Past(e) => writable_condition(*e),
    }
}

/// The text of a condition: its spelling in tokens, written out.
pub open spec fn condition_text(c: ConditionView) -> Seq<char> {
    tokens_text(spell(c))
}

proof fn lemma_writable_joined(a: Seq<TokenView>, b: Seq<TokenView>)
    requires
        all_writable(a),
        all_writable(b),
    ensures
        all_writable(a + b),
{
    assert forall|i: int| 0 <= i < (a + b).len() implies writable(#[trigger] (a + b)[i]) by {
        if i < a.len() {
            assert((a + b)[i] == a[i]);
        } else {
            assert((a + b)[i] == b[i - a.len()]);
        }
    }
}

proof fn lemma_writable_group(inner: Seq<TokenView>)
    requires
        all_writable(inner),
    ensures
        all_writable(group(inner)),
{
    lemma_writable_joined(seq![TokenView::LParen], inner);
    lemma_writable_joined(seq![TokenView::LParen] + inner, seq![TokenView::RParen]);
}

proof fn lemma_writable_binary(l: Seq<TokenView>, operator: TokenView, r: Seq<TokenView>)
    requires
        all_writable(l),
        all_writable(r),
        writable(operator),
    ensures
        all_writable(group(l) + seq![operator] + group(r)),
{
    lemma_writable_group(l);
    lemma_writable_group(r);
    lemma_writable_joined(group(l), seq![operator]);
    lemma_writable_joined(group(l) + seq![operator], group(r));
}

proof fn lemma_writable_prefixed(mark: TokenView, inner: Seq<TokenView>)
    requires
        all_writable(inner),
        writable(mark),
    ensures
        all_writable(seq![mark] + group(inner)),
{
    lemma_writable_group(inner);
    lemma_writable_joined(seq![mark], group(inner));
}

/// The spelling of a condition that can be written holds only tokens that
/// can be written.
pub proof fn lemma_spelling_is_writable(c: ConditionView)
    requires
        writable_condition(c),
    ensures
        spellable(c),
        all_writable(spell(c)),
    decreases c,
{
    match c {
        ConditionView::And(l, r) => {
            lemma_spelling_is_writable(*l);
            lemma_spelling_is_writable(*r);
            lemma_writable_binary(spell(*l), TokenView::AndAnd, spell(*r));
        },
        ConditionView::Or(l, r) => {
            lemma_spelling_is_writable(*l);
            lemma_spelling_is_writable(*r);
            lemma_writable_binary(spell(*l), TokenView::OrOr, spell(*r));
        },
        ConditionView::Eq(l, r) => {
            lemma_spelling_is_writable(*l);
            lemma_spelling_is_writable(*r);
            lemma_writable_binary(spell(*l), TokenView::EqEq, spell(*r));
        },
        ConditionView::Neq(l, r) => {
            lemma_spelling_is_writable(*l);
            lemma_spelling_is_writable(*r);
            lemma_writable_binary(spell(*l), TokenView::NotEq, spell(*r));
        },
        ConditionView::BitwiseAnd(l, r) => {
            lemma_spelling_is_writable(*l);
            lemma_spelling_is_writable(*r);
            lemma_writable_binary(spell(*l), TokenView::Amp, spell(*r));
        },
        ConditionView::BitwiseOr(l, r) => {
            lemma_spelling_is_writable(*l);
            lemma_spelling_is_writable(*r);
            lemma_writable_binary(spell(*l), TokenView::Pipe, spell(*r));
        },
        ConditionView::BitwiseXor(l, r) => {
            lemma_spelling_is_writable(*l);
            lemma_spelling_is_writable(*r);
            lemma_writable_binary(spell(*l), TokenView::Caret, spell(*r));
        },
        ConditionView::Not(e) => {
            lemma_spelling_is_writable(*e);
            lemma_writable_prefixed(TokenView::Bang, spell(*e));
        },
        ConditionView::BitwiseNot(e) => {
            lemma_spelling_is_writable(*e);
            lemma_writable_prefixed(TokenView::Tilde, spell(*e));
        },
        ConditionView::Past(e) => {
            lemma_spelling_is_writable(*e);
            lemma_writable_prefixed(TokenView::Past, spell(*e));
        },
        _ => {},
    }
}

/// Every condition that can be written has a text, and parsing this text
/// gives the condition back.
pub proof fn lemma_condition_text_parses(c: ConditionView)
    requires
        writable_condition(c),
    ensures
        parse_text(condition_text(c)) == Ok::<ConditionView, ParseError>(c),
{
    lemma_spelling_is_writable(c);
    lemma_tokens_read_back(spell(c));
    lemma_spelling_reads_back(c);
}

} // verus!
