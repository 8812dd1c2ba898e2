//! Splitting a condition text into tokens.

use vstd::prelude::*;
use vstd::string::*;
use crate::ast::{Literal, LiteralView};
use crate::errors::ParseError;
use crate::literal::{decode_literal, decode_literal_at};
use crate::text::{number_of, parse_number, str_to_chars};

verus! {

/// A token of the condition language.
#[derive(Debug, Clone, PartialEq)]
pub enum Token {
    /// `||`
    OrOr,
    /// `&&`
    AndAnd,
    /// `==`
    EqEq,
    /// `!=`
    NotEq,
    /// `|`
    Pipe,
    /// `^`
    Caret,
    /// `&`
    Amp,
    /// `!`
    Bang,
    /// `~`
    Tilde,
    /// `(`
    LParen,
    /// `)`
    RParen,
    /// `[`
    LBracket,
    /// `]`
    RBracket,
    /// `:`
    Colon,
    /// `$past`
    Past,
    /// A decimal number, as in a bit index.
    Number(u32),
    /// A sized literal.
    Literal(Literal),
    /// A dotted signal path.
    Path(String),
}

/// What a `Token` holds, as mathematics.
pub enum TokenView {
    OrOr,
    AndAnd,
    EqEq,
    NotEq,
    Pipe,
    Caret,
    Amp,
    Bang,
    Tilde,
    LParen,
    RParen,
    LBracket,
    RBracket,
    Colon,
    Past,
    Number(u32),
    Literal(LiteralView),
    Path(Seq<char>),
}

impl View for Token {
    type V = TokenView;

    open spec fn view(&self) -> TokenView {
        match self {
            Token::OrOr => TokenView::OrOr,
            Token::AndAnd => TokenView::AndAnd,
            Token::EqEq => TokenView::EqEq,
            Token::NotEq => TokenView::NotEq,
            Token::Pipe => TokenView::Pipe,
            Token::Caret => TokenView::Caret,
            Token::Amp => TokenView::Amp,
            Token::Bang => TokenView::Bang,
            Token::Tilde => TokenView::Tilde,
            Token::LParen => TokenView::LParen,
            Token::RParen => TokenView::RParen,
            Token::LBracket => TokenView::LBracket,
            Token::RBracket => TokenView::RBracket,
            Token::Colon => TokenView::Colon,
            Token::Past => TokenView::Past,
            Token::Number(n) => TokenView::Number(*n),
            Token::Literal(lit) => TokenView::Literal(lit@),
            Token::Path(path) => TokenView::Path(path@),
        }
    }
}

/// The views of a sequence of tokens.
pub open spec fn token_views(tokens: Seq<Token>) -> Seq<TokenView> {
    Seq::new(tokens.len(), |i: int| tokens[i]@)
}

/// White space between tokens.
pub open spec fn is_space(c: char) -> bool {
    c == ' ' || c == '\t' || c == '\n' || c == '\r'
}

/// A decimal digit.
pub open spec fn is_digit(c: char) -> bool {
    '0' <= c && c <= '9'
}

/// A character that can begin an identifier: an ASCII letter or `_`.
pub open spec fn is_ident_start(c: char) -> bool {
    ('a' <= c && c <= 'z') || ('A' <= c && c <= 'Z') || c == '_'
}

/// A character that can continue an identifier: an ASCII letter, a digit or
/// `_`.
pub open spec fn is_ident_char(c: char) -> bool {
    is_ident_start(c) || is_digit(c)
}

/// The end of the longest run of digits (or, with `digits_only` false, of
/// identifier characters) that starts at `pos`.
pub open spec fn run_end(s: Seq<char>, pos: int, digits_only: bool) -> int
    decreases s.len() - pos,
{
    if 0 <= pos < s.len() && (if digits_only {
        is_digit(s[pos])
    } else {
        is_ident_char(s[pos])
    }) {
        run_end(s, pos + 1, digits_only)
    } else {
        pos
    }
}

pub proof fn lemma_run_end(s: Seq<char>, pos: int, digits_only: bool)
    requires
        0 <= pos <= s.len(),
    ensures
        pos <= run_end(s, pos, digits_only) <= s.len(),
        0 <= pos < s.len() && (if digits_only {
            is_digit(s[pos])
        } else {
            is_ident_char(s[pos])
        }) ==> pos < run_end(s, pos, digits_only),
    decreases s.len() - pos,
{
    if pos < s.len() && (if digits_only {
        is_digit(s[pos])
    } else {
        is_ident_char(s[pos])
    }) {
        lemma_run_end(s, pos + 1, digits_only);
    }
}

/// The end of the dotted path that starts at `pos`: identifiers with a
/// single `.` between them.
pub open spec fn path_end(s: Seq<char>, pos: int) -> int
    decreases s.len() - pos,
{
    let end = run_end(s, pos, false);
    if pos <= end && end + 1 < s.len() && s[end] == '.' && is_ident_start(s[end + 1]) {
        path_end(s, end + 1)
    } else {
        end
    }
}

pub proof fn lemma_path_end(s: Seq<char>, pos: int)
    requires
        0 <= pos < s.len(),
        is_ident_start(s[pos]),
    ensures
        pos < path_end(s, pos) <= s.len(),
    decreases s.len() - pos,
{
    lemma_run_end(s, pos, false);
    let end = run_end(s, pos, false);
    if end + 1 < s.len() && s[end] == '.' && is_ident_start(s[end + 1]) {
        lemma_path_end(s, end + 1);
    }
}

/// Whether `$past` stands at `pos`, with no identifier character behind it.
pub open spec fn past_at(s: Seq<char>, pos: int) -> bool {
    &&& pos + 5 <= s.len()
    &&& s[pos] == '$'
    &&& s[pos + 1] == 'p'
    &&& s[pos + 2] == 'a'
    &&& s[pos + 3] == 's'
    &&& s[pos + 4] == 't'
    &&& (pos + 5 < s.len() ==> !is_ident_char(s[pos + 5]))
}

/// Whether the character `c` stands at index `at`.
pub open spec fn char_at(s: Seq<char>, at: int, c: char) -> bool {
    0 <= at < s.len() && s[at] == c
}

/// The token that starts at `pos`, and the index behind it.
///
/// A run of digits followed by `'` begins a literal, which takes the base
/// character and every letter, digit and `_` behind it. Any other run of
/// digits is a number. `=` counts only doubled, and `$` only as the start of
/// `$past`.
pub open spec fn token_at(s: Seq<char>, pos: int) -> Result<(TokenView, int), ParseError>
    recommends
        0 <= pos < s.len(),
{
    let c = s[pos];
    if c == '(' {
        Ok((TokenView::LParen, pos + 1))
    } else if c == ')' {
        Ok((TokenView::RParen, pos + 1))
    } else if c == '[' {
        Ok((TokenView::LBracket, pos + 1))
    } else if c == ']' {
        Ok((TokenView::RBracket, pos + 1))
    } else if c == ':' {
        Ok((TokenView::Colon, pos + 1))
    } else if c == '^' {
        Ok((TokenView::Caret, pos + 1))
    } else if c == '~' {
        Ok((TokenView::Tilde, pos + 1))
    } else if c == '|' {
        if char_at(s, pos + 1, '|') {
            Ok((TokenView::OrOr, pos + 2))
        } else {
            Ok((TokenView::Pipe, pos + 1))
        }
    } else if c == '&' {
        if char_at(s, pos + 1, '&') {
            Ok((TokenView::AndAnd, pos + 2))
        } else {
            Ok((TokenView::Amp, pos + 1))
        }
    } else if c == '=' {
        if char_at(s, pos + 1, '=') {
            Ok((TokenView::EqEq, pos + 2))
        } else {
            Err(ParseError::UnexpectedCharacter(pos as usize))
        }
    } else if c == '!' {
        if char_at(s, pos + 1, '=') {
            Ok((TokenView::NotEq, pos + 2))
        } else {
            Ok((TokenView::Bang, pos + 1))
        }
    } else if c == '$' {
        if past_at(s, pos) {
            Ok((TokenView::Past, pos + 5))
        } else {
            Err(ParseError::UnexpectedCharacter(pos as usize))
        }
    } else if is_digit(c) {
        let end = run_end(s, pos, true);
        if char_at(s, end, '\'') {
            let stop = run_end(s, end + 2, false);
            let last = if end + 2 <= s.len() {
                stop
            } else {
                end + 1
            };
            match decode_literal(
                s.subrange(pos, end),
                if end + 1 < last {
                    Some(s[end + 1])
                } else {
                    None
                },
                if end + 2 <= last {
                    s.subrange(end + 2, last)
                } else {
                    Seq::empty()
                },
                None,
            ) {
                Ok(lit) => Ok((TokenView::Literal(lit), last)),
                Err(e) => Err(e),
            }
        } else {
            match number_of(s.subrange(pos, end), 10) {
                Some(n) if n <= u32::MAX => Ok((TokenView::Number(n as u32), end)),
                _ => Err(ParseError::NumberTooLarge(pos as usize)),
            }
        }
    } else if is_ident_start(c) {
        Ok((TokenView::Path(s.subrange(pos, path_end(s, pos))), path_end(s, pos)))
    } else {
        Err(ParseError::UnexpectedCharacter(pos as usize))
    }
}

pub proof fn lemma_token_at(s: Seq<char>, pos: int)
    requires
        0 <= pos < s.len(),
    ensures
        token_at(s, pos) is Ok ==> pos < token_at(s, pos)->Ok_0.1 <= s.len(),
{
    let c = s[pos];
    if is_digit(c) {
        lemma_run_end(s, pos, true);
        let end = run_end(s, pos, true);
        if end + 2 <= s.len() {
            lemma_run_end(s, end + 2, false);
        }
    } else if is_ident_start(c) {
        lemma_path_end(s, pos);
    }
}

/// The tokens of `s` from `pos` on, white space between them passed over;
/// or the first error.
pub open spec fn lex_from(s: Seq<char>, pos: int) -> Result<Seq<TokenView>, ParseError>
    decreases s.len() - pos,
{
    if pos < 0 || pos >= s.len() {
        Ok(Seq::empty())
    } else if is_space(s[pos]) {
        lex_from(s, pos + 1)
    } else {
        match token_at(s, pos) {
            Err(e) => Err(e),
            Ok((token, next)) => {
                proof {
                    lemma_token_at(s, pos);
                }
                match lex_from(s, next) {
                    Ok(rest) => Ok(seq![token] + rest),
                    Err(e) => Err(e),
                }
            },
        }
    }
}

/// The tokens of a condition text.
pub open spec fn tokens_of(s: Seq<char>) -> Result<Seq<TokenView>, ParseError> {
    lex_from(s, 0)
}

/// Whether every literal among the tokens has a width of at least one bit.
pub open spec fn token_widths_positive(tokens: Seq<TokenView>) -> bool {
    forall|i: int|
        0 <= i < tokens.len() ==> match #[trigger] tokens[i] {
            TokenView::Literal(lit) => lit.width() >= 1,
            _ => true,
        }
}

/// The literals that a text holds have widths of at least one bit.
pub proof fn lemma_lexed_widths_positive(s: Seq<char>, pos: int)
    requires
        lex_from(s, pos) is Ok,
    ensures
        token_widths_positive(lex_from(s, pos)->Ok_0),
    decreases s.len() - pos,
{
    if pos < 0 || pos >= s.len() {
    } else if is_space(s[pos]) {
        lemma_lexed_widths_positive(s, pos + 1);
    } else {
        lemma_token_at(s, pos);
        let (token, next) = token_at(s, pos)->Ok_0;
        lemma_lexed_widths_positive(s, next);
        let rest = lex_from(s, next)->Ok_0;
        let all = seq![token] + rest;
        assert forall|i: int| 0 <= i < all.len() implies match #[trigger] all[i] {
            TokenView::Literal(lit) => lit.width() >= 1,
            _ => true,
        } by {
            if i > 0 {
                assert(all[i] == rest[i - 1]);
            }
        }
    }
}

fn scan_run(chars: &Vec<char>, pos: usize, digits_only: bool) -> (end: usize)
    requires
        pos <= chars.len(),
    ensures
        end as int == run_end(chars@, pos as int, digits_only),
        pos <= end <= chars.len(),
{
    let mut i: usize = pos;
    loop
        invariant
            pos <= i <= chars.len(),
            run_end(chars@, pos as int, digits_only) == run_end(chars@, i as int, digits_only),
        decreases chars.len() - i,
    {
        if i >= chars.len() {
            return i;
        }
        let c = chars[i];
        let digit = '0' <= c && c <= '9';
        let letter = ('a' <= c && c <= 'z') || ('A' <= c && c <= 'Z') || c == '_';
        if !(digit || (!digits_only && letter)) {
            return i;
        }
        i += 1;
    }
}

fn scan_path(chars: &Vec<char>, pos: usize) -> (end: usize)
    requires
        pos < chars.len(),
        is_ident_start(chars[pos as int]),
    ensures
        end as int == path_end(chars@, pos as int),
        pos < end <= chars.len(),
{
    let mut start: usize = pos;
    loop
        invariant
            pos <= start < chars.len(),
            is_ident_start(chars[start as int]),
            path_end(chars@, pos as int) == path_end(chars@, start as int),
        decreases chars.len() - start,
    {
        let end = scan_run(chars, start, false);
        proof {
            lemma_run_end(chars@, start as int, false);
        }
        if chars.len() - end > 1 && chars[end] == '.' {
            let c = chars[end + 1];
            if ('a' <= c && c <= 'z') || ('A' <= c && c <= 'Z') || c == '_' {
                start = end + 1;
                continue ;
            }
        }
        return end;
    }
}

fn has_char(chars: &Vec<char>, at: usize, c: char) -> (r: bool)
    ensures
        r == char_at(chars@, at as int, c),
{
    at < chars.len() && chars[at] == c
}

fn at_past(chars: &Vec<char>, pos: usize) -> (r: bool)
    requires
        pos < chars.len(),
    ensures
        r == past_at(chars@, pos as int),
{
    if chars.len() - pos < 5 {
        return false;
    }
    if !(chars[pos] == '$' && chars[pos + 1] == 'p' && chars[pos + 2] == 'a' && chars[pos + 3]
        == 's' && chars[pos + 4] == 't') {
        return false;
    }
    if pos + 5 < chars.len() {
        let c = chars[pos + 5];
        let digit = '0' <= c && c <= '9';
        let letter = ('a' <= c && c <= 'z') || ('A' <= c && c <= 'Z') || c == '_';
        !(digit || letter)
    } else {
        true
    }
}

fn read_token(s: &str, chars: &Vec<char>, pos: usize) -> (r: Result<(Token, usize), ParseError>)
    requires
        chars@ == s@,
        pos < chars.len(),
    ensures
        match r {
            Ok((token, next)) => token_at(s@, pos as int) == Ok::<(TokenView, int), ParseError>(
                (token@, next as int),
            ) && pos < next <= chars.len(),
            Err(e) => token_at(s@, pos as int) == Err::<(TokenView, int), ParseError>(e),
        },
{
    proof {
        lemma_token_at(s@, pos as int);
    }
    let c = chars[pos];
    if c == '(' {
        Ok((Token::LParen, pos + 1))
    } else if c == ')' {
        Ok((Token::RParen, pos + 1))
    } else if c == '[' {
        Ok((Token::LBracket, pos + 1))
    } else if c == ']' {
        Ok((Token::RBracket, pos + 1))
    } else if c == ':' {
        Ok((Token::Colon, pos + 1))
    } else if c == '^' {
        Ok((Token::Caret, pos + 1))
    } else if c == '~' {
        Ok((Token::Tilde, pos + 1))
    } else if c == '|' {
        if has_char(chars, pos + 1, '|') {
            Ok((Token::OrOr, pos + 2))
        } else {
            Ok((Token::Pipe, pos + 1))
        }
    } else if c == '&' {
        if has_char(chars, pos + 1, '&') {
            Ok((Token::AndAnd, pos + 2))
        } else {
            Ok((Token::Amp, pos + 1))
        }
    } else if c == '=' {
        if has_char(chars, pos + 1, '=') {
            Ok((Token::EqEq, pos + 2))
        } else {
            Err(ParseError::UnexpectedCharacter(pos))
        }
    } else if c == '!' {
        if has_char(chars, pos + 1, '=') {
            Ok((Token::NotEq, pos + 2))
        } else {
            Ok((Token::Bang, pos + 1))
        }
    } else if c == '$' {
        if at_past(chars, pos) {
            Ok((Token::Past, pos + 5))
        } else {
            Err(ParseError::UnexpectedCharacter(pos))
        }
    } else if '0' <= c && c <= '9' {
        let end = scan_run(chars, pos, true);
        if has_char(chars, end, '\'') {
            let last = if chars.len() - end >= 2 {
                scan_run(chars, end + 2, false)
            } else {
                end + 1
            };
            match decode_literal_at(chars, pos, end, last, None) {
                Ok(lit) => Ok((Token::Literal(lit), last)),
                Err(e) => Err(e),
            }
        } else {
            match parse_number(chars, pos, end, 10) {
                Some(n) => {
                    if n <= u32::MAX as u64 {
                        Ok((Token::Number(n as u32), end))
                    } else {
                        Err(ParseError::NumberTooLarge(pos))
                    }
                },
                None => Err(ParseError::NumberTooLarge(pos)),
            }
        }
    } else if ('a' <= c && c <= 'z') || ('A' <= c && c <= 'Z') || c == '_' {
        let end = scan_path(chars, pos);
        let path = String::from_str(s.substring_char(pos, end));
        Ok((Token::Path(path), end))
    } else {
        Err(ParseError::UnexpectedCharacter(pos))
    }
}

/// Splits a condition text into its tokens.
pub fn tokenize(s: &str) -> (r: Result<Vec<Token>, ParseError>)
    ensures
        match r {
            Ok(tokens) => tokens_of(s@) == Ok::<Seq<TokenView>, ParseError>(token_views(tokens@)),
            Err(e) => tokens_of(s@) == Err::<Seq<TokenView>, ParseError>(e),
        },
{
    let chars = str_to_chars(s);
    let mut tokens: Vec<Token> = Vec::new();
    let mut pos: usize = 0;
    proof {
        assert(token_views(tokens@) =~= Seq::<TokenView>::empty());
        match lex_from(s@, 0) {
            Ok(rest) => {
                assert(Seq::<TokenView>::empty() + rest =~= rest);
            },
            Err(_) => {},
        }
    }
    while pos < chars.len()
        invariant
            chars@ == s@,
            pos <= chars.len(),
            tokens_of(s@) == match lex_from(s@, pos as int) {
                Ok(rest) => Ok::<Seq<TokenView>, ParseError>(token_views(tokens@) + rest),
                Err(e) => Err::<Seq<TokenView>, ParseError>(e),
            },
        decreases chars.len() - pos,
    {
        let c = chars[pos];
        if c == ' ' || c == '\t' || c == '\n' || c == '\r' {
            pos += 1;
        } else {
            match read_token(s, &chars, pos) {
                Err(e) => {
                    return Err(e);
                },
                Ok((token, next)) => {
                    let ghost before = token_views(tokens@);
                    let ghost view = token@;
                    tokens.push(token);
                    proof {
                        assert(token_views(tokens@) =~= before.push(view));
                        match lex_from(s@, next as int) {
                            Ok(rest) => {
                                assert(before + (seq![view] + rest) =~= before.push(view) + rest);
                            },
                            Err(_) => {},
                        }
                    }
                    pos = next;
                },
            }
        }
    }
    assert(token_views(tokens@) + Seq::<TokenView>::empty() =~= token_views(tokens@));
    Ok(tokens)
}

} // verus!
