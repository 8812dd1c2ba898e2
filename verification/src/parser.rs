//! Parsing a condition text into a condition tree.
//!
//! Binary operators bind in this order, loosest first: `||`, `&&`, `==` and
//! `!=`, `|`, `^`, `&`. All of them group to the left. The unary `!` and `~`
//! bind tighter than any binary operator, and bit selection and `$past(...)`
//! tighter still.

use vstd::prelude::*;
use vstd::string::*;
use crate::ast::{clone_literal, literal_widths_positive, Condition, ConditionView};
use crate::errors::ParseError;
use crate::lexer::{
    lemma_lexed_widths_positive,
    token_views,
    token_widths_positive,
    tokenize,
    tokens_of,
    Token,
    TokenView,
};

verus! {

/// A condition and the index of the token behind it, or an error.
pub type Parsed = Result<(ConditionView, int), ParseError>;

/// The binary operators.
#[derive(Debug, Clone, Copy, PartialEq, Eq)]
pub enum BinaryKind {
    Or,
    And,
    Eq,
    Neq,
    BitOr,
    BitXor,
    BitAnd,
}

/// The loosest level of binding, that of `||`.
pub const LOOSEST: u8 = 5;

/// The binary operator that a token is at a level of binding, if it is one
/// there. Level 5 holds `||`, 4 `&&`, 3 `==` and `!=`, 2 `|`, 1 `^`, 0 `&`.
pub open spec fn operator_at(token: TokenView, level: nat) -> Option<BinaryKind> {
    match token {
        TokenView::OrOr => if level == 5 {
            Some(BinaryKind::Or)
        } else {
            None
        },
        TokenView::AndAnd => if level == 4 {
            Some(BinaryKind::And)
        } else {
            None
        },
        TokenView::EqEq => if level == 3 {
            Some(BinaryKind::Eq)
        } else {
            None
        },
        TokenView::NotEq => if level == 3 {
            Some(BinaryKind::Neq)
        } else {
            None
        },
        TokenView::Pipe => if level == 2 {
            Some(BinaryKind::BitOr)
        } else {
            None
        },
        TokenView::Caret => if level == 1 {
            Some(BinaryKind::BitXor)
        } else {
            None
        },
        TokenView::Amp => if level == 0 {
            Some(BinaryKind::BitAnd)
        } else {
            None
        },
        _ => None,
    }
}

/// The node of a binary operator over two operands.
pub open spec fn binary_node(kind: BinaryKind, l: ConditionView, r: ConditionView) -> ConditionView {
    match kind {
        BinaryKind::Or => ConditionView::Or(Box::new(l), Box::new(r)),
        BinaryKind::And => ConditionView::And(Box::new(l), Box::new(r)),
        BinaryKind::Eq => ConditionView::Eq(Box::new(l), Box::new(r)),
        BinaryKind::Neq => ConditionView::Neq(Box::new(l), Box::new(r)),
        BinaryKind::BitOr => ConditionView::BitwiseOr(Box::new(l), Box::new(r)),
        BinaryKind::BitXor => ConditionView::BitwiseXor(Box::new(l), Box::new(r)),
        BinaryKind::BitAnd => ConditionView::BitwiseAnd(Box::new(l), Box::new(r)),
    }
}

/// The number token at `pos`.
pub open spec fn number_at(tokens: Seq<TokenView>, pos: int) -> Result<u32, ParseError> {
    if pos < 0 || pos >= tokens.len() {
        Err(ParseError::UnexpectedEnd)
    } else {
        match tokens[pos] {
            TokenView::Number(n) => Ok(n),
            _ => Err(ParseError::UnexpectedToken(pos as usize)),
        }
    }
}

/// What follows a path, from `pos` on: `[n]` selects bit `n`, `[msb:lsb]` a
/// range of bits, and anything else leaves the signal whole.
pub open spec fn bit_select(tokens: Seq<TokenView>, pos: int, path: Seq<char>) -> Parsed {
    if !(0 <= pos < tokens.len() && tokens[pos] == TokenView::LBracket) {
        Ok((ConditionView::Signal(path), pos))
    } else {
        match number_at(tokens, pos + 1) {
            Err(e) => Err(e),
            Ok(msb) => if pos + 2 >= tokens.len() {
                Err(ParseError::UnexpectedEnd)
            } else if tokens[pos + 2] == TokenView::RBracket {
                Ok((ConditionView::BitExtract(path, Some(msb), Some(msb)), pos + 3))
            } else if tokens[pos + 2] == TokenView::Colon {
                match number_at(tokens, pos + 3) {
                    Err(e) => Err(e),
                    Ok(lsb) => if pos + 4 >= tokens.len() {
                        Err(ParseError::UnexpectedEnd)
                    } else if tokens[pos + 4] == TokenView::RBracket {
                        Ok((ConditionView::BitExtract(path, Some(msb), Some(lsb)), pos + 5))
                    } else {
                        Err(ParseError::UnexpectedToken((pos + 4) as usize))
                    },
                }
            } else {
                Err(ParseError::UnexpectedToken((pos + 2) as usize))
            },
        }
    }
}

/// The end of a parenthesised condition: `inner` must be followed by `)`.
/// With `past`, the condition is the operand of `$past`.
pub open spec fn closing(tokens: Seq<TokenView>, inner: Parsed, past: bool) -> Parsed {
    match inner {
        Err(e) => Err(e),
        Ok((c, next)) => if 0 <= next < tokens.len() && tokens[next] == TokenView::RParen {
            Ok(
                (
                    if past {
                        ConditionView::Past(Box::new(c))
                    } else {
                        c
                    },
                    next + 1,
                ),
            )
        } else {
            Err(ParseError::UnmatchedParenthesis)
        },
    }
}

/// A primary at `pos`: a parenthesised condition, `$past(...)`, a literal,
/// or a path with or without a bit selection.
pub open spec fn parse_primary(tokens: Seq<TokenView>, pos: int) -> Parsed
    decreases tokens.len() - pos, 0nat,
{
    if pos < 0 || pos >= tokens.len() {
        Err(ParseError::UnexpectedEnd)
    } else {
        match tokens[pos] {
            TokenView::LParen => closing(tokens, parse_level(tokens, pos + 1, 5), false),
            TokenView::Past => if pos + 1 >= tokens.len() {
                Err(ParseError::UnexpectedEnd)
            } else if tokens[pos + 1] != TokenView::LParen {
                Err(ParseError::UnexpectedToken((pos + 1) as usize))
            } else {
                closing(tokens, parse_level(tokens, pos + 2, 5), true)
            },
            TokenView::Literal(lit) => Ok((ConditionView::Literal(lit), pos + 1)),
            TokenView::Path(path) => bit_select(tokens, pos + 1, path),
            _ => Err(ParseError::UnexpectedToken(pos as usize)),
        }
    }
}

/// A unary at `pos`: any number of `!` and `~` in front of a primary.
pub open spec fn parse_unary(tokens: Seq<TokenView>, pos: int) -> Parsed
    decreases tokens.len() - pos, 1nat,
{
    if 0 <= pos < tokens.len() && tokens[pos] == TokenView::Bang {
        match parse_unary(tokens, pos + 1) {
            Err(e) => Err(e),
            Ok((c, next)) => Ok((ConditionView::Not(Box::new(c)), next)),
        }
    } else if 0 <= pos < tokens.len() && tokens[pos] == TokenView::Tilde {
        match parse_unary(tokens, pos + 1) {
            Err(e) => Err(e),
            Ok((c, next)) => Ok((ConditionView::BitwiseNot(Box::new(c)), next)),
        }
    } else {
        parse_primary(tokens, pos)
    }
}

/// An operand of the operators of a level: a unary at level 0, a chain of
/// the next tighter level elsewhere.
pub open spec fn parse_operand(tokens: Seq<TokenView>, pos: int, level: nat) -> Parsed
    decreases tokens.len() - pos, 3 * level + 2,
{
    if level == 0 {
        parse_unary(tokens, pos)
    } else {
        parse_level(tokens, pos, (level - 1) as nat)
    }
}

/// A chain at `pos` of operands joined by the operators of a level, grouped
/// to the left.
pub open spec fn parse_level(tokens: Seq<TokenView>, pos: int, level: nat) -> Parsed
    decreases tokens.len() - pos, 3 * level + 4,
{
    match parse_operand(tokens, pos, level) {
        Err(e) => Err(e),
        Ok((left, next)) => if next < pos || next > tokens.len() {
            Err(ParseError::UnexpectedEnd)
        } else {
            parse_rest(tokens, next, level, left)
        },
    }
}

/// The rest of a chain: as long as an operator of the level stands at
/// `pos`, the operand behind it joins `left`.
///
/// An operand always ends behind the place where it starts and within the
/// tokens, so the branches that ask for this are never taken; they make the
/// definition terminate.
pub open spec fn parse_rest(tokens: Seq<TokenView>, pos: int, level: nat, left: ConditionView) -> Parsed
    decreases tokens.len() - pos, 3 * level + 3,
{
    if 0 <= pos < tokens.len() && operator_at(tokens[pos], level) is Some {
        match parse_operand(tokens, pos + 1, level) {
            Err(e) => Err(e),
            Ok((right, next)) => if next <= pos || next > tokens.len() {
                Err(ParseError::UnexpectedEnd)
            } else {
                parse_rest(
                    tokens,
                    next,
                    level,
                    binary_node(operator_at(tokens[pos], level)->0, left, right),
                )
            },
        }
    } else {
        Ok((left, pos))
    }
}

/// The condition that the tokens spell, all of them.
pub open spec fn parse_tokens(tokens: Seq<TokenView>) -> Result<ConditionView, ParseError> {
    match parse_level(tokens, 0, 5) {
        Err(e) => Err(e),
        Ok((c, next)) => if next >= tokens.len() {
            Ok(c)
        } else if tokens[next] == TokenView::RParen {
            Err(ParseError::UnmatchedParenthesis)
        } else {
            Err(ParseError::TrailingTokens(next as usize))
        },
    }
}

/// The condition that a text spells.
pub open spec fn parse_text(s: Seq<char>) -> Result<ConditionView, ParseError> {
    match tokens_of(s) {
        Err(e) => Err(e),
        Ok(tokens) => parse_tokens(tokens),
    }
}

/// What holds of every condition that is read from tokens: it ends behind
/// the place where it starts and within the tokens, and its literals are
/// literals of the tokens.
pub open spec fn sound(tokens: Seq<TokenView>, pos: int, parsed: Parsed) -> bool {
    match parsed {
        Ok((c, next)) => pos < next <= tokens.len() && (token_widths_positive(tokens)
            ==> literal_widths_positive(c)),
        Err(_) => true,
    }
}

pub proof fn lemma_primary_sound(tokens: Seq<TokenView>, pos: int)
    requires
        0 <= pos,
    ensures
        sound(tokens, pos, parse_primary(tokens, pos)),
    decreases tokens.len() - pos, 0nat,
{
    if pos < tokens.len() {
        match tokens[pos] {
            TokenView::LParen => {
                lemma_level_sound(tokens, pos + 1, 5);
            },
            TokenView::Past => {
                if pos + 1 < tokens.len() {
                    lemma_level_sound(tokens, pos + 2, 5);
                }
            },
            _ => {},
        }
    }
}

pub proof fn lemma_unary_sound(tokens: Seq<TokenView>, pos: int)
    requires
        0 <= pos,
    ensures
        sound(tokens, pos, parse_unary(tokens, pos)),
    decreases tokens.len() - pos, 1nat,
{
    if pos < tokens.len() && (tokens[pos] == TokenView::Bang || tokens[pos] == TokenView::Tilde) {
        lemma_unary_sound(tokens, pos + 1);
    } else {
        lemma_primary_sound(tokens, pos);
    }
}

pub proof fn lemma_operand_sound(tokens: Seq<TokenView>, pos: int, level: nat)
    requires
        0 <= pos,
    ensures
        sound(tokens, pos, parse_operand(tokens, pos, level)),
    decreases tokens.len() - pos, 3 * level + 2,
{
    if level == 0 {
        lemma_unary_sound(tokens, pos);
    } else {
        lemma_level_sound(tokens, pos, (level - 1) as nat);
    }
}

/// A chain ends behind the place where it starts, so the branches of its
/// definition that ask for this are never taken.
pub proof fn lemma_level_sound(tokens: Seq<TokenView>, pos: int, level: nat)
    requires
        0 <= pos,
    ensures
        sound(tokens, pos, parse_level(tokens, pos, level)),
        parse_operand(tokens, pos, level) is Ok ==> parse_level(tokens, pos, level) == parse_rest(
            tokens,
            parse_operand(tokens, pos, level)->Ok_0.1,
            level,
            parse_operand(tokens, pos, level)->Ok_0.0,
        ),
    decreases tokens.len() - pos, 3 * level + 4,
{
    lemma_operand_sound(tokens, pos, level);
    match parse_operand(tokens, pos, level) {
        Ok((left, next)) => {
            lemma_rest_sound(tokens, next, level, left);
        },
        Err(_) => {},
    }
}

pub proof fn lemma_rest_sound(tokens: Seq<TokenView>, pos: int, level: nat, left: ConditionView)
    requires
        0 <= pos <= tokens.len(),
    ensures
        match parse_rest(tokens, pos, level, left) {
            Ok((c, next)) => pos <= next <= tokens.len() && (token_widths_positive(tokens)
                && literal_widths_positive(left) ==> literal_widths_positive(c)),
            Err(_) => true,
        },
    decreases tokens.len() - pos, 3 * level + 3,
{
    if pos < tokens.len() && operator_at(tokens[pos], level) is Some {
        lemma_operand_sound(tokens, pos + 1, level);
        match parse_operand(tokens, pos + 1, level) {
            Ok((right, next)) => {
                lemma_rest_sound(
                    tokens,
                    next,
                    level,
                    binary_node(operator_at(tokens[pos], level)->0, left, right),
                );
            },
            Err(_) => {},
        }
    }
}

/// Every literal of a condition that was read from text has a width of at
/// least one bit.
pub proof fn lemma_parsed_widths_positive(s: Seq<char>)
    requires
        parse_text(s) is Ok,
    ensures
        literal_widths_positive(parse_text(s)->Ok_0),
{
    lemma_lexed_widths_positive(s, 0);
    lemma_level_sound(tokens_of(s)->Ok_0, 0, 5);
}

/// Whether an executable result is the given specification result.
pub open spec fn is_parsed(r: Result<(Condition, usize), ParseError>, parsed: Parsed) -> bool {
    match r {
        Ok((c, next)) => parsed == Ok::<(ConditionView, int), ParseError>((c@, next as int)),
        Err(e) => parsed == Err::<(ConditionView, int), ParseError>(e),
    }
}

fn operator_of(token: &Token, level: u8) -> (r: Option<BinaryKind>)
    ensures
        r == operator_at(token@, level as nat),
{
    match token {
        Token::OrOr => if level == 5 {
            Some(BinaryKind::Or)
        } else {
            None
        },
        Token::AndAnd => if level == 4 {
            Some(BinaryKind::And)
        } else {
            None
        },
        Token::EqEq => if level == 3 {
            Some(BinaryKind::Eq)
        } else {
            None
        },
        Token::NotEq => if level == 3 {
            Some(BinaryKind::Neq)
        } else {
            None
        },
        Token::Pipe => if level == 2 {
            Some(BinaryKind::BitOr)
        } else {
            None
        },
        Token::Caret => if level == 1 {
            Some(BinaryKind::BitXor)
        } else {
            None
        },
        Token::Amp => if level == 0 {
            Some(BinaryKind::BitAnd)
        } else {
            None
        },
        _ => None,
    }
}

fn make_binary(kind: BinaryKind, l: Condition, r: Condition) -> (c: Condition)
    ensures
        c@ == binary_node(kind, l@, r@),
{
    match kind {
        BinaryKind::Or => Condition::Or(Box::new(l), Box::new(r)),
        BinaryKind::And => Condition::And(Box::new(l), Box::new(r)),
        BinaryKind::Eq => Condition::Eq(Box::new(l), Box::new(r)),
        BinaryKind::Neq => Condition::Neq(Box::new(l), Box::new(r)),
        BinaryKind::BitOr => Condition::BitwiseOr(Box::new(l), Box::new(r)),
        BinaryKind::BitXor => Condition::BitwiseXor(Box::new(l), Box::new(r)),
        BinaryKind::BitAnd => Condition::BitwiseAnd(Box::new(l), Box::new(r)),
    }
}

fn read_number(tokens: &Vec<Token>, pos: usize) -> (r: Result<u32, ParseError>)
    ensures
        r == number_at(token_views(tokens@), pos as int),
{
    if pos >= tokens.len() {
        return Err(ParseError::UnexpectedEnd);
    }
    match &tokens[pos] {
        Token::Number(n) => Ok(*n),
        _ => Err(ParseError::UnexpectedToken(pos)),
    }
}

fn is_token(tokens: &Vec<Token>, pos: usize, kind: u8) -> (r: bool)
    requires
        kind < 5,
    ensures
        r == (pos < tokens.len() && token_views(tokens@)[pos as int] == match kind {
            0 => TokenView::LParen,
            1 => TokenView::RParen,
            2 => TokenView::LBracket,
            3 => TokenView::RBracket,
            _ => TokenView::Colon,
        }),
{
    if pos >= tokens.len() {
        return false;
    }
    match &tokens[pos] {
        Token::LParen => kind == 0,
        Token::RParen => kind == 1,
        Token::LBracket => kind == 2,
        Token::RBracket => kind == 3,
        Token::Colon => kind == 4,
        _ => false,
    }
}

fn read_bit_select(tokens: &Vec<Token>, pos: usize, path: String) -> (r: Result<
    (Condition, usize),
    ParseError,
>)
    requires
        0 < pos <= tokens.len(),
    ensures
        is_parsed(r, bit_select(token_views(tokens@), pos as int, path@)),
        r is Ok ==> pos <= r->Ok_0.1 <= tokens.len(),
{
    if !is_token(tokens, pos, 2) {
        return Ok((Condition::Signal(path), pos));
    }
    let msb = read_number(tokens, pos + 1)?;
    if tokens.len() - pos <= 2 {
        return Err(ParseError::UnexpectedEnd);
    }
    if is_token(tokens, pos + 2, 3) {
        Ok((Condition::BitExtract(path, Some(msb), Some(msb)), pos + 3))
    } else if is_token(tokens, pos + 2, 4) {
        let lsb = read_number(tokens, pos + 3)?;
        if tokens.len() - pos <= 4 {
            return Err(ParseError::UnexpectedEnd);
        }
        if is_token(tokens, pos + 4, 3) {
            Ok((Condition::BitExtract(path, Some(msb), Some(lsb)), pos + 5))
        } else {
            Err(ParseError::UnexpectedToken(pos + 4))
        }
    } else {
        Err(ParseError::UnexpectedToken(pos + 2))
    }
}

fn read_closing(tokens: &Vec<Token>, inner: Condition, next: usize, past: bool) -> (r: Result<
    (Condition, usize),
    ParseError,
>)
    requires
        next <= tokens.len(),
    ensures
        is_parsed(r, closing(token_views(tokens@), Ok((inner@, next as int)), past)),
        r is Ok ==> next < r->Ok_0.1 <= tokens.len(),
{
    if !is_token(tokens, next, 1) {
        return Err(ParseError::UnmatchedParenthesis);
    }
    if past {
        Ok((Condition::Past(Box::new(inner)), next + 1))
    } else {
        Ok((inner, next + 1))
    }
}

fn read_primary(tokens: &Vec<Token>, pos: usize) -> (r: Result<(Condition, usize), ParseError>)
    requires
        pos <= tokens.len(),
    ensures
        is_parsed(r, parse_primary(token_views(tokens@), pos as int)),
        r is Ok ==> pos < r->Ok_0.1 <= tokens.len(),
    decreases tokens.len() - pos, 0nat,
{
    if pos >= tokens.len() {
        return Err(ParseError::UnexpectedEnd);
    }
    match &tokens[pos] {
        Token::LParen => {
            let (inner, next) = read_level(tokens, pos + 1, LOOSEST)?;
            read_closing(tokens, inner, next, false)
        },
        Token::Past => {
            if tokens.len() - pos <= 1 {
                return Err(ParseError::UnexpectedEnd);
            }
            if !is_token(tokens, pos + 1, 0) {
                return Err(ParseError::UnexpectedToken(pos + 1));
            }
            let (inner, next) = read_level(tokens, pos + 2, LOOSEST)?;
            read_closing(tokens, inner, next, true)
        },
        Token::Literal(lit) => Ok((Condition::Literal(clone_literal(lit)), pos + 1)),
        Token::Path(path) => read_bit_select(tokens, pos + 1, path.clone()),
        _ => Err(ParseError::UnexpectedToken(pos)),
    }
}

fn read_unary(tokens: &Vec<Token>, pos: usize) -> (r: Result<(Condition, usize), ParseError>)
    requires
        pos <= tokens.len(),
    ensures
        is_parsed(r, parse_unary(token_views(tokens@), pos as int)),
        r is Ok ==> pos < r->Ok_0.1 <= tokens.len(),
    decreases tokens.len() - pos, 1nat,
{
    if pos < tokens.len() {
        match &tokens[pos] {
            Token::Bang => {
                let (inner, next) = read_unary(tokens, pos + 1)?;
                return Ok((Condition::Not(Box::new(inner)), next));
            },
            Token::Tilde => {
                let (inner, next) = read_unary(tokens, pos + 1)?;
                return Ok((Condition::BitwiseNot(Box::new(inner)), next));
            },
            _ => {},
        }
    }
    read_primary(tokens, pos)
}

fn read_operand(tokens: &Vec<Token>, pos: usize, level: u8) -> (r: Result<
    (Condition, usize),
    ParseError,
>)
    requires
        pos <= tokens.len(),
        level <= 5,
    ensures
        is_parsed(r, parse_operand(token_views(tokens@), pos as int, level as nat)),
        r is Ok ==> pos < r->Ok_0.1 <= tokens.len(),
    decreases tokens.len() - pos, 3 * level + 2,
{
    if level == 0 {
        read_unary(tokens, pos)
    } else {
        read_level(tokens, pos, level - 1)
    }
}

fn read_level(tokens: &Vec<Token>, pos: usize, level: u8) -> (r: Result<
    (Condition, usize),
    ParseError,
>)
    requires
        pos <= tokens.len(),
        level <= 5,
    ensures
        is_parsed(r, parse_level(token_views(tokens@), pos as int, level as nat)),
        r is Ok ==> pos < r->Ok_0.1 <= tokens.len(),
    decreases tokens.len() - pos, 3 * level + 4,
{
    let (left, next) = read_operand(tokens, pos, level)?;
    read_rest(tokens, next, level, left)
}

fn read_rest(tokens: &Vec<Token>, pos: usize, level: u8, left: Condition) -> (r: Result<
    (Condition, usize),
    ParseError,
>)
    requires
        pos <= tokens.len(),
        level <= 5,
    ensures
        is_parsed(r, parse_rest(token_views(tokens@), pos as int, level as nat, left@)),
        r is Ok ==> pos <= r->Ok_0.1 <= tokens.len(),
    decreases tokens.len() - pos, 3 * level + 3,
{
    if pos < tokens.len() {
        match operator_of(&tokens[pos], level) {
            Some(kind) => {
                let (right, next) = read_operand(tokens, pos + 1, level)?;
                return read_rest(tokens, next, level, make_binary(kind, left, right));
            },
            None => {},
        }
    }
    Ok((left, pos))
}

/// Parses a condition text into a condition tree.
///
/// The language has signal paths (`top.module.signal`), bit selection
/// (`signal[3]`, `signal[7:4]`), sized literals (`4'b0101`, `3'd2`,
/// `5'h1A`), `$past(...)`, parentheses, the unary `!` and `~`, and the
/// binary `&`, `^`, `|`, `==`, `!=`, `&&` and `||`.
pub fn parse_condition(condition: &str) -> (r: Result<Condition, ParseError>)
    ensures
        match r {
            Ok(c) => parse_text(condition@) == Ok::<ConditionView, ParseError>(c@),
            Err(e) => parse_text(condition@) == Err::<ConditionView, ParseError>(e),
        },
{
    let tokens = tokenize(condition)?;
    let (parsed, next) = read_level(&tokens, 0, LOOSEST)?;
    if next >= tokens.len() {
        Ok(parsed)
    } else if is_token(&tokens, next, 1) {
        Err(ParseError::UnmatchedParenthesis)
    } else {
        Err(ParseError::TrailingTokens(next))
    }
}

} // verus!
