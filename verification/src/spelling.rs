//! Spelling a condition in tokens, and reading the spelling back.
//!
//! Every condition that the grammar can express has a spelling in which
//! each operand of an operator stands in parentheses. Reading that spelling
//! gives the condition back: the parser undoes the spelling.

use vstd::prelude::*;
use crate::ast::ConditionView;
use crate::errors::ParseError;
use crate::lexer::TokenView;
use crate::parser::{
    binary_node,
    lemma_operand_sound,
    operator_at,
    parse_level,
    parse_operand,
    parse_primary,
    parse_rest,
    parse_tokens,
    parse_unary,
    BinaryKind,
};

verus! {

/// The token of a binary operator.
pub open spec fn operator_token(kind: BinaryKind) -> TokenView {
    match kind {
        BinaryKind::Or => TokenView::OrOr,
        BinaryKind::And => TokenView::AndAnd,
        BinaryKind::Eq => TokenView::EqEq,
        BinaryKind::Neq => TokenView::NotEq,
        BinaryKind::BitOr => TokenView::Pipe,
        BinaryKind::BitXor => TokenView::Caret,
        BinaryKind::BitAnd => TokenView::Amp,
    }
}

/// The level at which a binary operator binds: 5 is the loosest.
pub open spec fn operator_level(kind: BinaryKind) -> nat {
    match kind {
        BinaryKind::Or => 5,
        BinaryKind::And => 4,
        BinaryKind::Eq => 3,
        BinaryKind::Neq => 3,
        BinaryKind::BitOr => 2,
        BinaryKind::BitXor => 1,
        BinaryKind::BitAnd => 0,
    }
}

/// The operator and the operands of a condition with a binary operator at
/// its root.
pub open spec fn binary_parts(c: ConditionView) -> Option<(BinaryKind, ConditionView, ConditionView)> {
    match c {
        ConditionView::Or(l, r) => Some((BinaryKind::Or, *l, *r)),
        ConditionView::And(l, r) => Some((BinaryKind::And, *l, *r)),
        ConditionView::Eq(l, r) => Some((BinaryKind::Eq, *l, *r)),
        ConditionView::Neq(l, r) => Some((BinaryKind::Neq, *l, *r)),
        ConditionView::BitwiseOr(l, r) => Some((BinaryKind::BitOr, *l, *r)),
        ConditionView::BitwiseXor(l, r) => Some((BinaryKind::BitXor, *l, *r)),
        ConditionView::BitwiseAnd(l, r) => Some((BinaryKind::BitAnd, *l, *r)),
        _ => None,
    }
}

/// Whether the grammar can express the condition: every bit range has both
/// of its bounds.
pub open spec fn spellable(c: ConditionView) -> bool
    decreases c,
{
    match c {
        ConditionView::And(l, r) => spellable(*l) && spellable(*r),
        ConditionView::Or(l, r) => spellable(*l) && spellable(*r),
        ConditionView::Not(e) => spellable(*e),
        ConditionView::BitwiseNot(e) => spellable(*e),
        ConditionView::Signal(_) => true,
        ConditionView::BitExtract(_, msb, lsb) => msb is Some && lsb is Some,
        ConditionView::Eq(l, r) => spellable(*l) && spellable(*r),
        ConditionView::Neq(l, r) => spellable(*l) && spellable(*r),
        ConditionView::BitwiseAnd(l, r) => spellable(*l) && spellable(*r),
        ConditionView::BitwiseOr(l, r) => spellable(*l) && spellable(*r),
        ConditionView::BitwiseXor(l, r) => spellable(*l) && spellable(*r),
        ConditionView::Literal(_) => true,
        ConditionView::Past(e) => spellable(*e),
    }
}

/// The tokens that spell a condition, each operand of an operator in
/// parentheses.
pub open spec fn spell(c: ConditionView) -> Seq<TokenView>
    decreases c,
{
    match c {
        ConditionView::And(l, r) => group(spell(*l)) + seq![TokenView::AndAnd] + group(spell(*r)),
        ConditionView::Or(l, r) => group(spell(*l)) + seq![TokenView::OrOr] + group(spell(*r)),
        ConditionView::Not(e) => seq![TokenView::Bang] + group(spell(*e)),
        ConditionView::BitwiseNot(e) => seq![TokenView::Tilde] + group(spell(*e)),
        ConditionView::Signal(path) => seq![TokenView::Path(path)],
        ConditionView::BitExtract(path, msb, lsb) => seq![
            TokenView::Path(path),
            TokenView::LBracket,
            TokenView::Number(msb->0),
            TokenView::Colon,
            TokenView::Number(lsb->0),
            TokenView::RBracket,
        ],
        ConditionView::Eq(l, r) => group(spell(*l)) + seq![TokenView::EqEq] + group(spell(*r)),
        ConditionView::Neq(l, r) => group(spell(*l)) + seq![TokenView::NotEq] + group(spell(*r)),
        ConditionView::BitwiseAnd(l, r) => group(spell(*l)) + seq![TokenView::Amp] + group(
            spell(*r),
        ),
        ConditionView::BitwiseOr(l, r) => group(spell(*l)) + seq![TokenView::Pipe] + group(
            spell(*r),
        ),
        ConditionView::BitwiseXor(l, r) => group(spell(*l)) + seq![TokenView::Caret] + group(
            spell(*r),
        ),
        ConditionView::Literal(lit) => seq![TokenView::Literal(lit)],
        ConditionView::Past(e) => seq![TokenView::Past] + group(spell(*e)),
    }
}

/// Tokens in parentheses.
pub open spec fn group(inner: Seq<TokenView>) -> Seq<TokenView> {
    seq![TokenView::LParen] + inner + seq![TokenView::RParen]
}

/// Whether `part` stands in `tokens` at `pos`.
pub open spec fn stands_at(tokens: Seq<TokenView>, pos: int, part: Seq<TokenView>) -> bool {
    0 <= pos && pos + part.len() <= tokens.len() && tokens.subrange(pos, pos + part.len()) == part
}

/// Whether nothing that could continue a condition stands at `at`: the
/// tokens end there, or a closing parenthesis stands there.
pub open spec fn stops(tokens: Seq<TokenView>, at: int) -> bool {
    at >= tokens.len() || tokens[at] == TokenView::RParen
}

/// Whether no operator of a level from `from` to `to` stands at `at`.
pub open spec fn no_operator(tokens: Seq<TokenView>, at: int, from: nat, to: nat) -> bool {
    at < 0 || at >= tokens.len() || forall|level: nat|
        from <= level <= to ==> (#[trigger] operator_at(tokens[at], level)) is None
}

proof fn lemma_part(
    tokens: Seq<TokenView>,
    pos: int,
    whole: Seq<TokenView>,
    start: int,
    part: Seq<TokenView>,
)
    requires
        stands_at(tokens, pos, whole),
        0 <= start,
        start + part.len() <= whole.len(),
        whole.subrange(start, start + part.len()) == part,
    ensures
        stands_at(tokens, pos + start, part),
        forall|i: int| 0 <= i < whole.len() ==> tokens[pos + i] == whole[i],
{
    assert forall|i: int| 0 <= i < whole.len() implies tokens[pos + i] == whole[i] by {
        assert(tokens.subrange(pos, pos + whole.len())[i] == tokens[pos + i]);
    }
    assert(tokens.subrange(pos + start, pos + start + part.len()) =~= part) by {
        assert forall|i: int| 0 <= i < part.len() implies tokens.subrange(
            pos + start,
            pos + start + part.len(),
        )[i] == part[i] by {
            assert(whole.subrange(start, start + part.len())[i] == whole[start + i]);
        }
    }
}

/// A condition that ends where no operator of the levels `from` to `to`
/// follows is the whole chain of each of these levels.
proof fn lemma_rise(
    tokens: Seq<TokenView>,
    pos: int,
    from: nat,
    to: nat,
    c: ConditionView,
    next: int,
)
    requires
        0 <= pos,
        from <= to,
        parse_operand(tokens, pos, from) == Ok::<(ConditionView, int), ParseError>((c, next)),
        no_operator(tokens, next, from, to),
    ensures
        parse_level(tokens, pos, to) == Ok::<(ConditionView, int), ParseError>((c, next)),
    decreases to - from,
{
    lemma_operand_sound(tokens, pos, from);
    if next < tokens.len() {
        assert(operator_at(tokens[next], from) is None);
    }
    assert(parse_rest(tokens, next, from, c) == Ok::<(ConditionView, int), ParseError>((c, next)));
    assert(parse_level(tokens, pos, from) == Ok::<(ConditionView, int), ParseError>((c, next)));
    if from < to {
        assert(parse_operand(tokens, pos, from + 1) == parse_level(tokens, pos, from));
        lemma_rise(tokens, pos, from + 1, to, c, next);
    }
}

proof fn lemma_stop_is_no_operator(tokens: Seq<TokenView>, at: int)
    requires
        stops(tokens, at),
    ensures
        no_operator(tokens, at, 0, 5),
        !(0 <= at < tokens.len() && tokens[at] == TokenView::LBracket),
{
}

/// A condition in parentheses reads as the condition.
proof fn lemma_read_group(tokens: Seq<TokenView>, pos: int, c: ConditionView)
    requires
        spellable(c),
        stands_at(tokens, pos, group(spell(c))),
    ensures
        parse_unary(tokens, pos) == Ok::<(ConditionView, int), ParseError>(
            (c, pos + spell(c).len() + 2),
        ),
    decreases c, 2nat,
{
    let whole = group(spell(c));
    let n = spell(c).len() as int;
    assert(whole.len() == n + 2);
    assert(whole.subrange(1, 1 + n) =~= spell(c));
    lemma_part(tokens, pos, whole, 1, spell(c));
    assert(tokens[pos] == whole[0]);
    assert(tokens[pos + n + 1] == whole[n + 1]);
    lemma_read_spelling(tokens, pos + 1, c);
    assert(parse_primary(tokens, pos) == Ok::<(ConditionView, int), ParseError>((c, pos + n + 2)));
}

/// What is asked of a spelling that is read: it stands at `pos`, and
/// nothing that continues a condition follows it.
pub open spec fn spelled_at(tokens: Seq<TokenView>, pos: int, c: ConditionView) -> bool {
    &&& spellable(c)
    &&& stands_at(tokens, pos, spell(c))
    &&& stops(tokens, pos + spell(c).len())
}

/// What reading a spelling gives: the condition, and the place behind the
/// spelling.
pub open spec fn reads_back(tokens: Seq<TokenView>, pos: int, c: ConditionView) -> bool {
    parse_level(tokens, pos, 5) == Ok::<(ConditionView, int), ParseError>(
        (c, pos + spell(c).len()),
    )
}

proof fn lemma_read_leaf(tokens: Seq<TokenView>, pos: int, c: ConditionView)
    requires
        spelled_at(tokens, pos, c),
        c is Signal || c is BitExtract || c is Literal,
    ensures
        reads_back(tokens, pos, c),
{
    let whole = spell(c);
    let end = pos + whole.len();
    lemma_stop_is_no_operator(tokens, end);
    assert(whole.subrange(0, 0) =~= Seq::<TokenView>::empty());
    lemma_part(tokens, pos, whole, 0, Seq::<TokenView>::empty());
    assert(tokens[pos] == whole[0]);
    if c is BitExtract {
        assert(tokens[pos + 1] == whole[1]);
        assert(tokens[pos + 2] == whole[2]);
        assert(tokens[pos + 3] == whole[3]);
        assert(tokens[pos + 4] == whole[4]);
        assert(tokens[pos + 5] == whole[5]);
    }
    assert(parse_primary(tokens, pos) == Ok::<(ConditionView, int), ParseError>((c, end)));
    assert(parse_unary(tokens, pos) == Ok::<(ConditionView, int), ParseError>((c, end)));
    assert(parse_operand(tokens, pos, 0) == parse_unary(tokens, pos));
    lemma_rise(tokens, pos, 0, 5, c, end);
}

proof fn lemma_read_prefixed(tokens: Seq<TokenView>, pos: int, c: ConditionView, e: ConditionView)
    requires
        spelled_at(tokens, pos, c),
        c == ConditionView::Not(Box::new(e)) || c == ConditionView::BitwiseNot(Box::new(e)) || c
            == ConditionView::Past(Box::new(e)),
    ensures
        reads_back(tokens, pos, c),
    decreases c, 0nat,
{
    let whole = spell(c);
    let end = pos + whole.len();
    let inner = group(spell(e));
    let n = spell(e).len() as int;
    lemma_stop_is_no_operator(tokens, end);
    assert(whole.subrange(1, 1 + inner.len() as int) =~= inner);
    lemma_part(tokens, pos, whole, 1, inner);
    assert(tokens[pos] == whole[0]);
    if c is Past {
        assert(inner.subrange(1, 1 + n) =~= spell(e));
        lemma_part(tokens, pos + 1, inner, 1, spell(e));
        assert(tokens[pos + 1] == whole[1]);
        assert(tokens[pos + n + 2] == whole[n + 2]);
        lemma_read_spelling(tokens, pos + 2, e);
        assert(parse_primary(tokens, pos) == Ok::<(ConditionView, int), ParseError>((c, end)));
    } else {
        lemma_read_group(tokens, pos + 1, e);
    }
    assert(parse_unary(tokens, pos) == Ok::<(ConditionView, int), ParseError>((c, end)));
    assert(parse_operand(tokens, pos, 0) == parse_unary(tokens, pos));
    lemma_rise(tokens, pos, 0, 5, c, end);
}

proof fn lemma_operator(kind: BinaryKind)
    ensures
        operator_at(operator_token(kind), operator_level(kind)) == Some(kind),
        operator_level(kind) <= 5,
        forall|level: nat|
            level != operator_level(kind) ==> (#[trigger] operator_at(
                operator_token(kind),
                level,
            )) is None,
{
}

/// An operand of an operator: a group that reads as a unary is the whole
/// operand where what follows is not an operator of a tighter level.
proof fn lemma_read_operand(
    tokens: Seq<TokenView>,
    pos: int,
    level: nat,
    c: ConditionView,
    next: int,
)
    requires
        0 <= pos,
        level <= 5,
        parse_unary(tokens, pos) == Ok::<(ConditionView, int), ParseError>((c, next)),
        level > 0 ==> no_operator(tokens, next, 0, (level - 1) as nat),
    ensures
        parse_operand(tokens, pos, level) == Ok::<(ConditionView, int), ParseError>((c, next)),
{
    assert(parse_operand(tokens, pos, 0) == parse_unary(tokens, pos));
    if level > 0 {
        lemma_rise(tokens, pos, 0, (level - 1) as nat, c, next);
        assert(parse_operand(tokens, pos, level) == parse_level(tokens, pos, (level - 1) as nat));
    }
}

proof fn lemma_read_binary(
    tokens: Seq<TokenView>,
    pos: int,
    c: ConditionView,
    kind: BinaryKind,
    l: ConditionView,
    r: ConditionView,
)
    requires
        spelled_at(tokens, pos, c),
        binary_parts(c) == Some((kind, l, r)),
    ensures
        reads_back(tokens, pos, c),
    decreases c, 0nat,
{
    let whole = spell(c);
    let end = pos + whole.len();
    let left = group(spell(l));
    let right = group(spell(r));
    let level = operator_level(kind);
    let a = left.len() as int;
    let b = right.len() as int;
    let p1 = pos + a;
    lemma_operator(kind);
    lemma_stop_is_no_operator(tokens, end);
    assert(whole == left + seq![operator_token(kind)] + right);
    assert(c == binary_node(kind, l, r));
    assert(whole.subrange(0, a) =~= left);
    assert(whole.subrange(a + 1, a + 1 + b) =~= right);
    lemma_part(tokens, pos, whole, 0, left);
    lemma_part(tokens, pos, whole, a + 1, right);
    assert(tokens[p1] == whole[a]);
    assert(tokens[p1] == operator_token(kind));
    lemma_read_group(tokens, pos, l);
    lemma_read_group(tokens, p1 + 1, r);
    lemma_read_operand(tokens, pos, level, l, p1);
    lemma_read_operand(tokens, p1 + 1, level, r, end);
    lemma_join(tokens, pos, level, kind, l, r, p1, end);
    if level < 5 {
        assert(parse_operand(tokens, pos, level + 1) == parse_level(tokens, pos, level));
        lemma_rise(tokens, pos, level + 1, 5, c, end);
    }
}

/// Two operands with an operator of their level between them, and no
/// operator of that level behind them, are one chain of that level.
proof fn lemma_join(
    tokens: Seq<TokenView>,
    pos: int,
    level: nat,
    kind: BinaryKind,
    l: ConditionView,
    r: ConditionView,
    p1: int,
    end: int,
)
    requires
        0 <= pos,
        pos < p1 < tokens.len(),
        p1 + 1 < end <= tokens.len(),
        operator_at(tokens[p1], level) == Some(kind),
        parse_operand(tokens, pos, level) == Ok::<(ConditionView, int), ParseError>((l, p1)),
        parse_operand(tokens, p1 + 1, level) == Ok::<(ConditionView, int), ParseError>((r, end)),
        no_operator(tokens, end, level, level),
    ensures
        parse_level(tokens, pos, level) == Ok::<(ConditionView, int), ParseError>(
            (binary_node(kind, l, r), end),
        ),
{
    let c = binary_node(kind, l, r);
    if end < tokens.len() {
        assert(operator_at(tokens[end], level) is None);
    }
    assert(parse_rest(tokens, end, level, c) == Ok::<(ConditionView, int), ParseError>((c, end)));
    assert(parse_rest(tokens, p1, level, l) == Ok::<(ConditionView, int), ParseError>((c, end)));
}

/// The spelling of a condition, followed by nothing that continues it,
/// reads as the condition.
proof fn lemma_read_spelling(tokens: Seq<TokenView>, pos: int, c: ConditionView)
    requires
        spelled_at(tokens, pos, c),
    ensures
        reads_back(tokens, pos, c),
    decreases c, 1nat,
{
    match c {
        ConditionView::And(l, r) => lemma_read_binary(tokens, pos, c, BinaryKind::And, *l, *r),
        ConditionView::Or(l, r) => lemma_read_binary(tokens, pos, c, BinaryKind::Or, *l, *r),
        ConditionView::Eq(l, r) => lemma_read_binary(tokens, pos, c, BinaryKind::Eq, *l, *r),
        ConditionView::Neq(l, r) => lemma_read_binary(tokens, pos, c, BinaryKind::Neq, *l, *r),
        ConditionView::BitwiseAnd(l, r) => lemma_read_binary(
            tokens,
            pos,
            c,
            BinaryKind::BitAnd,
            *l,
            *r,
        ),
        ConditionView::BitwiseOr(l, r) => lemma_read_binary(
            tokens,
            pos,
            c,
            BinaryKind::BitOr,
            *l,
            *r,
        ),
        ConditionView::BitwiseXor(l, r) => lemma_read_binary(
            tokens,
            pos,
            c,
            BinaryKind::BitXor,
            *l,
            *r,
        ),
        ConditionView::Not(e) => lemma_read_prefixed(tokens, pos, c, *e),
        ConditionView::BitwiseNot(e) => lemma_read_prefixed(tokens, pos, c, *e),
        ConditionView::Past(e) => lemma_read_prefixed(tokens, pos, c, *e),
        _ => lemma_read_leaf(tokens, pos, c),
    }
}

/// Reading the spelling of a condition gives the condition back.
pub proof fn lemma_spelling_reads_back(c: ConditionView)
    requires
        spellable(c),
    ensures
        parse_tokens(spell(c)) == Ok::<ConditionView, ParseError>(c),
{
    let tokens = spell(c);
    assert(tokens.subrange(0, tokens.len() as int) =~= tokens);
    lemma_read_spelling(tokens, 0, c);
}

} // verus!
