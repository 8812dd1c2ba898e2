//! The condition tree and sized literals.
//!
//! `Condition` and `Literal` are the executable types. Contracts speak of
//! their views, `ConditionView` and `LiteralView`, in which each string is a
//! sequence of characters and each vector a sequence.

use vstd::prelude::*;
use crate::text::digits_number;

verus! {

/// A sized literal `<width>'<base><digits>`: the decoded digits and the
/// width written in front of the quote.
#[derive(Debug, Clone, PartialEq)]
pub enum Literal {
    /// Binary digits, most significant first, and the bit width.
    Binary(Vec<bool>, u32),
    /// Decimal digits, most significant first, and the bit width.
    Decimal(Vec<u8>, u32),
    /// Hexadecimal digits, most significant first, and the bit width.
    Hexadecimal(Vec<u8>, u32),
}

/// What a `Literal` holds, as mathematics.
pub enum LiteralView {
    Binary(Seq<bool>, u32),
    Decimal(Seq<u8>, u32),
    Hexadecimal(Seq<u8>, u32),
}

impl View for Literal {
    type V = LiteralView;

    open spec fn view(&self) -> LiteralView {
        match self {
            Literal::Binary(bits, width) => LiteralView::Binary(bits@, *width),
            Literal::Decimal(digits, width) => LiteralView::Decimal(digits@, *width),
            Literal::Hexadecimal(digits, width) => LiteralView::Hexadecimal(digits@, *width),
        }
    }
}

/// The number that binary digits spell, most significant digit first.
pub open spec fn bits_value(bits: Seq<bool>) -> nat
    decreases bits.len(),
{
    if bits.len() == 0 {
        0
    } else {
        2 * bits_value(bits.drop_last()) + if bits.last() { 1nat } else { 0nat }
    }
}

impl LiteralView {
    /// The magnitude that the digits spell; there is no bound on it.
    pub open spec fn magnitude(self) -> nat {
        match self {
            LiteralView::Binary(bits, _) => bits_value(bits),
            LiteralView::Decimal(digits, _) => digits_number(digits, 10),
            LiteralView::Hexadecimal(digits, _) => digits_number(digits, 16),
        }
    }

    /// The bit width written in the literal's prefix.
    pub open spec fn width(self) -> u32 {
        match self {
            LiteralView::Binary(_, width) => width,
            LiteralView::Decimal(_, width) => width,
            LiteralView::Hexadecimal(_, width) => width,
        }
    }
}

/// A condition over the signals of a trace.
#[derive(Debug, PartialEq)]
pub enum Condition {
    /// Logical AND; the result is one bit wide.
    And(Box<Condition>, Box<Condition>),
    /// Logical OR; the result is one bit wide.
    Or(Box<Condition>, Box<Condition>),
    /// Logical negation; the result is one bit wide.
    Not(Box<Condition>),
    /// Bitwise NOT within the operand's width.
    BitwiseNot(Box<Condition>),
    /// A signal, by its dotted path, at its full width.
    Signal(String),
    /// Bits `[msb:lsb]` of a signal; with no bounds, the whole signal.
    BitExtract(String, Option<u32>, Option<u32>),
    /// Equality of magnitudes, whatever the widths.
    Eq(Box<Condition>, Box<Condition>),
    /// Inequality of magnitudes, whatever the widths.
    Neq(Box<Condition>, Box<Condition>),
    /// Bitwise AND; the wider operand gives the width.
    BitwiseAnd(Box<Condition>, Box<Condition>),
    /// Bitwise OR; the wider operand gives the width.
    BitwiseOr(Box<Condition>, Box<Condition>),
    /// Bitwise XOR; the wider operand gives the width.
    BitwiseXor(Box<Condition>, Box<Condition>),
    /// A sized literal.
    Literal(Literal),
    /// The operand one time index earlier.
    Past(Box<Condition>),
}

/// What a `Condition` holds, as mathematics.
pub enum ConditionView {
    And(Box<ConditionView>, Box<ConditionView>),
    Or(Box<ConditionView>, Box<ConditionView>),
    Not(Box<ConditionView>),
    BitwiseNot(Box<ConditionView>),
    Signal(Seq<char>),
    BitExtract(Seq<char>, Option<u32>, Option<u32>),
    Eq(Box<ConditionView>, Box<ConditionView>),
    Neq(Box<ConditionView>, Box<ConditionView>),
    BitwiseAnd(Box<ConditionView>, Box<ConditionView>),
    BitwiseOr(Box<ConditionView>, Box<ConditionView>),
    BitwiseXor(Box<ConditionView>, Box<ConditionView>),
    Literal(LiteralView),
    Past(Box<ConditionView>),
}

/// The view of a condition: the same tree over character sequences.
pub open spec fn condition_view(c: Condition) -> ConditionView
    decreases c,
{
    match c {
        Condition::And(l, r) => ConditionView::And(
            Box::new(condition_view(*l)),
            Box::new(condition_view(*r)),
        ),
        Condition::Or(l, r) => ConditionView::Or(
            Box::new(condition_view(*l)),
            Box::new(condition_view(*r)),
        ),
        Condition::Not(e) => ConditionView::Not(Box::new(condition_view(*e))),
        Condition::BitwiseNot(e) => ConditionView::BitwiseNot(Box::new(condition_view(*e))),
        Condition::Signal(path) => ConditionView::Signal(path@),
        Condition::BitExtract(path, msb, lsb) => ConditionView::BitExtract(path@, msb, lsb),
        Condition::Eq(l, r) => ConditionView::Eq(
            Box::new(condition_view(*l)),
            Box::new(condition_view(*r)),
        ),
        Condition::Neq(l, r) => ConditionView::Neq(
            Box::new(condition_view(*l)),
            Box::new(condition_view(*r)),
        ),
        Condition::BitwiseAnd(l, r) => ConditionView::BitwiseAnd(
            Box::new(condition_view(*l)),
            Box::new(condition_view(*r)),
        ),
        Condition::BitwiseOr(l, r) => ConditionView::BitwiseOr(
            Box::new(condition_view(*l)),
            Box::new(condition_view(*r)),
        ),
        Condition::BitwiseXor(l, r) => ConditionView::BitwiseXor(
            Box::new(condition_view(*l)),
            Box::new(condition_view(*r)),
        ),
        Condition::Literal(lit) => ConditionView::Literal(lit@),
        Condition::Past(e) => ConditionView::Past(Box::new(condition_view(*e))),
    }
}

impl View for Condition {
    type V = ConditionView;

    open spec fn view(&self) -> ConditionView {
        condition_view(*self)
    }
}

/// Whether every literal of the condition has a width of at least one bit.
pub open spec fn literal_widths_positive(c: ConditionView) -> bool
    decreases c,
{
    match c {
        ConditionView::And(l, r) => literal_widths_positive(*l) && literal_widths_positive(*r),
        ConditionView::Or(l, r) => literal_widths_positive(*l) && literal_widths_positive(*r),
        ConditionView::Not(e) => literal_widths_positive(*e),
        ConditionView::BitwiseNot(e) => literal_widths_positive(*e),
        ConditionView::Signal(_) => true,
        ConditionView::BitExtract(_, _, _) => true,
        ConditionView::Eq(l, r) => literal_widths_positive(*l) && literal_widths_positive(*r),
        ConditionView::Neq(l, r) => literal_widths_positive(*l) && literal_widths_positive(*r),
        ConditionView::BitwiseAnd(l, r) => literal_widths_positive(*l) && literal_widths_positive(
            *r,
        ),
        ConditionView::BitwiseOr(l, r) => literal_widths_positive(*l) && literal_widths_positive(
            *r,
        ),
        ConditionView::BitwiseXor(l, r) => literal_widths_positive(*l) && literal_widths_positive(
            *r,
        ),
        ConditionView::Literal(lit) => lit.width() >= 1,
        ConditionView::Past(e) => literal_widths_positive(*e),
    }
}

/// A copy of a condition.
pub fn clone_condition(c: &Condition) -> (r: Condition)
    ensures
        r@ == c@,
    decreases c,
{
    match c {
        Condition::And(l, r) => Condition::And(
            Box::new(clone_condition(l)),
            Box::new(clone_condition(r)),
        ),
        Condition::Or(l, r) => Condition::Or(
            Box::new(clone_condition(l)),
            Box::new(clone_condition(r)),
        ),
        Condition::Not(e) => Condition::Not(Box::new(clone_condition(e))),
        Condition::BitwiseNot(e) => Condition::BitwiseNot(Box::new(clone_condition(e))),
        Condition::Signal(path) => Condition::Signal(path.clone()),
        Condition::BitExtract(path, msb, lsb) => Condition::BitExtract(path.clone(), *msb, *lsb),
        Condition::Eq(l, r) => Condition::Eq(
            Box::new(clone_condition(l)),
            Box::new(clone_condition(r)),
        ),
        Condition::Neq(l, r) => Condition::Neq(
            Box::new(clone_condition(l)),
            Box::new(clone_condition(r)),
        ),
        Condition::BitwiseAnd(l, r) => Condition::BitwiseAnd(
            Box::new(clone_condition(l)),
            Box::new(clone_condition(r)),
        ),
        Condition::BitwiseOr(l, r) => Condition::BitwiseOr(
            Box::new(clone_condition(l)),
            Box::new(clone_condition(r)),
        ),
        Condition::BitwiseXor(l, r) => Condition::BitwiseXor(
            Box::new(clone_condition(l)),
            Box::new(clone_condition(r)),
        ),
        Condition::Literal(lit) => Condition::Literal(clone_literal(lit)),
        Condition::Past(e) => Condition::Past(Box::new(clone_condition(e))),
    }
}

/// A copy of a literal.
pub fn clone_literal(lit: &Literal) -> (r: Literal)
    ensures
        r@ == lit@,
{
    match lit {
        Literal::Binary(bits, width) => {
            let copy = bits.clone();
            assert(copy@ =~= bits@);
            Literal::Binary(copy, *width)
        },
        Literal::Decimal(digits, width) => {
            let copy = digits.clone();
            assert(copy@ =~= digits@);
            Literal::Decimal(copy, *width)
        },
        Literal::Hexadecimal(digits, width) => {
            let copy = digits.clone();
            assert(copy@ =~= digits@);
            Literal::Hexadecimal(copy, *width)
        },
    }
}

impl Clone for Condition {
    fn clone(&self) -> (r: Self)
        ensures
            r@ == self@,
    {
        clone_condition(self)
    }
}

} // verus!
