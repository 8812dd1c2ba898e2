//! Evaluating a condition at one time index of a trace.

use vstd::prelude::*;
use vstd::string::*;
use num_bigint::BigUint;
use crate::ast::{literal_widths_positive, Condition, ConditionView};
use crate::bignum::{
    big_and,
    big_eq,
    big_from_u64,
    big_is_zero,
    big_low_mask,
    big_or,
    big_shr,
    big_value,
    big_xor,
};
use crate::bitmath::{
    bit_field,
    lemma_and_low_mask,
    lemma_not_twice,
    nat_and,
    nat_not,
    nat_or,
    nat_xor,
};
use crate::errors::{EvalError, EvalErrorView};
use crate::literal::literal_to_biguint;
use crate::trace::{signal_value_to_biguint, value_magnitude, Trace};

verus! {

/// A magnitude and its bit width, or the reason why there is none.
pub type Reading = Result<(nat, u32), EvalErrorView>;

/// The one-bit truth value: 1 for true, 0 for false.
pub open spec fn truth(b: bool) -> (nat, u32) {
    (if b { 1nat } else { 0nat }, 1u32)
}

/// The larger of two widths.
pub open spec fn wider(a: u32, b: u32) -> u32 {
    if a >= b {
        a
    } else {
        b
    }
}

/// What a signal reads at a time index: its magnitude there and its declared
/// width.
pub open spec fn signal_reading(trace: Trace, path: Seq<char>, t: nat) -> Reading {
    match trace.spec_resolve(path) {
        None => Err(EvalErrorView::SignalNotFound(path)),
        Some(handle) => match trace.signals[handle].width {
            None => Err(EvalErrorView::NoWidth(path)),
            Some(width) => if t > u32::MAX {
                Err(EvalErrorView::TimeIndexTooLarge(t))
            } else if !trace.has_value(handle, t) {
                Err(EvalErrorView::NoData(path, t))
            } else {
                match value_magnitude(trace.signals[handle].values[t as int]->0) {
                    Ok(m) => Ok((m, width)),
                    Err(e) => Err(e),
                }
            },
        },
    }
}

/// Bits `[msb:lsb]` of a reading, as wide as the range; the reading itself
/// where a bound is missing. A range with `msb < lsb` is an error.
pub open spec fn extract_bits(full: Reading, msb: Option<u32>, lsb: Option<u32>) -> Reading {
    match full {
        Err(e) => Err(e),
        Ok((value, width)) => match (msb, lsb) {
            (Some(m), Some(l)) => if m < l {
                Err(EvalErrorView::InvalidBitRange(m, l))
            } else if m - l == u32::MAX {
                Err(EvalErrorView::BitRangeTooWide(m, l))
            } else {
                Ok((bit_field(value, l as nat, (m - l + 1) as nat), (m - l + 1) as u32))
            },
            _ => Ok((value, width)),
        },
    }
}

/// The value of two readings under an operator that looks at magnitudes
/// only and gives one bit; the left error comes first.
pub open spec fn combine_truth(a: Reading, b: Reading, f: spec_fn(nat, nat) -> bool) -> Reading {
    match a {
        Err(e) => Err(e),
        Ok((x, _)) => match b {
            Err(e) => Err(e),
            Ok((y, _)) => Ok(truth(f(x, y))),
        },
    }
}

/// The value of two readings under a bitwise operator; the result is as
/// wide as the wider operand, and the left error comes first.
pub open spec fn combine_bits(a: Reading, b: Reading, f: spec_fn(nat, nat) -> nat) -> Reading {
    match a {
        Err(e) => Err(e),
        Ok((x, wx)) => match b {
            Err(e) => Err(e),
            Ok((y, wy)) => Ok((f(x, y), wider(wx, wy))),
        },
    }
}

/// The value of a condition at time index `t` of a trace: a magnitude and a
/// bit width, or the first error met, operands taken left to right.
pub open spec fn eval(c: ConditionView, trace: Trace, t: nat) -> Reading
    decreases c,
{
    match c {
        ConditionView::And(l, r) => combine_truth(
            eval(*l, trace, t),
            eval(*r, trace, t),
            |x: nat, y: nat| x != 0 && y != 0,
        ),
        ConditionView::Or(l, r) => combine_truth(
            eval(*l, trace, t),
            eval(*r, trace, t),
            |x: nat, y: nat| x != 0 || y != 0,
        ),
        ConditionView::Not(e) => match eval(*e, trace, t) {
            Err(e) => Err(e),
            Ok((x, _)) => Ok(truth(x == 0)),
        },
        ConditionView::BitwiseNot(e) => match eval(*e, trace, t) {
            Err(e) => Err(e),
            Ok((x, width)) => Ok((nat_not(x, width as nat), width)),
        },
        ConditionView::Signal(path) => signal_reading(trace, path, t),
        ConditionView::BitExtract(path, msb, lsb) => extract_bits(
            signal_reading(trace, path, t),
            msb,
            lsb,
        ),
        ConditionView::Eq(l, r) => combine_truth(
            eval(*l, trace, t),
            eval(*r, trace, t),
            |x: nat, y: nat| x == y,
        ),
        ConditionView::Neq(l, r) => combine_truth(
            eval(*l, trace, t),
            eval(*r, trace, t),
            |x: nat, y: nat| x != y,
        ),
        ConditionView::BitwiseAnd(l, r) => combine_bits(
            eval(*l, trace, t),
            eval(*r, trace, t),
            |x: nat, y: nat| nat_and(x, y),
        ),
        ConditionView::BitwiseOr(l, r) => combine_bits(
            eval(*l, trace, t),
            eval(*r, trace, t),
            |x: nat, y: nat| nat_or(x, y),
        ),
        ConditionView::BitwiseXor(l, r) => combine_bits(
            eval(*l, trace, t),
            eval(*r, trace, t),
            |x: nat, y: nat| nat_xor(x, y),
        ),
        ConditionView::Literal(lit) => Ok((lit.magnitude(), lit.width())),
        ConditionView::Past(e) => if t == 0 {
            Ok((0, 1))
        } else {
            eval(*e, trace, (t - 1) as nat)
        },
    }
}

/// `$past` at time index 0 is `(0, 1)` whatever its operand is, also where
/// the operand names a signal that the trace does not have; at any later
/// index it is the operand one index earlier.
pub proof fn lemma_past(e: ConditionView, trace: Trace, t: nat)
    ensures
        eval(ConditionView::Past(Box::new(e)), trace, 0) == Ok::<(nat, u32), EvalErrorView>(
            (0nat, 1u32),
        ),
        t > 0 ==> eval(ConditionView::Past(Box::new(e)), trace, t) == eval(
            e,
            trace,
            (t - 1) as nat,
        ),
{
}

/// Bitwise NOT applied twice gives the operand back, magnitude and width.
pub proof fn lemma_double_not(e: ConditionView, trace: Trace, t: nat)
    ensures
        eval(
            ConditionView::BitwiseNot(Box::new(ConditionView::BitwiseNot(Box::new(e)))),
            trace,
            t,
        ) == eval(e, trace, t),
{
    let inner = ConditionView::BitwiseNot(Box::new(e));
    match eval(e, trace, t) {
        Ok((x, width)) => {
            lemma_not_twice(x, width as nat);
            assert(eval(inner, trace, t) == Ok::<(nat, u32), EvalErrorView>(
                (nat_not(x, width as nat), width),
            ));
        },
        Err(_) => {},
    }
}

/// A bit range with `msb < lsb` never has a value: where the signal can be
/// read, the range is refused as it was written, and the bounds are not
/// exchanged.
pub proof fn lemma_reversed_range_fails(
    path: Seq<char>,
    msb: u32,
    lsb: u32,
    trace: Trace,
    t: nat,
)
    requires
        msb < lsb,
    ensures
        eval(ConditionView::BitExtract(path, Some(msb), Some(lsb)), trace, t) is Err,
        signal_reading(trace, path, t) is Ok ==> eval(
            ConditionView::BitExtract(path, Some(msb), Some(lsb)),
            trace,
            t,
        ) == Err::<(nat, u32), EvalErrorView>(EvalErrorView::InvalidBitRange(msb, lsb)),
{
}

/// `==` and `!=` compare magnitudes and nothing else: the widths of the
/// operands play no part.
pub proof fn lemma_equality_ignores_width(
    l: ConditionView,
    r: ConditionView,
    trace: Trace,
    t: nat,
)
    requires
        eval(l, trace, t) is Ok,
        eval(r, trace, t) is Ok,
    ensures
        eval(ConditionView::Eq(Box::new(l), Box::new(r)), trace, t) == Ok::<
            (nat, u32),
            EvalErrorView,
        >(truth(eval(l, trace, t)->Ok_0.0 == eval(r, trace, t)->Ok_0.0)),
        eval(ConditionView::Neq(Box::new(l), Box::new(r)), trace, t) == Ok::<
            (nat, u32),
            EvalErrorView,
        >(truth(eval(l, trace, t)->Ok_0.0 != eval(r, trace, t)->Ok_0.0)),
{
}

/// Logical operators and comparisons give one bit, 0 or 1.
pub proof fn lemma_truth_is_one_bit(c: ConditionView, trace: Trace, t: nat)
    requires
        c is And || c is Or || c is Not || c is Eq || c is Neq,
        eval(c, trace, t) is Ok,
    ensures
        eval(c, trace, t)->Ok_0.1 == 1,
        eval(c, trace, t)->Ok_0.0 <= 1,
{
}

/// Whether every signal of the trace that has a width has one of at least
/// one bit.
pub open spec fn signal_widths_positive(trace: Trace) -> bool {
    forall|i: int|
        0 <= i < trace.signals.len() ==> match (#[trigger] trace.signals[i]).width {
            Some(width) => width >= 1,
            None => true,
        }
}

/// Where literals and signals are at least one bit wide, so is every value
/// of a condition.
pub proof fn lemma_width_positive(c: ConditionView, trace: Trace, t: nat)
    requires
        literal_widths_positive(c),
        signal_widths_positive(trace),
        eval(c, trace, t) is Ok,
    ensures
        eval(c, trace, t)->Ok_0.1 >= 1,
    decreases c,
{
    match c {
        ConditionView::BitwiseNot(e) => {
            lemma_width_positive(*e, trace, t);
        },
        ConditionView::BitwiseAnd(l, r) => {
            lemma_width_positive(*l, trace, t);
            lemma_width_positive(*r, trace, t);
        },
        ConditionView::BitwiseOr(l, r) => {
            lemma_width_positive(*l, trace, t);
            lemma_width_positive(*r, trace, t);
        },
        ConditionView::BitwiseXor(l, r) => {
            lemma_width_positive(*l, trace, t);
            lemma_width_positive(*r, trace, t);
        },
        ConditionView::Signal(path) => {
            crate::trace::lemma_find_path(trace.signals@, path, 0);
        },
        ConditionView::BitExtract(path, _, _) => {
            crate::trace::lemma_find_path(trace.signals@, path, 0);
        },
        ConditionView::Past(e) => {
            if t > 0 {
                lemma_width_positive(*e, trace, (t - 1) as nat);
            }
        },
        _ => {},
    }
}

/// Whether an executable result is the given reading.
pub open spec fn is_reading(r: Result<(BigUint, u32), EvalError>, reading: Reading) -> bool {
    match r {
        Ok((value, width)) => reading == Ok::<(nat, u32), EvalErrorView>((big_value(value), width)),
        Err(e) => reading == Err::<(nat, u32), EvalErrorView>(e@),
    }
}

fn truth_value(b: bool) -> (r: (BigUint, u32))
    ensures
        (big_value(r.0), r.1) == truth(b),
{
    (big_from_u64(if b { 1 } else { 0 }), 1)
}

fn max_width(a: u32, b: u32) -> (w: u32)
    ensures
        w == wider(a, b),
{
    if a >= b {
        a
    } else {
        b
    }
}

/// Reads a signal at a time index: its magnitude there and its declared
/// width.
pub fn read_signal(trace: &Trace, path: &String, time_idx: usize) -> (r: Result<
    (BigUint, u32),
    EvalError,
>)
    ensures
        is_reading(r, signal_reading(*trace, path@, time_idx as nat)),
{
    let handle = match trace.find_signal(path) {
        Some(handle) => handle,
        None => {
            return Err(EvalError::SignalNotFound(path.clone()));
        },
    };
    let width = match trace.width(handle) {
        Some(width) => width,
        None => {
            return Err(EvalError::NoWidth(path.clone()));
        },
    };
    if time_idx > u32::MAX as usize {
        return Err(EvalError::TimeIndexTooLarge(time_idx));
    }
    let signal_value = match trace.value_at(handle, time_idx) {
        Some(signal_value) => signal_value,
        None => {
            return Err(EvalError::NoData(path.clone(), time_idx));
        },
    };
    match signal_value_to_biguint(signal_value) {
        Ok(value) => Ok((value, width)),
        Err(e) => Err(e),
    }
}

/// Takes bits `[msb:lsb]` out of a magnitude; where a bound is missing, the
/// magnitude and its width stay as they are.
pub fn select_bits(full_value: BigUint, full_width: u32, msb: Option<u32>, lsb: Option<u32>) -> (r:
    Result<(BigUint, u32), EvalError>)
    ensures
        is_reading(
            r,
            extract_bits(Ok((big_value(full_value), full_width)), msb, lsb),
        ),
{
    match (msb, lsb) {
        (Some(msb), Some(lsb)) => {
            if msb < lsb {
                return Err(EvalError::InvalidBitRange(msb, lsb));
            }
            if msb - lsb == u32::MAX {
                return Err(EvalError::BitRangeTooWide(msb, lsb));
            }
            let num_bits = msb - lsb + 1;
            let shifted = big_shr(&full_value, lsb);
            let mask = big_low_mask(num_bits);
            proof {
                lemma_and_low_mask(big_value(shifted), num_bits as nat);
            }
            Ok((big_and(&shifted, &mask), num_bits))
        },
        _ => Ok((full_value, full_width)),
    }
}

/// Evaluates a condition at a time index, giving the magnitude and its bit
/// width.
///
/// Logical operators and comparisons give one bit. Bitwise operators give
/// the width of the wider operand, bitwise NOT that of its operand. A signal
/// has its declared width, a bit range the number of its bits, a literal the
/// width written in it. `$past` at time index 0 is `(0, 1)`, whatever its
/// operand; elsewhere it is the operand one index earlier.
pub fn evaluate_condition_with_width(condition: &Condition, trace: &Trace, time_idx: usize) -> (r:
    Result<(BigUint, u32), EvalError>)
    ensures
        is_reading(r, eval(condition@, *trace, time_idx as nat)),
    decreases condition, 0nat,
{
    match condition {
        Condition::And(left, right) => {
            let left_val = evaluate_condition(left, trace, time_idx)?;
            let right_val = evaluate_condition(right, trace, time_idx)?;
            Ok(truth_value(!big_is_zero(&left_val) && !big_is_zero(&right_val)))
        },
        Condition::Or(left, right) => {
            let left_val = evaluate_condition(left, trace, time_idx)?;
            let right_val = evaluate_condition(right, trace, time_idx)?;
            Ok(truth_value(!big_is_zero(&left_val) || !big_is_zero(&right_val)))
        },
        Condition::BitwiseAnd(left, right) => {
            let (left_val, left_width) = evaluate_condition_with_width(left, trace, time_idx)?;
            let (right_val, right_width) = evaluate_condition_with_width(right, trace, time_idx)?;
            Ok((big_and(&left_val, &right_val), max_width(left_width, right_width)))
        },
        Condition::BitwiseOr(left, right) => {
            let (left_val, left_width) = evaluate_condition_with_width(left, trace, time_idx)?;
            let (right_val, right_width) = evaluate_condition_with_width(right, trace, time_idx)?;
            Ok((big_or(&left_val, &right_val), max_width(left_width, right_width)))
        },
        Condition::BitwiseXor(left, right) => {
            let (left_val, left_width) = evaluate_condition_with_width(left, trace, time_idx)?;
            let (right_val, right_width) = evaluate_condition_with_width(right, trace, time_idx)?;
            Ok((big_xor(&left_val, &right_val), max_width(left_width, right_width)))
        },
        Condition::Not(expr) => {
            let val = evaluate_condition(expr, trace, time_idx)?;
            Ok(truth_value(big_is_zero(&val)))
        },
        Condition::BitwiseNot(expr) => {
            let (val, width) = evaluate_condition_with_width(expr, trace, time_idx)?;
            let mask = big_low_mask(width);
            Ok((big_xor(&val, &mask), width))
        },
        Condition::Signal(path) => read_signal(trace, path, time_idx),
        Condition::BitExtract(path, msb, lsb) => {
            let (full_value, full_width) = read_signal(trace, path, time_idx)?;
            select_bits(full_value, full_width, *msb, *lsb)
        },
        Condition::Eq(left, right) => {
            let left_val = evaluate_condition(left, trace, time_idx)?;
            let right_val = evaluate_condition(right, trace, time_idx)?;
            Ok(truth_value(big_eq(&left_val, &right_val)))
        },
        Condition::Neq(left, right) => {
            let left_val = evaluate_condition(left, trace, time_idx)?;
            let right_val = evaluate_condition(right, trace, time_idx)?;
            Ok(truth_value(!big_eq(&left_val, &right_val)))
        },
        Condition::Literal(literal) => literal_to_biguint(literal),
        Condition::Past(expr) => {
            if time_idx == 0 {
                return Ok((big_from_u64(0), 1));
            }
            evaluate_condition_with_width(expr, trace, time_idx - 1)
        },
    }
}

/// Evaluates a condition at a time index, giving the magnitude: 0 stands for
/// false, anything else for true.
pub fn evaluate_condition(condition: &Condition, trace: &Trace, time_idx: usize) -> (r: Result<
    BigUint,
    EvalError,
>)
    ensures
        match r {
            Ok(value) => eval(condition@, *trace, time_idx as nat) is Ok && eval(
                condition@,
                *trace,
                time_idx as nat,
            )->Ok_0.0 == big_value(value),
            Err(e) => eval(condition@, *trace, time_idx as nat) == Err::<(nat, u32), EvalErrorView>(
                e@,
            ),
        },
    decreases condition, 1nat,
{
    match evaluate_condition_with_width(condition, trace, time_idx) {
        Ok((value, _width)) => Ok(value),
        Err(e) => Err(e),
    }
}

} // verus!
