//! An in-memory trace: named signals and their values at each time index.

use vstd::prelude::*;
use vstd::string::*;
use num_bigint::BigUint;
use crate::bignum::{big_from_u64, big_value, digits_to_biguint};
use crate::errors::{EvalError, EvalErrorView};
use crate::text::{digit_run, digits_number, lower_text, read_digits, str_to_chars, to_ascii_lower};

verus! {

/// The unit in which a trace counts time.
#[derive(Debug, Clone, Copy, PartialEq, Eq)]
pub enum TimescaleUnit {
    ZeptoSeconds,
    AttoSeconds,
    FemtoSeconds,
    PicoSeconds,
    NanoSeconds,
    MicroSeconds,
    MilliSeconds,
    Seconds,
    Unknown,
}

/// The length of one time step of a trace: `factor` times `unit`.
#[derive(Debug, Clone, Copy, PartialEq, Eq)]
pub struct Timescale {
    pub factor: u32,
    pub unit: TimescaleUnit,
}

/// The value of a signal at one time index.
#[derive(Debug, Clone, PartialEq)]
pub enum SignalValue {
    /// Two-state bits: the storage bytes and the number of bits.
    Binary(Vec<u8>, u32),
    /// Four-state bits: the storage bytes and the number of bits.
    FourValue(Vec<u8>, u32),
    /// Nine-state bits: the storage bytes and the number of bits.
    NineValue(Vec<u8>, u32),
    /// A free-form string.
    String(String),
    /// A real number: its IEEE 754 double-precision bit pattern, and the
    /// text that displays it.
    Real(u64, String),
    /// An event, which has no value.
    Event,
}

/// One signal of a trace.
#[derive(Debug, Clone, PartialEq)]
pub struct TraceSignal {
    /// The dotted hierarchical path of the signal.
    pub path: String,
    /// The declared bit width; `None` for a signal of strings or reals.
    pub width: Option<u32>,
    /// The value at each time index; `None` where the signal has no data.
    pub values: Vec<Option<SignalValue>>,
}

/// A trace: signals, the timestamp of each time index, and the timescale.
#[derive(Debug, Clone, PartialEq)]
pub struct Trace {
    pub signals: Vec<TraceSignal>,
    pub time_table: Vec<u64>,
    pub timescale: Option<Timescale>,
}

/// The first index from `from` on at which a signal has the path, if any.
pub open spec fn find_path(signals: Seq<TraceSignal>, path: Seq<char>, from: int) -> Option<int>
    decreases signals.len() - from,
{
    if from < 0 || from >= signals.len() {
        None
    } else if signals[from].path@ == path {
        Some(from)
    } else {
        find_path(signals, path, from + 1)
    }
}

/// `find_path` returns the least index with the path, and `None` only where
/// no signal from `from` on has it.
pub proof fn lemma_find_path(signals: Seq<TraceSignal>, path: Seq<char>, from: int)
    requires
        0 <= from,
    ensures
        match find_path(signals, path, from) {
            Some(i) => from <= i < signals.len() && signals[i].path@ == path && forall|j: int|
                from <= j < i ==> signals[j].path@ != path,
            None => forall|j: int| from <= j < signals.len() ==> signals[j].path@ != path,
        },
    decreases signals.len() - from,
{
    if from < signals.len() && signals[from].path@ != path {
        lemma_find_path(signals, path, from + 1);
    }
}

impl Trace {
    /// The handle of the signal with the path: the index of the first such
    /// signal.
    pub open spec fn spec_resolve(&self, path: Seq<char>) -> Option<int> {
        find_path(self.signals@, path, 0)
    }

    /// The handle of the signal with the path, or `None` where the trace has
    /// no such signal.
    pub fn find_signal(&self, path: &String) -> (handle: Option<usize>)
        ensures
            match handle {
                Some(i) => self.spec_resolve(path@) == Some(i as int) && i < self.signals.len(),
                None => self.spec_resolve(path@) is None,
            },
    {
        let mut i: usize = 0;
        while i < self.signals.len()
            invariant
                i <= self.signals.len(),
                find_path(self.signals@, path@, 0) == find_path(self.signals@, path@, i as int),
            decreases self.signals.len() - i,
        {
            if self.signals[i].path == *path {
                return Some(i);
            }
            i += 1;
        }
        None
    }

    /// The handle of the signal with the path, or `None` where the trace has
    /// no such signal.
    pub fn resolve(&self, path: &str) -> (handle: Option<usize>)
        ensures
            match handle {
                Some(i) => self.spec_resolve(path@) == Some(i as int) && i < self.signals.len(),
                None => self.spec_resolve(path@) is None,
            },
    {
        let wanted = String::from_str(path);
        self.find_signal(&wanted)
    }

    /// The declared bit width of a signal, or `None` where it has none.
    pub fn width(&self, handle: usize) -> (w: Option<u32>)
        requires
            handle < self.signals.len(),
        ensures
            w == self.signals[handle as int].width,
    {
        self.signals[handle].width
    }

    /// Whether the signal has a value at the time index.
    pub open spec fn has_value(&self, handle: int, t: nat) -> bool {
        &&& 0 <= handle < self.signals.len()
        &&& t < self.signals[handle].values.len()
        &&& self.signals[handle].values[t as int] is Some
    }

    /// The value of a signal at a time index, or `None` where it has no data
    /// there.
    pub fn value_at(&self, handle: usize, t: usize) -> (v: Option<&SignalValue>)
        requires
            handle < self.signals.len(),
        ensures
            v is Some <==> self.has_value(handle as int, t as nat),
            v is Some ==> *v->0 == self.signals[handle as int].values[t as int]->0,
    {
        let signal = &self.signals[handle];
        if t < signal.values.len() {
            signal.values[t].as_ref()
        } else {
            None
        }
    }
}

/// The number that the storage bytes of a bit vector spell: eight bits to
/// the byte, the most significant byte first.
pub open spec fn bytes_value(data: Seq<u8>) -> nat {
    digits_number(data, 256)
}

/// The number that a string value stands for: `1` and `true` are 1, `0` and
/// `false` are 0 (letters in either case), and any other string is read as a
/// decimal number of any size, with an optional `+` in front.
pub open spec fn text_magnitude(s: Seq<char>) -> Option<nat> {
    if s == seq!['1'] || lower_text(s) == seq!['t', 'r', 'u', 'e'] {
        Some(1)
    } else if s == seq!['0'] || lower_text(s) == seq!['f', 'a', 'l', 's', 'e'] {
        Some(0)
    } else {
        let digits = if s.len() > 0 && s[0] == '+' {
            s.subrange(1, s.len() as int)
        } else {
            s
        };
        match digit_run(digits, 10) {
            Some(values) => Some(digits_number(values, 10)),
            None => None,
        }
    }
}

/// The integer part of a real number, given by its IEEE 754 double-precision
/// bit pattern: 0 for a negative number, for a magnitude below 1 and for
/// not-a-number; the largest 64-bit value for anything at or above `2^64`.
pub open spec fn real_magnitude(bits: u64) -> u64 {
    let negative = (bits >> 63) == 1;
    let exponent = (bits >> 52) & 0x7ff;
    let fraction = bits & 0x000f_ffff_ffff_ffff;
    if exponent == 0x7ff && fraction != 0 {
        0
    } else if negative || exponent < 1023 {
        0
    } else if exponent >= 1087 {
        u64::MAX
    } else {
        let significand = fraction | 0x0010_0000_0000_0000;
        if exponent >= 1075 {
            significand << ((exponent - 1075) as u64)
        } else {
            significand >> ((1075 - exponent) as u64)
        }
    }
}

/// The magnitude of a signal value, or the reason why it has none.
pub open spec fn value_magnitude(v: SignalValue) -> Result<nat, EvalErrorView> {
    match v {
        SignalValue::Binary(data, _) => Ok(bytes_value(data@)),
        SignalValue::FourValue(data, _) => Ok(bytes_value(data@)),
        SignalValue::NineValue(data, _) => Ok(bytes_value(data@)),
        SignalValue::String(s) => match text_magnitude(s@) {
            Some(m) => Ok(m),
            None => Err(EvalErrorView::NotANumber(s@)),
        },
        SignalValue::Real(bits, _) => Ok(real_magnitude(bits) as nat),
        SignalValue::Event => Err(EvalErrorView::EventValue),
    }
}

fn lower_equals(chars: &Vec<char>, word: &Vec<char>) -> (same: bool)
    ensures
        same == (lower_text(chars@) == word@),
{
    if chars.len() != word.len() {
        return false;
    }
    let mut i: usize = 0;
    while i < chars.len()
        invariant
            chars.len() == word.len(),
            i <= chars.len(),
            forall|j: int| 0 <= j < i ==> lower_text(chars@)[j] == word[j],
        decreases chars.len() - i,
    {
        if to_ascii_lower(chars[i]) != word[i] {
            assert(lower_text(chars@)[i as int] != word[i as int]);
            return false;
        }
        i += 1;
    }
    assert(lower_text(chars@) =~= word@);
    true
}

fn text_to_magnitude(s: &str) -> (r: Option<BigUint>)
    ensures
        match r {
            Some(m) => text_magnitude(s@) == Some(big_value(m)),
            None => text_magnitude(s@) is None,
        },
{
    let chars = str_to_chars(s);
    let word_true: Vec<char> = vec!['t', 'r', 'u', 'e'];
    let word_false: Vec<char> = vec!['f', 'a', 'l', 's', 'e'];
    assert(word_true@ =~= seq!['t', 'r', 'u', 'e']);
    assert(word_false@ =~= seq!['f', 'a', 'l', 's', 'e']);
    let is_one = chars.len() == 1 && chars[0] == '1';
    let is_zero = chars.len() == 1 && chars[0] == '0';
    assert(is_one == (chars@ == seq!['1'])) by {
        if is_one {
            assert(chars@ =~= seq!['1']);
        } else if chars@ == seq!['1'] {
            assert(seq!['1'].len() == 1);
            assert(seq!['1'][0] == '1');
        }
    }
    assert(is_zero == (chars@ == seq!['0'])) by {
        if is_zero {
            assert(chars@ =~= seq!['0']);
        } else if chars@ == seq!['0'] {
            assert(seq!['0'].len() == 1);
            assert(seq!['0'][0] == '0');
        }
    }
    if is_one || lower_equals(&chars, &word_true) {
        Some(big_from_u64(1))
    } else if is_zero || lower_equals(&chars, &word_false) {
        Some(big_from_u64(0))
    } else {
        let from: usize = if chars.len() > 0 && chars[0] == '+' {
            1
        } else {
            0
        };
        assert(chars@.subrange(0, chars.len() as int) =~= chars@);
        match read_digits(&chars, from, 10) {
            Some(values) => Some(digits_to_biguint(&values, 10)),
            None => None,
        }
    }
}

/// The integer part of a real number given by its bit pattern.
pub fn real_to_magnitude(bits: u64) -> (m: u64)
    ensures
        m == real_magnitude(bits),
{
    let negative = (bits >> 63) == 1;
    let exponent = (bits >> 52) & 0x7ff;
    let fraction = bits & 0x000f_ffff_ffff_ffff;
    if exponent == 0x7ff && fraction != 0 {
        0
    } else if negative || exponent < 1023 {
        0
    } else if exponent >= 1087 {
        u64::MAX
    } else {
        let significand = fraction | 0x0010_0000_0000_0000;
        if exponent >= 1075 {
            significand << (exponent - 1075)
        } else {
            significand >> (1075 - exponent)
        }
    }
}

/// The magnitude of a signal value.
///
/// Bit vectors are put together from their storage bytes, strings are read
/// as truth values or decimal numbers, reals are cut to their integer part.
/// An event has no magnitude, and neither has a string that spells no
/// number.
pub fn signal_value_to_biguint(signal_value: &SignalValue) -> (r: Result<BigUint, EvalError>)
    ensures
        match r {
            Ok(m) => value_magnitude(*signal_value) == Ok::<nat, EvalErrorView>(big_value(m)),
            Err(e) => value_magnitude(*signal_value) == Err::<nat, EvalErrorView>(e@),
        },
{
    match signal_value {
        SignalValue::Binary(data, _) => Ok(digits_to_biguint(data, 256)),
        SignalValue::FourValue(data, _) => Ok(digits_to_biguint(data, 256)),
        SignalValue::NineValue(data, _) => Ok(digits_to_biguint(data, 256)),
        SignalValue::String(s) => match text_to_magnitude(s.as_str()) {
            Some(m) => Ok(m),
            None => Err(EvalError::NotANumber(s.clone())),
        },
        SignalValue::Real(bits, _) => Ok(big_from_u64(real_to_magnitude(*bits))),
        SignalValue::Event => Err(EvalError::EventValue),
    }
}

} // verus!
