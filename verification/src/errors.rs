//! Errors of evaluation, and the kinds into which all errors fall.

use vstd::prelude::*;
use vstd::string::*;
use crate::text::{append_decimal, decimal_text};

verus! {

/// The kinds of error that parsing, resolving and evaluating can end in.
#[derive(Debug, Clone, Copy, PartialEq, Eq)]
pub enum ErrorKind {
    /// The condition text is not in the language.
    Parse,
    /// A signal path names no signal of the trace.
    Resolution,
    /// A signal's value cannot be used as a number.
    Type,
    /// A signal has no value at the time index asked for.
    Data,
    /// A bit range whose upper bound is below its lower bound.
    Range,
}

/// Why a text is not a condition, or not a sized literal.
#[derive(Debug, Clone, Copy, PartialEq, Eq)]
pub enum ParseError {
    /// The character at this index starts no token: a bare `=`, a `$` that
    /// does not begin `$past`, or a character outside the language.
    UnexpectedCharacter(usize),
    /// The number that starts at this character index does not fit in 32 bits.
    NumberTooLarge(usize),
    /// The text of a literal does not hold exactly one `'`.
    MalformedLiteral,
    /// The width of a literal is not a decimal number from 1 up to `2^32 - 1`.
    InvalidWidth,
    /// The base of a literal is missing, or not one of `b`, `d` and `h`.
    InvalidLiteralBase,
    /// A binary literal holds a digit other than `0` and `1`.
    InvalidBinaryDigit,
    /// The digits of a decimal literal are missing, or not all decimal.
    InvalidDecimalValue,
    /// The digits of a hexadecimal literal are missing, or not all
    /// hexadecimal.
    InvalidHexValue,
    /// The token at this index cannot stand where it stands.
    UnexpectedToken(usize),
    /// The text ends where more is needed.
    UnexpectedEnd,
    /// A parenthesis has no partner.
    UnmatchedParenthesis,
    /// A whole condition is followed by more tokens; the first is at this
    /// index.
    TrailingTokens(usize),
}

impl ParseError {
    /// The text that describes the error.
    pub open spec fn spec_message(self) -> Seq<char> {
        match self {
            ParseError::UnexpectedCharacter(pos) => "Unexpected character at position "@
                + decimal_text(pos as nat),
            ParseError::NumberTooLarge(pos) => "Number too large at position "@ + decimal_text(
                pos as nat,
            ),
            ParseError::MalformedLiteral => "Invalid literal"@,
            ParseError::InvalidWidth => "Invalid bit width"@,
            ParseError::InvalidLiteralBase => "Invalid literal base"@,
            ParseError::InvalidBinaryDigit => "Invalid binary digit"@,
            ParseError::InvalidDecimalValue => "Invalid decimal value"@,
            ParseError::InvalidHexValue => "Invalid hex value"@,
            ParseError::UnexpectedToken(index) => "Unexpected token at index "@ + decimal_text(
                index as nat,
            ),
            ParseError::UnexpectedEnd => "Unexpected end of condition"@,
            ParseError::UnmatchedParenthesis => "Unmatched parenthesis"@,
            ParseError::TrailingTokens(index) => "Unexpected trailing tokens at index "@
                + decimal_text(index as nat),
        }
    }

    /// The text that describes the error, for display.
    pub fn message(&self) -> (text: String)
        ensures
            text@ == self.spec_message(),
    {
        let mut out = String::new();
        match self {
            ParseError::UnexpectedCharacter(pos) => {
                out.append("Unexpected character at position ");
                append_decimal(&mut out, *pos as u128);
            },
            ParseError::NumberTooLarge(pos) => {
                out.append("Number too large at position ");
                append_decimal(&mut out, *pos as u128);
            },
            ParseError::MalformedLiteral => {
                out.append("Invalid literal");
            },
            ParseError::InvalidWidth => {
                out.append("Invalid bit width");
            },
            ParseError::InvalidLiteralBase => {
                out.append("Invalid literal base");
            },
            ParseError::InvalidBinaryDigit => {
                out.append("Invalid binary digit");
            },
            ParseError::InvalidDecimalValue => {
                out.append("Invalid decimal value");
            },
            ParseError::InvalidHexValue => {
                out.append("Invalid hex value");
            },
            ParseError::UnexpectedToken(index) => {
                out.append("Unexpected token at index ");
                append_decimal(&mut out, *index as u128);
            },
            ParseError::UnexpectedEnd => {
                out.append("Unexpected end of condition");
            },
            ParseError::UnmatchedParenthesis => {
                out.append("Unmatched parenthesis");
            },
            ParseError::TrailingTokens(index) => {
                out.append("Unexpected trailing tokens at index ");
                append_decimal(&mut out, *index as u128);
            },
        }
        assert(out@ =~= self.spec_message());
        out
    }
}

/// Why a condition could not be evaluated.
#[derive(Debug, Clone, PartialEq)]
pub enum EvalError {
    /// The path names no signal of the trace.
    SignalNotFound(String),
    /// The handle stands for no signal of the trace: the signal was not
    /// loaded.
    SignalNotLoaded(usize),
    /// The signal has no bit width: it holds strings or reals.
    NoWidth(String),
    /// The time index is beyond what a time table can number.
    TimeIndexTooLarge(usize),
    /// The signal has no value at the time index.
    NoData(String, usize),
    /// The signal's value is an event, which has no magnitude.
    EventValue,
    /// The signal's value is a string that spells no number.
    NotANumber(String),
    /// The bit range `[msb:lsb]` has `msb < lsb`.
    InvalidBitRange(u32, u32),
    /// The bit range `[msb:lsb]` spans more bits than a width can count.
    BitRangeTooWide(u32, u32),
}

/// What an `EvalError` holds, as mathematics.
pub enum EvalErrorView {
    SignalNotFound(Seq<char>),
    SignalNotLoaded(nat),
    NoWidth(Seq<char>),
    TimeIndexTooLarge(nat),
    NoData(Seq<char>, nat),
    EventValue,
    NotANumber(Seq<char>),
    InvalidBitRange(u32, u32),
    BitRangeTooWide(u32, u32),
}

impl View for EvalError {
    type V = EvalErrorView;

    open spec fn view(&self) -> EvalErrorView {
        match self {
            EvalError::SignalNotFound(path) => EvalErrorView::SignalNotFound(path@),
            EvalError::SignalNotLoaded(handle) => EvalErrorView::SignalNotLoaded(*handle as nat),
            EvalError::NoWidth(path) => EvalErrorView::NoWidth(path@),
            EvalError::TimeIndexTooLarge(t) => EvalErrorView::TimeIndexTooLarge(*t as nat),
            EvalError::NoData(path, t) => EvalErrorView::NoData(path@, *t as nat),
            EvalError::EventValue => EvalErrorView::EventValue,
            EvalError::NotANumber(text) => EvalErrorView::NotANumber(text@),
            EvalError::InvalidBitRange(msb, lsb) => EvalErrorView::InvalidBitRange(*msb, *lsb),
            EvalError::BitRangeTooWide(msb, lsb) => EvalErrorView::BitRangeTooWide(*msb, *lsb),
        }
    }
}

impl EvalErrorView {
    /// The kind of the error.
    pub open spec fn kind(self) -> ErrorKind {
        match self {
            EvalErrorView::SignalNotFound(_) => ErrorKind::Resolution,
            EvalErrorView::SignalNotLoaded(_) => ErrorKind::Resolution,
            EvalErrorView::NoWidth(_) => ErrorKind::Type,
            EvalErrorView::TimeIndexTooLarge(_) => ErrorKind::Data,
            EvalErrorView::NoData(_, _) => ErrorKind::Data,
            EvalErrorView::EventValue => ErrorKind::Type,
            EvalErrorView::NotANumber(_) => ErrorKind::Type,
            EvalErrorView::InvalidBitRange(_, _) => ErrorKind::Range,
            EvalErrorView::BitRangeTooWide(_, _) => ErrorKind::Range,
        }
    }

    /// The text that describes the error.
    pub open spec fn message(self) -> Seq<char> {
        match self {
            EvalErrorView::SignalNotFound(path) => "Signal not found: "@ + path,
            EvalErrorView::SignalNotLoaded(_) => "Signal not found after loading"@,
            EvalErrorView::NoWidth(path) => "Signal "@ + path + " has no width (string/real type)"@,
            EvalErrorView::TimeIndexTooLarge(t) => "Time index "@ + decimal_text(t) + " too large"@,
            EvalErrorView::NoData(path, t) => "No data for signal "@ + path + " at time index "@
                + decimal_text(t),
            EvalErrorView::EventValue => "Event signal cannot be compared"@,
            EvalErrorView::NotANumber(text) => "Cannot convert string '"@ + text + "' to integer"@,
            EvalErrorView::InvalidBitRange(msb, lsb) => "Invalid bit range ["@ + decimal_text(
                msb as nat,
            ) + ":"@ + decimal_text(lsb as nat) + "] - msb must be >= lsb"@,
            EvalErrorView::BitRangeTooWide(msb, lsb) => "Invalid bit range ["@ + decimal_text(
                msb as nat,
            ) + ":"@ + decimal_text(lsb as nat) + "] - too many bits"@,
        }
    }
}

impl EvalError {
    /// The kind of the error.
    pub fn kind(&self) -> (k: ErrorKind)
        ensures
            k == self@.kind(),
    {
        match self {
            EvalError::SignalNotFound(_) => ErrorKind::Resolution,
            EvalError::SignalNotLoaded(_) => ErrorKind::Resolution,
            EvalError::NoWidth(_) => ErrorKind::Type,
            EvalError::TimeIndexTooLarge(_) => ErrorKind::Data,
            EvalError::NoData(_, _) => ErrorKind::Data,
            EvalError::EventValue => ErrorKind::Type,
            EvalError::NotANumber(_) => ErrorKind::Type,
            EvalError::InvalidBitRange(_, _) => ErrorKind::Range,
            EvalError::BitRangeTooWide(_, _) => ErrorKind::Range,
        }
    }

    /// The text that describes the error, for display.
    pub fn message(&self) -> (text: String)
        ensures
            text@ == self@.message(),
    {
        let mut out = String::new();
        match self {
            EvalError::SignalNotFound(path) => {
                out.append("Signal not found: ");
                out.append(path.as_str());
            },
            EvalError::SignalNotLoaded(_) => {
                out.append("Signal not found after loading");
            },
            EvalError::NoWidth(path) => {
                out.append("Signal ");
                out.append(path.as_str());
                out.append(" has no width (string/real type)");
            },
            EvalError::TimeIndexTooLarge(t) => {
                out.append("Time index ");
                append_decimal(&mut out, *t as u128);
                out.append(" too large");
            },
            EvalError::NoData(path, t) => {
                out.append("No data for signal ");
                out.append(path.as_str());
                out.append(" at time index ");
                append_decimal(&mut out, *t as u128);
            },
            EvalError::EventValue => {
                out.append("Event signal cannot be compared");
            },
            EvalError::NotANumber(text) => {
                out.append("Cannot convert string '");
                out.append(text.as_str());
                out.append("' to integer");
            },
            EvalError::InvalidBitRange(msb, lsb) => {
                out.append("Invalid bit range [");
                append_decimal(&mut out, *msb as u128);
                out.append(":");
                append_decimal(&mut out, *lsb as u128);
                out.append("] - msb must be >= lsb");
            },
            EvalError::BitRangeTooWide(msb, lsb) => {
                out.append("Invalid bit range [");
                append_decimal(&mut out, *msb as u128);
                out.append(":");
                append_decimal(&mut out, *lsb as u128);
                out.append("] - too many bits");
            },
        }
        assert(out@ =~= self@.message());
        out
    }
}

/// Why a search for the events of a condition failed.
#[derive(Debug, Clone, PartialEq)]
pub enum ScanError {
    /// The condition text is not in the language.
    Parse(ParseError),
    /// A signal of the condition is not in the trace, or the condition has
    /// no value at a time index of the range.
    Eval(EvalError),
}

/// What a `ScanError` holds, as mathematics.
pub enum ScanErrorView {
    Parse(ParseError),
    Eval(EvalErrorView),
}

impl View for ScanError {
    type V = ScanErrorView;

    open spec fn view(&self) -> ScanErrorView {
        match self {
            ScanError::Parse(e) => ScanErrorView::Parse(*e),
            ScanError::Eval(e) => ScanErrorView::Eval(e@),
        }
    }
}

impl ScanErrorView {
    /// The kind of the error.
    pub open spec fn kind(self) -> ErrorKind {
        match self {
            ScanErrorView::Parse(_) => ErrorKind::Parse,
            ScanErrorView::Eval(e) => e.kind(),
        }
    }

    /// The text that describes the error.
    pub open spec fn message(self) -> Seq<char> {
        match self {
            ScanErrorView::Parse(e) => e.spec_message(),
            ScanErrorView::Eval(e) => e.message(),
        }
    }
}

impl ScanError {
    /// The kind of the error.
    pub fn kind(&self) -> (k: ErrorKind)
        ensures
            k == self@.kind(),
    {
        match self {
            ScanError::Parse(_) => ErrorKind::Parse,
            ScanError::Eval(e) => e.kind(),
        }
    }

    /// The text that describes the error, for display.
    pub fn message(&self) -> (text: String)
        ensures
            text@ == self@.message(),
    {
        match self {
            ScanError::Parse(e) => e.message(),
            ScanError::Eval(e) => e.message(),
        }
    }
}

} // verus!
