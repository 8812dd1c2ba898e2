//! Condition language for querying digital-logic simulation traces.
//!
//! A condition is a boolean/bit expression over named signals, as in
//! `top.valid && top.data[7:4] == 4'hA` or `!$past(top.clk) && top.clk`. It
//! is parsed into a tree, evaluated at single time indices of an in-memory
//! trace, and scanned over a range of time indices to find where it holds.
//!
//! - `lexer`, `literal`, `parser`: the grammar, from text to tokens to the
//!   tree of `ast`.
//! - `spelling`, `rendering`: the way back, from trees to tokens to text,
//!   and the proof that parsing undoes it.
//! - `names`: the signals that a condition refers to.
//! - `trace`: the trace, and the magnitude of a signal value.
//! - `eval`: the value of a condition at one time index.
//! - `scan`: the time indices of a range at which a condition holds, and
//!   their records.
//! - `hierarchy`, `listing`, `signals`, `formatting`: scopes and variables
//!   of a design, and the text that shows signals, values and timestamps.
//! - `bitmath`, `bignum`, `text`: arithmetic on bits and numbers of any
//!   size, and numbers in text.
//! - `errors`: what can go wrong, by kind.

pub mod bitmath;
pub mod text;
pub mod bignum;
pub mod ast;
pub mod names;
pub mod errors;
pub mod trace;
pub mod literal;
pub mod lexer;
pub mod parser;
pub mod spelling;
pub mod rendering;
pub mod eval;
pub mod formatting;
pub mod scan;
pub mod signals;
pub mod listing;
pub mod hierarchy;

pub use crate::ast::{Condition, Literal};
pub use crate::errors::{ErrorKind, EvalError, ParseError, ScanError};
pub use crate::eval::{evaluate_condition, evaluate_condition_with_width};
pub use crate::formatting::{format_binary_verilog, format_signal_value, format_time};
pub use crate::hierarchy::{
    collect_signals_from_scope, find_scope_by_path, find_signal_by_path, find_variable_by_path,
    get_signal_metadata, list_signals, Hierarchy, Scope, Variable,
};
pub use crate::listing::{filter_signal_names, paths_with_prefix};
pub use crate::literal::{
    literal_to_biguint, parse_binary_literal, parse_decimal_literal, parse_hex_literal,
    parse_literal,
};
pub use crate::names::{extract_signal_names, extract_signal_names_recursive};
pub use crate::parser::parse_condition;
pub use crate::scan::{find_conditional_events, find_matching_indices};
pub use crate::signals::{find_signal_events, format_reading, read_signal_values};
pub use crate::trace::{
    signal_value_to_biguint, SignalValue, Timescale, TimescaleUnit, Trace, TraceSignal,
};
