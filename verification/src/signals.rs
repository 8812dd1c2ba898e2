//! Looking up signals of a trace and reading their values for display.

use vstd::prelude::*;
use vstd::string::*;
use crate::errors::{EvalError, EvalErrorView};
use crate::formatting::{format_signal_value, format_time, time_text, value_text};
use crate::names::string_views;
use crate::text::{append_decimal, decimal_text};
use crate::scan::budget_of;
use crate::trace::{SignalValue, Timescale, Trace};

verus! {

/// The line that shows a value at a time index: the index, its timestamp
/// and the value.
pub open spec fn reading_text(
    time_idx: nat,
    time_value: u64,
    timescale: Option<Timescale>,
    value: SignalValue,
) -> Seq<char> {
    "Time index "@ + decimal_text(time_idx) + " ("@ + time_text(time_value, timescale) + "): "@
        + value_text(value)
}

/// The line that stands for a time index beyond the time table, with the
/// last index that the table has (0 for an empty table).
pub open spec fn out_of_range_text(time_idx: nat, table_len: nat) -> Seq<char> {
    "Time index "@ + decimal_text(time_idx) + " out of range (max: "@ + decimal_text(
        if table_len > 0 {
            (table_len - 1) as nat
        } else {
            0
        },
    ) + ")"@
}

/// Formats the line that shows a value at a time index.
pub fn format_reading(
    time_idx: usize,
    time_value: u64,
    timescale: Option<&Timescale>,
    value: &SignalValue,
) -> (text: String)
    ensures
        text@ == reading_text(
            time_idx as nat,
            time_value,
            match timescale {
                Some(ts) => Some(*ts),
                None => None,
            },
            *value,
        ),
{
    let mut out = String::new();
    out.append("Time index ");
    append_decimal(&mut out, time_idx as u128);
    out.append(" (");
    let time = format_time(time_value, timescale);
    out.append(time.as_str());
    out.append("): ");
    let shown = format_signal_value(value);
    out.append(shown.as_str());
    assert(out@ =~= reading_text(
        time_idx as nat,
        time_value,
        match timescale {
            Some(ts) => Some(*ts),
            None => None,
        },
        *value,
    ));
    out
}

/// What reading a signal at one time index gives: a line of text, or the
/// error that ends the reading.
pub open spec fn reading_at(trace: Trace, handle: int, t: nat) -> Result<Seq<char>, EvalErrorView> {
    if t >= trace.time_table.len() {
        Ok(out_of_range_text(t, trace.time_table.len() as nat))
    } else if t > u32::MAX {
        Err(EvalErrorView::TimeIndexTooLarge(t))
    } else if !trace.has_value(handle, t) {
        Err(EvalErrorView::NoData(trace.signals[handle].path@, t))
    } else {
        Ok(
            reading_text(
                t,
                trace.time_table[t as int],
                trace.timescale,
                trace.signals[handle].values[t as int]->0,
            ),
        )
    }
}

/// The lines of the time indices up to, not including, position `upto` of
/// `time_indices`; or the first error among them.
pub open spec fn readings(trace: Trace, handle: int, time_indices: Seq<usize>, upto: int) -> Result<
    Seq<Seq<char>>,
    EvalErrorView,
>
    decreases upto,
{
    if upto <= 0 {
        Ok(Seq::empty())
    } else {
        match readings(trace, handle, time_indices, upto - 1) {
            Err(e) => Err(e),
            Ok(lines) => match reading_at(trace, handle, time_indices[upto - 1] as nat) {
                Err(e) => Err(e),
                Ok(line) => Ok(lines.push(line)),
            },
        }
    }
}

/// An error among the first readings is the error of all of them.
pub proof fn lemma_readings_error(
    trace: Trace,
    handle: int,
    time_indices: Seq<usize>,
    at: int,
    upto: int,
)
    requires
        0 <= at <= upto,
        readings(trace, handle, time_indices, at) is Err,
    ensures
        readings(trace, handle, time_indices, upto) == readings(trace, handle, time_indices, at),
    decreases upto - at,
{
    if at < upto {
        lemma_readings_error(trace, handle, time_indices, at, upto - 1);
    }
}

/// What reading a signal at the given time indices gives: one line for
/// each, or the first error. A handle that stands for no signal of the
/// trace is an error before any reading.
pub open spec fn signal_readings(trace: Trace, handle: nat, time_indices: Seq<usize>) -> Result<
    Seq<Seq<char>>,
    EvalErrorView,
> {
    if handle >= trace.signals.len() {
        Err(EvalErrorView::SignalNotLoaded(handle))
    } else {
        readings(trace, handle as int, time_indices, time_indices.len() as int)
    }
}

/// Reads a signal at the given time indices, one line for each.
///
/// A time index beyond the time table gives a line that says so, and the
/// reading goes on. A time index at which the signal has no value ends the
/// reading with an error, and so does a handle that stands for no signal
/// of the trace.
pub fn read_signal_values(trace: &Trace, signal: usize, time_indices: &[usize]) -> (r: Result<
    Vec<String>,
    EvalError,
>)
    ensures
        match r {
            Ok(lines) => signal_readings(*trace, signal as nat, time_indices@) == Ok::<
                Seq<Seq<char>>,
                EvalErrorView,
            >(string_views(lines@)) && lines.len() == time_indices.len(),
            Err(e) => signal_readings(*trace, signal as nat, time_indices@) == Err::<
                Seq<Seq<char>>,
                EvalErrorView,
            >(e@),
        },
{
    if signal >= trace.signals.len() {
        return Err(EvalError::SignalNotLoaded(signal));
    }
    let mut results: Vec<String> = Vec::new();
    let mut i: usize = 0;
    assert(string_views(results@) =~= Seq::<Seq<char>>::empty());
    while i < time_indices.len()
        invariant
            i <= time_indices.len(),
            results.len() == i,
            signal < trace.signals.len(),
            readings(*trace, signal as int, time_indices@, i as int) == Ok::<
                Seq<Seq<char>>,
                EvalErrorView,
            >(string_views(results@)),
        decreases time_indices.len() - i,
    {
        let time_idx = time_indices[i];
        let ghost before = string_views(results@);
        if time_idx >= trace.time_table.len() {
            let mut line = String::new();
            line.append("Time index ");
            append_decimal(&mut line, time_idx as u128);
            line.append(" out of range (max: ");
            let last: usize = if trace.time_table.len() > 0 {
                trace.time_table.len() - 1
            } else {
                0
            };
            append_decimal(&mut line, last as u128);
            line.append(")");
            assert(line@ =~= out_of_range_text(time_idx as nat, trace.time_table.len() as nat));
            results.push(line);
        } else {
            proof {
                if reading_at(*trace, signal as int, time_idx as nat) is Err {
                    lemma_readings_error(
                        *trace,
                        signal as int,
                        time_indices@,
                        i + 1,
                        time_indices.len() as int,
                    );
                }
            }
            if time_idx > u32::MAX as usize {
                return Err(EvalError::TimeIndexTooLarge(time_idx));
            }
            match trace.value_at(signal, time_idx) {
                None => {
                    return Err(EvalError::NoData(trace.signals[signal].path.clone(), time_idx));
                },
                Some(value) => {
                    let line = format_reading(
                        time_idx,
                        trace.time_table[time_idx],
                        trace.timescale.as_ref(),
                        value,
                    );
                    results.push(line);
                },
            }
        }
        assert(string_views(results@) =~= before.push(results[i as int]@));
        i += 1;
    }
    Ok(results)
}

/// The lines of the changes from position `from` on that lie at a time
/// index within `[start_idx, end_idx]` and within the time table, in the
/// order of the changes and at most `budget` of them. No change is looked
/// at once the budget is used up.
pub open spec fn change_lines(
    trace: Trace,
    changes: Seq<(usize, SignalValue)>,
    from: int,
    start_idx: nat,
    end_idx: nat,
    budget: Option<nat>,
) -> Seq<Seq<char>>
    decreases changes.len() - from,
{
    if from < 0 || from >= changes.len() {
        Seq::empty()
    } else {
        let (t, value) = changes[from];
        if t < start_idx || t > end_idx || t >= trace.time_table.len() {
            change_lines(trace, changes, from + 1, start_idx, end_idx, budget)
        } else if budget == Some(0nat) {
            Seq::empty()
        } else {
            seq![reading_text(t as nat, trace.time_table[t as int], trace.timescale, value)]
                + change_lines(
                trace,
                changes,
                from + 1,
                start_idx,
                end_idx,
                match budget {
                    Some(n) => Some((n - 1) as nat),
                    None => None,
                },
            )
        }
    }
}

/// There are no more lines of changes than the budget allows.
pub proof fn lemma_change_lines_limit(
    trace: Trace,
    changes: Seq<(usize, SignalValue)>,
    from: int,
    start_idx: nat,
    end_idx: nat,
    budget: Option<nat>,
)
    ensures
        budget is Some ==> change_lines(trace, changes, from, start_idx, end_idx, budget).len()
            <= budget->0,
    decreases changes.len() - from,
{
    if from < 0 || from >= changes.len() {
    } else {
        let (t, value) = changes[from];
        if t < start_idx || t > end_idx || t >= trace.time_table.len() {
            lemma_change_lines_limit(trace, changes, from + 1, start_idx, end_idx, budget);
        } else if budget == Some(0nat) {
        } else {
            lemma_change_lines_limit(
                trace,
                changes,
                from + 1,
                start_idx,
                end_idx,
                match budget {
                    Some(n) => Some((n - 1) as nat),
                    None => None,
                },
            );
        }
    }
}

/// Finds the events of a signal within a range of time indices.
///
/// `changes` holds the changes of the signal, each with its time index.
/// Those at a time index from `start_idx` to `end_idx`, both included, give
/// one line each, in the order in which they come. A `limit` that is not
/// negative caps the number of lines; a negative one stands for no limit.
/// A change at a time index beyond the time table is passed over.
pub fn find_signal_events(
    trace: &Trace,
    changes: &[(usize, SignalValue)],
    start_idx: usize,
    end_idx: usize,
    limit: isize,
) -> (events: Vec<String>)
    ensures
        string_views(events@) == change_lines(
            *trace,
            changes@,
            0,
            start_idx as nat,
            end_idx as nat,
            budget_of(limit),
        ),
        limit >= 0 ==> events.len() <= limit,
{
    let mut events: Vec<String> = Vec::new();
    let mut i: usize = 0;
    let ghost whole = change_lines(
        *trace,
        changes@,
        0,
        start_idx as nat,
        end_idx as nat,
        budget_of(limit),
    );
    proof {
        lemma_change_lines_limit(
            *trace,
            changes@,
            0,
            start_idx as nat,
            end_idx as nat,
            budget_of(limit),
        );
        assert(string_views(events@) =~= Seq::<Seq<char>>::empty());
        assert(Seq::<Seq<char>>::empty() + whole =~= whole);
    }
    while i < changes.len()
        invariant
            i <= changes.len(),
            limit >= 0 ==> events.len() <= limit,
            whole == change_lines(
                *trace,
                changes@,
                0,
                start_idx as nat,
                end_idx as nat,
                budget_of(limit),
            ),
            whole == string_views(events@) + change_lines(
                *trace,
                changes@,
                i as int,
                start_idx as nat,
                end_idx as nat,
                match budget_of(limit) {
                    Some(n) => Some((n - events.len()) as nat),
                    None => None,
                },
            ),
        decreases changes.len() - i,
    {
        let time_idx = changes[i].0;
        if time_idx < start_idx || time_idx > end_idx || time_idx >= trace.time_table.len() {
            i += 1;
            continue ;
        }
        if limit >= 0 && events.len() >= limit as usize {
            proof {
                assert(change_lines(
                    *trace,
                    changes@,
                    i as int,
                    start_idx as nat,
                    end_idx as nat,
                    Some(0nat),
                ) =~= Seq::<Seq<char>>::empty());
                assert(string_views(events@) + Seq::<Seq<char>>::empty() =~= string_views(
                    events@,
                ));
            }
            return events;
        }
        let ghost before = string_views(events@);
        let ghost left = match budget_of(limit) {
            Some(n) => Some((n - events.len()) as nat),
            None => None,
        };
        let line = format_reading(
            time_idx,
            trace.time_table[time_idx],
            trace.timescale.as_ref(),
            &changes[i].1,
        );
        let ghost text = line@;
        events.push(line);
        proof {
            assert(string_views(events@) =~= before.push(text));
            let rest = change_lines(
                *trace,
                changes@,
                i as int + 1,
                start_idx as nat,
                end_idx as nat,
                match left {
                    Some(n) => Some((n - 1) as nat),
                    None => None,
                },
            );
            assert(before + (seq![text] + rest) =~= before.push(text) + rest);
        }
        i += 1;
    }
    assert(string_views(events@) + Seq::<Seq<char>>::empty() =~= string_views(events@));
    events
}

} // verus!
