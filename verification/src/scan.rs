//! Scanning a range of time indices for the indices at which a condition
//! holds.

use vstd::prelude::*;
use vstd::string::*;
use crate::ast::{Condition, ConditionView};
use crate::bignum::big_is_zero;
use crate::errors::{EvalError, EvalErrorView, ScanError, ScanErrorView};
use crate::eval::{eval, evaluate_condition};
use crate::formatting::{format_signal_value, format_time, time_text, value_text};
use crate::names::{extract_signal_names, signal_names, string_views};
use crate::parser::{parse_condition, parse_text};
use crate::text::{append_decimal, decimal_text};
use crate::trace::Trace;

verus! {

/// The number of matches still allowed: `None` for a negative limit, which
/// stands for no limit.
pub open spec fn budget_of(limit: isize) -> Option<nat> {
    if limit < 0 {
        None
    } else {
        Some(limit as nat)
    }
}

/// One past the last time index that a scan up to `end_idx` looks at: the
/// range ends with the trace.
pub open spec fn scan_stop(trace: Trace, end_idx: nat) -> nat {
    if end_idx < trace.time_table.len() {
        end_idx + 1
    } else {
        trace.time_table.len() as nat
    }
}

/// The time indices from `t` up to, not including, `stop` at which the
/// condition is not 0, in increasing order and at most `budget` of them;
/// or the error of the first index at which the condition has no value. No
/// index is looked at once the budget is used up.
pub open spec fn matches_from(
    c: ConditionView,
    trace: Trace,
    t: nat,
    stop: nat,
    budget: Option<nat>,
) -> Result<Seq<nat>, EvalErrorView>
    decreases stop - t,
{
    if t >= stop || budget == Some(0nat) {
        Ok(Seq::empty())
    } else {
        match eval(c, trace, t) {
            Err(e) => Err(e),
            Ok((value, _)) => if value == 0 {
                matches_from(c, trace, t + 1, stop, budget)
            } else {
                let rest = matches_from(
                    c,
                    trace,
                    t + 1,
                    stop,
                    match budget {
                        Some(n) => Some((n - 1) as nat),
                        None => None,
                    },
                );
                match rest {
                    Ok(found) => Ok(seq![t] + found),
                    Err(e) => Err(e),
                }
            },
        }
    }
}

/// The matches of a scan of the inclusive range `[start_idx, end_idx]`.
pub open spec fn scan_matches(
    c: ConditionView,
    trace: Trace,
    start_idx: nat,
    end_idx: nat,
    limit: isize,
) -> Result<Seq<nat>, EvalErrorView> {
    matches_from(c, trace, start_idx, scan_stop(trace, end_idx), budget_of(limit))
}

/// Every match lies in the range scanned and is a time index at which the
/// condition is not 0; matches increase strictly; and there are no more of
/// them than the budget allows.
pub proof fn lemma_matches_from(
    c: ConditionView,
    trace: Trace,
    t: nat,
    stop: nat,
    budget: Option<nat>,
)
    ensures
        match matches_from(c, trace, t, stop, budget) {
            Ok(found) => {
                &&& forall|i: int|
                    0 <= i < found.len() ==> t <= #[trigger] found[i] < stop && eval(
                        c,
                        trace,
                        found[i],
                    ) is Ok && eval(c, trace, found[i])->Ok_0.0 != 0
                &&& forall|i: int, j: int| 0 <= i < j < found.len() ==> found[i] < found[j]
                &&& budget is Some ==> found.len() <= budget->0
            },
            Err(_) => true,
        },
    decreases stop - t,
{
    if t >= stop || budget == Some(0nat) {
    } else {
        match eval(c, trace, t) {
            Err(e) => {},
            Ok((value, _)) => {
                if value == 0 {
                    lemma_matches_from(c, trace, t + 1, stop, budget);
                } else {
                    let less = match budget {
                        Some(n) => Some((n - 1) as nat),
                        None => None,
                    };
                    lemma_matches_from(c, trace, t + 1, stop, less);
                    match matches_from(c, trace, t + 1, stop, less) {
                        Ok(rest) => {
                            let found = seq![t] + rest;
                            assert forall|i: int| 0 <= i < found.len() implies t
                                <= #[trigger] found[i] < stop && eval(c, trace, found[i]) is Ok
                                && eval(c, trace, found[i])->Ok_0.0 != 0 by {
                                if i > 0 {
                                    assert(found[i] == rest[i - 1]);
                                }
                            }
                            assert forall|i: int, j: int|
                                0 <= i < j < found.len() implies found[i] < found[j] by {
                                assert(found[j] == rest[j - 1]);
                                if i > 0 {
                                    assert(found[i] == rest[i - 1]);
                                }
                            }
                        },
                        Err(_) => {},
                    }
                }
            },
        }
    }
}

/// A scan without a limit misses nothing: where it succeeds, the condition
/// has a value at every time index of the range, and every index at which
/// that value is not 0 is among the matches.
pub proof fn lemma_scan_finds_all(c: ConditionView, trace: Trace, t: nat, stop: nat)
    requires
        matches_from(c, trace, t, stop, None) is Ok,
    ensures
        forall|i: nat|
            t <= i < stop ==> (#[trigger] eval(c, trace, i)) is Ok && (eval(c, trace, i)->Ok_0.0
                != 0 ==> matches_from(c, trace, t, stop, None)->Ok_0.contains(i)),
    decreases stop - t,
{
    if t < stop {
        let found = matches_from(c, trace, t, stop, None)->Ok_0;
        let rest = matches_from(c, trace, t + 1, stop, None)->Ok_0;
        lemma_scan_finds_all(c, trace, t + 1, stop);
        assert forall|i: nat| t <= i < stop implies (#[trigger] eval(c, trace, i)) is Ok && (eval(
            c,
            trace,
            i,
        )->Ok_0.0 != 0 ==> found.contains(i)) by {
            if i == t {
                if eval(c, trace, t)->Ok_0.0 != 0 {
                    assert(found == seq![t] + rest);
                    assert(found[0] == t);
                }
            } else if eval(c, trace, i)->Ok_0.0 != 0 {
                assert(rest.contains(i));
                let k = choose|k: int| 0 <= k < rest.len() && rest[k] == i;
                if eval(c, trace, t)->Ok_0.0 != 0 {
                    assert(found == seq![t] + rest);
                    assert(found[k + 1] == i);
                } else {
                    assert(found == rest);
                }
            }
        }
    }
}

/// No match of a scan lies outside the range asked for, or beyond the end of
/// the trace.
pub proof fn lemma_scan_within_range(
    c: ConditionView,
    trace: Trace,
    start_idx: nat,
    end_idx: nat,
    limit: isize,
)
    ensures
        match scan_matches(c, trace, start_idx, end_idx, limit) {
            Ok(found) => forall|i: int|
                0 <= i < found.len() ==> start_idx <= #[trigger] found[i] <= end_idx && found[i]
                    < trace.time_table.len(),
            Err(_) => true,
        },
{
    lemma_matches_from(c, trace, start_idx, scan_stop(trace, end_idx), budget_of(limit));
}

/// A scan with a limit that is not negative gives at most that many matches.
pub proof fn lemma_scan_respects_limit(
    c: ConditionView,
    trace: Trace,
    start_idx: nat,
    end_idx: nat,
    limit: isize,
)
    requires
        limit >= 0,
    ensures
        match scan_matches(c, trace, start_idx, end_idx, limit) {
            Ok(found) => found.len() <= limit,
            Err(_) => true,
        },
{
    lemma_matches_from(c, trace, start_idx, scan_stop(trace, end_idx), budget_of(limit));
}

/// Once the limit is reached a scan stops: where the scan up to `mid` finds
/// as many matches as the limit allows, the scan up to any later `stop`
/// finds the same, whatever the condition is, or fails to be, behind `mid`.
pub proof fn lemma_scan_stops_at_limit(
    c: ConditionView,
    trace: Trace,
    t: nat,
    mid: nat,
    stop: nat,
    budget: nat,
)
    requires
        mid <= stop,
        matches_from(c, trace, t, mid, Some(budget)) is Ok,
        matches_from(c, trace, t, mid, Some(budget))->Ok_0.len() == budget,
    ensures
        matches_from(c, trace, t, stop, Some(budget)) == matches_from(
            c,
            trace,
            t,
            mid,
            Some(budget),
        ),
    decreases mid - t,
{
    if t >= mid || budget == 0 {
    } else {
        match eval(c, trace, t) {
            Err(_) => {},
            Ok((value, _)) => {
                if value == 0 {
                    lemma_scan_stops_at_limit(c, trace, t + 1, mid, stop, budget);
                } else {
                    lemma_scan_stops_at_limit(c, trace, t + 1, mid, stop, (budget - 1) as nat);
                }
            },
        }
    }
}

/// Finds the time indices in `[start_idx, end_idx]` at which the condition
/// is not 0, in increasing order.
///
/// The range ends with the trace where `end_idx` lies beyond it. A `limit`
/// that is not negative caps the number of matches, and no index is
/// evaluated once it is reached. The first index at which the condition has
/// no value ends the scan with that error.
pub fn find_matching_indices(
    condition: &Condition,
    trace: &Trace,
    start_idx: usize,
    end_idx: usize,
    limit: isize,
) -> (r: Result<Vec<usize>, EvalError>)
    ensures
        match r {
            Ok(found) => {
                &&& scan_matches(
                    condition@,
                    *trace,
                    start_idx as nat,
                    end_idx as nat,
                    limit,
                ) == Ok::<Seq<nat>, EvalErrorView>(found@.map_values(|t: usize| t as nat))
                &&& forall|i: int|
                    0 <= i < found.len() ==> start_idx <= #[trigger] found[i] <= end_idx && found[i]
                        < trace.time_table.len()
                &&& limit >= 0 ==> found.len() <= limit
            },
            Err(e) => scan_matches(condition@, *trace, start_idx as nat, end_idx as nat, limit)
                == Err::<Seq<nat>, EvalErrorView>(e@),
        },
{
    let stop: usize = if end_idx < trace.time_table.len() {
        end_idx + 1
    } else {
        trace.time_table.len()
    };
    let ghost whole = scan_matches(condition@, *trace, start_idx as nat, end_idx as nat, limit);
    let mut found: Vec<usize> = Vec::new();
    let mut t: usize = start_idx;
    proof {
        lemma_scan_within_range(condition@, *trace, start_idx as nat, end_idx as nat, limit);
        if limit >= 0 {
            lemma_scan_respects_limit(condition@, *trace, start_idx as nat, end_idx as nat, limit);
        }
        assert(found@.map_values(|t: usize| t as nat) =~= Seq::<nat>::empty());
        match matches_from(condition@, *trace, t as nat, stop as nat, budget_of(limit)) {
            Ok(rest) => {
                assert(Seq::<nat>::empty() + rest =~= rest);
            },
            Err(_) => {},
        }
    }
    while t < stop && (limit < 0 || found.len() < limit as usize)
        invariant
            stop as nat == scan_stop(*trace, end_idx as nat),
            stop <= trace.time_table.len(),
            limit >= 0 ==> found.len() <= limit,
            whole == scan_matches(condition@, *trace, start_idx as nat, end_idx as nat, limit),
            whole == match matches_from(
                condition@,
                *trace,
                t as nat,
                stop as nat,
                match budget_of(limit) {
                    Some(n) => Some((n - found.len()) as nat),
                    None => None,
                },
            ) {
                Ok(rest) => Ok::<Seq<nat>, EvalErrorView>(
                    found@.map_values(|t: usize| t as nat) + rest,
                ),
                Err(e) => Err::<Seq<nat>, EvalErrorView>(e),
            },
        decreases stop - t,
    {
        let ghost left = match budget_of(limit) {
            Some(n) => Some((n - found.len()) as nat),
            None => None,
        };
        let value = match evaluate_condition(condition, trace, t) {
            Ok(value) => value,
            Err(e) => {
                return Err(e);
            },
        };
        if !big_is_zero(&value) {
            let ghost before = found@.map_values(|t: usize| t as nat);
            found.push(t);
            proof {
                let less = match left {
                    Some(n) => Some((n - 1) as nat),
                    None => None,
                };
                assert(found@.map_values(|t: usize| t as nat) =~= before.push(t as nat));
                match matches_from(condition@, *trace, (t + 1) as nat, stop as nat, less) {
                    Ok(rest) => {
                        assert(before + (seq![t as nat] + rest) =~= before.push(t as nat) + rest);
                    },
                    Err(_) => {},
                }
            }
        }
        t += 1;
    }
    proof {
        let left = match budget_of(limit) {
            Some(n) => Some((n - found.len()) as nat),
            None => None,
        };
        assert(matches_from(condition@, *trace, t as nat, stop as nat, left) == Ok::<
            Seq<nat>,
            EvalErrorView,
        >(Seq::empty()));
        assert(found@.map_values(|t: usize| t as nat) + Seq::<nat>::empty()
            =~= found@.map_values(|t: usize| t as nat));
        assert forall|i: int| 0 <= i < found.len() implies start_idx <= #[trigger] found[i]
            <= end_idx && found[i] < trace.time_table.len() by {
            assert(found@.map_values(|t: usize| t as nat)[i] == found[i] as nat);
        }
    }
    Ok(found)
}

/// The entries `path = value` of the signals that have a value at time
/// index `t`, in the order of `names`, with `, ` between them. A name that
/// the trace does not know, or whose signal has no value at `t`, gives no
/// entry.
pub open spec fn entries_text(trace: Trace, names: Seq<Seq<char>>, t: nat) -> Seq<char>
    decreases names.len(),
{
    if names.len() == 0 {
        Seq::empty()
    } else {
        let before = entries_text(trace, names.drop_last(), t);
        let name = names.last();
        let handle = trace.spec_resolve(name);
        if handle is Some && trace.has_value(handle->0, t) {
            let entry = name + " = "@ + value_text(trace.signals[handle->0].values[t as int]->0);
            if shown(trace, names.drop_last(), t) {
                before + ", "@ + entry
            } else {
                entry
            }
        } else {
            before
        }
    }
}

/// Whether any of the names has a value to show at time index `t`.
pub open spec fn shown(trace: Trace, names: Seq<Seq<char>>, t: nat) -> bool {
    exists|i: int|
        0 <= i < names.len() && trace.spec_resolve(#[trigger] names[i]) is Some
            && trace.has_value(trace.spec_resolve(names[i])->0, t)
}

/// Where none of the names has a value to show, there are no entries.
pub proof fn lemma_entries_empty(trace: Trace, names: Seq<Seq<char>>, t: nat)
    requires
        !shown(trace, names, t),
    ensures
        entries_text(trace, names, t) == Seq::<char>::empty(),
    decreases names.len(),
{
    if names.len() > 0 {
        let front = names.drop_last();
        if shown(trace, front, t) {
            let k = choose|k: int|
                0 <= k < front.len() && trace.spec_resolve(#[trigger] front[k]) is Some
                    && trace.has_value(trace.spec_resolve(front[k])->0, t);
            assert(names[k] == front[k]);
        }
        lemma_entries_empty(trace, front, t);
        assert(names[names.len() - 1] == names.last());
    }
}

/// The record of a match at time index `t`: the index, its timestamp, and
/// the value of each named signal.
pub open spec fn event_text(trace: Trace, names: Seq<Seq<char>>, t: nat) -> Seq<char>
    recommends
        t < trace.time_table.len(),
{
    "Time index "@ + decimal_text(t) + " ("@ + time_text(
        trace.time_table[t as int],
        trace.timescale,
    ) + "): "@ + entries_text(trace, names, t)
}

/// Formats the record of a match at a time index of the trace.
pub fn format_event(trace: &Trace, names: &Vec<String>, time_idx: usize) -> (text: String)
    requires
        time_idx < trace.time_table.len(),
    ensures
        text@ == event_text(*trace, string_views(names@), time_idx as nat),
{
    let mut out = String::new();
    out.append("Time index ");
    append_decimal(&mut out, time_idx as u128);
    out.append(" (");
    let time = format_time(trace.time_table[time_idx], trace.timescale.as_ref());
    out.append(time.as_str());
    out.append("): ");
    let ghost head = out@;
    let ghost all = string_views(names@);
    let mut any = false;
    let mut i: usize = 0;
    assert(all.subrange(0, 0) =~= Seq::<Seq<char>>::empty());
    while i < names.len()
        invariant
            i <= names.len(),
            all == string_views(names@),
            any == shown(*trace, all.subrange(0, i as int), time_idx as nat),
            out@ == head + entries_text(*trace, all.subrange(0, i as int), time_idx as nat),
        decreases names.len() - i,
    {
        let ghost done = all.subrange(0, i as int);
        let ghost next = all.subrange(0, i as int + 1);
        proof {
            assert(next.drop_last() =~= done);
            assert(next.last() == names[i as int]@);
        }
        let mut has_entry = false;
        match trace.find_signal(&names[i]) {
            Some(handle) => {
                match trace.value_at(handle, time_idx) {
                    Some(signal_value) => {
                        if any {
                            out.append(", ");
                        }
                        out.append(names[i].as_str());
                        out.append(" = ");
                        let value = format_signal_value(signal_value);
                        out.append(value.as_str());
                        has_entry = true;
                    },
                    None => {},
                }
            },
            None => {},
        }
        proof {
            let handle = trace.spec_resolve(next.last());
            if has_entry {
                let entry = next.last() + " = "@ + value_text(
                    trace.signals[handle->0].values[time_idx as int]->0,
                );
                if any {
                    assert(out@ =~= head + (entries_text(*trace, done, time_idx as nat) + ", "@
                        + entry));
                } else {
                    lemma_entries_empty(*trace, done, time_idx as nat);
                    assert(out@ =~= head + entry);
                }
            }
            assert(out@ =~= head + entries_text(*trace, next, time_idx as nat));
            if has_entry {
                assert(next[i as int] == names[i as int]@);
                assert(shown(*trace, next, time_idx as nat));
            } else if any {
                let k = choose|k: int|
                    0 <= k < done.len() && trace.spec_resolve(#[trigger] done[k]) is Some
                        && trace.has_value(trace.spec_resolve(done[k])->0, time_idx as nat);
                assert(next[k] == done[k]);
                assert(shown(*trace, next, time_idx as nat));
            } else {
                if shown(*trace, next, time_idx as nat) {
                    let k = choose|k: int|
                        0 <= k < next.len() && trace.spec_resolve(#[trigger] next[k]) is Some
                            && trace.has_value(trace.spec_resolve(next[k])->0, time_idx as nat);
                    if k < i {
                        assert(done[k] == next[k]);
                    }
                    assert(false);
                }
            }
        }
        any = any || has_entry;
        i += 1;
    }
    assert(all.subrange(0, names.len() as int) =~= all);
    assert(out@ =~= event_text(*trace, all, time_idx as nat));
    out
}

/// The first of the names that the trace has no signal for, if any.
pub open spec fn first_unresolved(trace: Trace, names: Seq<Seq<char>>) -> Option<Seq<char>>
    decreases names.len(),
{
    if names.len() == 0 {
        None
    } else if trace.spec_resolve(names[0]) is None {
        Some(names[0])
    } else {
        first_unresolved(trace, names.drop_first())
    }
}

/// The first of the names that the trace has no signal for, if any.
pub fn find_unresolved(trace: &Trace, names: &Vec<String>) -> (missing: Option<String>)
    ensures
        match missing {
            Some(name) => first_unresolved(*trace, string_views(names@)) == Some(name@),
            None => first_unresolved(*trace, string_views(names@)) is None,
        },
{
    let ghost all = string_views(names@);
    let mut i: usize = 0;
    assert(all.subrange(0, all.len() as int) =~= all);
    while i < names.len()
        invariant
            i <= names.len(),
            all == string_views(names@),
            first_unresolved(*trace, all) == first_unresolved(
                *trace,
                all.subrange(i as int, all.len() as int),
            ),
        decreases names.len() - i,
    {
        let ghost here = all.subrange(i as int, all.len() as int);
        assert(here[0] == names[i as int]@);
        assert(here.drop_first() =~= all.subrange(i as int + 1, all.len() as int));
        match trace.find_signal(&names[i]) {
            Some(_) => {},
            None => {
                return Some(names[i].clone());
            },
        }
        i += 1;
    }
    None
}

/// The records of the events of a condition text over the inclusive range
/// `[start_idx, end_idx]` of a trace.
///
/// The text is parsed first. Then every signal of the condition must be in
/// the trace: the first that is not ends the search before anything is
/// evaluated. Then the range is scanned, and each match gives one record.
pub open spec fn conditional_events(
    trace: Trace,
    text: Seq<char>,
    start_idx: nat,
    end_idx: nat,
    limit: isize,
) -> Result<Seq<Seq<char>>, ScanErrorView> {
    match parse_text(text) {
        Err(e) => Err(ScanErrorView::Parse(e)),
        Ok(c) => match first_unresolved(trace, signal_names(c)) {
            Some(name) => Err(ScanErrorView::Eval(EvalErrorView::SignalNotFound(name))),
            None => match scan_matches(c, trace, start_idx, end_idx, limit) {
                Err(e) => Err(ScanErrorView::Eval(e)),
                Ok(found) => Ok(
                    Seq::new(found.len(), |i: int| event_text(trace, signal_names(c), found[i])),
                ),
            },
        },
    }
}

/// Every record of a search belongs to a match of the scan: a time index
/// within `[start_idx, end_idx]` and within the trace. With a limit that is
/// not negative there are at most that many records.
pub proof fn lemma_events_within_range(
    trace: Trace,
    text: Seq<char>,
    start_idx: nat,
    end_idx: nat,
    limit: isize,
)
    requires
        conditional_events(trace, text, start_idx, end_idx, limit) is Ok,
    ensures
        ({
            let events = conditional_events(trace, text, start_idx, end_idx, limit)->Ok_0;
            let c = parse_text(text)->Ok_0;
            let found = scan_matches(c, trace, start_idx, end_idx, limit)->Ok_0;
            &&& events.len() == found.len()
            &&& limit >= 0 ==> events.len() <= limit
            &&& forall|i: int|
                0 <= i < events.len() ==> start_idx <= #[trigger] found[i] <= end_idx && found[i]
                    < trace.time_table.len() && events[i] == event_text(
                    trace,
                    signal_names(c),
                    found[i],
                )
        }),
{
    let c = parse_text(text)->Ok_0;
    lemma_scan_within_range(c, trace, start_idx, end_idx, limit);
    if limit >= 0 {
        lemma_scan_respects_limit(c, trace, start_idx, end_idx, limit);
    }
}

/// Finds the events at which a condition holds.
///
/// `condition` is the text of the condition, as in `top.valid && top.ready`.
/// The time indices from `start_idx` to `end_idx`, both included, are gone
/// through in increasing order; the range ends with the trace where
/// `end_idx` lies beyond it. Each index at which the condition is not 0
/// gives one record of the shape
/// `Time index 4 (40ns): top.valid = 1'b1, top.ready = 1'b1`. A `limit` that
/// is not negative caps the number of records; a negative one stands for no
/// limit.
pub fn find_conditional_events(
    trace: &Trace,
    condition: &str,
    start_idx: usize,
    end_idx: usize,
    limit: isize,
) -> (r: Result<Vec<String>, ScanError>)
    ensures
        match r {
            Ok(events) => {
                &&& conditional_events(
                    *trace,
                    condition@,
                    start_idx as nat,
                    end_idx as nat,
                    limit,
                ) == Ok::<Seq<Seq<char>>, ScanErrorView>(string_views(events@))
                &&& limit >= 0 ==> events.len() <= limit
            },
            Err(e) => conditional_events(
                *trace,
                condition@,
                start_idx as nat,
                end_idx as nat,
                limit,
            ) == Err::<Seq<Seq<char>>, ScanErrorView>(e@),
        },
{
    let condition_ast = match parse_condition(condition) {
        Ok(c) => c,
        Err(e) => {
            return Err(ScanError::Parse(e));
        },
    };
    let signal_names = extract_signal_names(&condition_ast);
    match find_unresolved(trace, &signal_names) {
        Some(name) => {
            return Err(ScanError::Eval(EvalError::SignalNotFound(name)));
        },
        None => {},
    }
    let found = match find_matching_indices(&condition_ast, trace, start_idx, end_idx, limit) {
        Ok(found) => found,
        Err(e) => {
            return Err(ScanError::Eval(e));
        },
    };
    let ghost indices = found@.map_values(|t: usize| t as nat);
    let ghost names = string_views(signal_names@);
    let mut events: Vec<String> = Vec::new();
    let mut i: usize = 0;
    while i < found.len()
        invariant
            i <= found.len(),
            events.len() == i,
            names == string_views(signal_names@),
            forall|j: int| 0 <= j < found.len() ==> (#[trigger] found[j]) < trace.time_table.len(),
            forall|j: int|
                0 <= j < i ==> (#[trigger] events[j])@ == event_text(*trace, names, found[j] as nat),
        decreases found.len() - i,
    {
        let event = format_event(trace, &signal_names, found[i]);
        events.push(event);
        i += 1;
    }
    assert(string_views(events@) =~= Seq::new(
        indices.len(),
        |i: int| event_text(*trace, names, indices[i]),
    ));
    Ok(events)
}

} // verus!
