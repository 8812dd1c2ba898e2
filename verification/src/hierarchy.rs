//! The hierarchy of a design: scopes within scopes, and the variables that
//! each scope declares.

use vstd::prelude::*;
use vstd::string::*;
use crate::errors::{EvalError, EvalErrorView};
use crate::listing::{filter_signal_names, limited, matching};
use crate::names::string_views;
use crate::text::{append_decimal, decimal_text};

verus! {

/// A variable of a design.
#[derive(Debug, Clone, PartialEq)]
pub struct Variable {
    /// The full hierarchical name: the names of the scopes from the top
    /// down and the variable's own, with `.` between them.
    pub path: String,
    /// The name of the declared type, as in `Wire`.
    pub var_type: String,
    /// The bit width; `None` for strings and reals.
    pub width: Option<u32>,
    /// The declared bit range, upper bound first.
    pub index: Option<(i64, i64)>,
    /// The handle of the signal that carries the variable's values.
    pub signal: usize,
}

/// A scope of a design, with the variables and the scopes that it declares,
/// each in the order of declaration.
#[derive(Debug, PartialEq)]
pub struct Scope {
    /// The handle by which the provider of the hierarchy knows the scope.
    pub id: usize,
    /// The full hierarchical name.
    pub path: String,
    pub variables: Vec<Variable>,
    pub scopes: Vec<Scope>,
}

/// The hierarchy of a design: the variables and scopes at the top.
#[derive(Debug, PartialEq)]
pub struct Hierarchy {
    pub variables: Vec<Variable>,
    pub scopes: Vec<Scope>,
}

/// The first scope with the full name `path`, going through the scopes in
/// the order of declaration and into each scope before going on to the
/// next.
pub open spec fn scope_in_forest(forest: Seq<Scope>, path: Seq<char>) -> Option<Scope>
    decreases forest,
{
    if forest.len() == 0 {
        None
    } else if forest[0].path@ == path {
        Some(forest[0])
    } else {
        match scope_in_forest(forest[0].scopes@, path) {
            Some(found) => Some(found),
            None => scope_in_forest(forest.drop_first(), path),
        }
    }
}

fn find_scope_by_path_recursive<'a>(scopes: &'a Vec<Scope>, path: &String) -> (found: Option<&'a Scope>)
    ensures
        match found {
            Some(scope) => scope_in_forest(scopes@, path@) == Some(*scope),
            None => scope_in_forest(scopes@, path@) is None,
        },
    decreases scopes,
{
    let mut i: usize = 0;
    assert(scopes@.subrange(0, scopes.len() as int) =~= scopes@);
    while i < scopes.len()
        invariant
            i <= scopes.len(),
            scope_in_forest(scopes@, path@) == scope_in_forest(
                scopes@.subrange(i as int, scopes.len() as int),
                path@,
            ),
        decreases scopes.len() - i,
    {
        let ghost rest = scopes@.subrange(i as int, scopes.len() as int);
        assert(rest[0] == scopes[i as int]);
        assert(rest.drop_first() =~= scopes@.subrange(i as int + 1, scopes.len() as int));
        if scopes[i].path == *path {
            return Some(&scopes[i]);
        }
        match find_scope_by_path_recursive(&scopes[i].scopes, path) {
            Some(scope) => {
                return Some(scope);
            },
            None => {},
        }
        i += 1;
    }
    None
}

/// Finds a scope by its hierarchical path, as in `top.module`.
pub fn find_scope_by_path<'a>(hierarchy: &'a Hierarchy, path: &str) -> (found: Option<&'a Scope>)
    ensures
        match found {
            Some(scope) => scope_in_forest(hierarchy.scopes@, path@) == Some(*scope),
            None => scope_in_forest(hierarchy.scopes@, path@) is None,
        },
{
    let wanted = String::from_str(path);
    find_scope_by_path_recursive(&hierarchy.scopes, &wanted)
}

/// The first of the variables with the full name `path`.
pub open spec fn variable_with_path(variables: Seq<Variable>, path: Seq<char>) -> Option<Variable>
    decreases variables.len(),
{
    if variables.len() == 0 {
        None
    } else if variables[0].path@ == path {
        Some(variables[0])
    } else {
        variable_with_path(variables.drop_first(), path)
    }
}

/// The first variable of a scope with the full name `path`: the scope's own
/// variables come before those of the scopes within it.
pub open spec fn variable_in_scope(scope: Scope, path: Seq<char>) -> Option<Variable>
    decreases scope,
{
    match variable_with_path(scope.variables@, path) {
        Some(found) => Some(found),
        None => variable_in_forest(scope.scopes@, path),
    }
}

/// The first variable of a forest with the full name `path`, scope after
/// scope.
pub open spec fn variable_in_forest(forest: Seq<Scope>, path: Seq<char>) -> Option<Variable>
    decreases forest,
{
    if forest.len() == 0 {
        None
    } else {
        match variable_in_scope(forest[0], path) {
            Some(found) => Some(found),
            None => variable_in_forest(forest.drop_first(), path),
        }
    }
}

/// The first variable of a hierarchy with the full name `path`: variables
/// at the top first, then scope after scope.
pub open spec fn variable_by_path(hierarchy: Hierarchy, path: Seq<char>) -> Option<Variable> {
    match variable_with_path(hierarchy.variables@, path) {
        Some(found) => Some(found),
        None => variable_in_forest(hierarchy.scopes@, path),
    }
}

fn find_with_path<'a>(variables: &'a Vec<Variable>, path: &String) -> (found: Option<&'a Variable>)
    ensures
        match found {
            Some(variable) => variable_with_path(variables@, path@) == Some(*variable),
            None => variable_with_path(variables@, path@) is None,
        },
{
    let mut i: usize = 0;
    assert(variables@.subrange(0, variables.len() as int) =~= variables@);
    while i < variables.len()
        invariant
            i <= variables.len(),
            variable_with_path(variables@, path@) == variable_with_path(
                variables@.subrange(i as int, variables.len() as int),
                path@,
            ),
        decreases variables.len() - i,
    {
        let ghost rest = variables@.subrange(i as int, variables.len() as int);
        assert(rest[0] == variables[i as int]);
        assert(rest.drop_first() =~= variables@.subrange(i as int + 1, variables.len() as int));
        if variables[i].path == *path {
            return Some(&variables[i]);
        }
        i += 1;
    }
    None
}

fn find_variable_in_scope<'a>(scope: &'a Scope, path: &String) -> (found: Option<&'a Variable>)
    ensures
        match found {
            Some(variable) => variable_in_scope(*scope, path@) == Some(*variable),
            None => variable_in_scope(*scope, path@) is None,
        },
    decreases scope,
{
    match find_with_path(&scope.variables, path) {
        Some(variable) => Some(variable),
        None => find_variable_in_forest(&scope.scopes, path),
    }
}

fn find_variable_in_forest<'a>(scopes: &'a Vec<Scope>, path: &String) -> (found: Option<
    &'a Variable,
>)
    ensures
        match found {
            Some(variable) => variable_in_forest(scopes@, path@) == Some(*variable),
            None => variable_in_forest(scopes@, path@) is None,
        },
    decreases scopes,
{
    let mut i: usize = 0;
    assert(scopes@.subrange(0, scopes.len() as int) =~= scopes@);
    while i < scopes.len()
        invariant
            i <= scopes.len(),
            variable_in_forest(scopes@, path@) == variable_in_forest(
                scopes@.subrange(i as int, scopes.len() as int),
                path@,
            ),
        decreases scopes.len() - i,
    {
        let ghost rest = scopes@.subrange(i as int, scopes.len() as int);
        assert(rest[0] == scopes[i as int]);
        assert(rest.drop_first() =~= scopes@.subrange(i as int + 1, scopes.len() as int));
        match find_variable_in_scope(&scopes[i], path) {
            Some(variable) => {
                return Some(variable);
            },
            None => {},
        }
        i += 1;
    }
    None
}

/// Finds a variable by its hierarchical path, as in `top.module.signal`:
/// the first variable with that full name, or `None` where there is none.
pub fn find_variable_by_path<'a>(hierarchy: &'a Hierarchy, path: &str) -> (found: Option<
    &'a Variable,
>)
    ensures
        match found {
            Some(variable) => variable_by_path(*hierarchy, path@) == Some(*variable),
            None => variable_by_path(*hierarchy, path@) is None,
        },
{
    let wanted = String::from_str(path);
    match find_with_path(&hierarchy.variables, &wanted) {
        Some(variable) => Some(variable),
        None => find_variable_in_forest(&hierarchy.scopes, &wanted),
    }
}

/// Finds a signal by its hierarchical path, as in `top.module.signal`: the
/// handle of the signal of the first variable with that full name, or
/// `None` where there is no such variable.
pub fn find_signal_by_path(hierarchy: &Hierarchy, path: &str) -> (handle: Option<usize>)
    ensures
        match handle {
            Some(signal) => variable_by_path(*hierarchy, path@) is Some && variable_by_path(
                *hierarchy,
                path@,
            )->0.signal == signal,
            None => variable_by_path(*hierarchy, path@) is None,
        },
{
    match find_variable_by_path(hierarchy, path) {
        Some(variable) => Some(variable.signal),
        None => None,
    }
}

/// The full names of variables, in order.
pub open spec fn variable_paths(variables: Seq<Variable>) -> Seq<Seq<char>> {
    Seq::new(variables.len(), |i: int| variables[i].path@)
}

/// The full names of the variables of a scope; with `recursive`, followed
/// by those of the scopes within it.
pub open spec fn scope_signals(scope: Scope, recursive: bool) -> Seq<Seq<char>>
    decreases scope,
{
    variable_paths(scope.variables@) + if recursive {
        forest_signals(scope.scopes@, true)
    } else {
        Seq::empty()
    }
}

/// The signals of each scope of a forest, one scope after the other.
pub open spec fn forest_signals(forest: Seq<Scope>, recursive: bool) -> Seq<Seq<char>>
    decreases forest,
{
    if forest.len() == 0 {
        Seq::empty()
    } else {
        forest_signals(forest.drop_last(), recursive) + scope_signals(forest.last(), recursive)
    }
}

fn gather_scope(scope: &Scope, recursive: bool, signals: &mut Vec<String>)
    ensures
        string_views(final(signals)@) == string_views(old(signals)@) + scope_signals(
            *scope,
            recursive,
        ),
    decreases scope,
{
    let ghost start = string_views(signals@);
    let mut i: usize = 0;
    while i < scope.variables.len()
        invariant
            i <= scope.variables.len(),
            string_views(signals@) == start + variable_paths(scope.variables@).subrange(
                0,
                i as int,
            ),
        decreases scope.variables.len() - i,
    {
        let ghost before = string_views(signals@);
        signals.push(scope.variables[i].path.clone());
        assert(string_views(signals@) =~= before.push(scope.variables[i as int].path@));
        assert(variable_paths(scope.variables@).subrange(0, i as int + 1) =~= variable_paths(
            scope.variables@,
        ).subrange(0, i as int).push(scope.variables[i as int].path@));
        assert(string_views(signals@) =~= start + variable_paths(scope.variables@).subrange(
            0,
            i as int + 1,
        ));
        i += 1;
    }
    assert(variable_paths(scope.variables@).subrange(0, scope.variables.len() as int)
        =~= variable_paths(scope.variables@));
    if recursive {
        gather_forest(&scope.scopes, true, signals);
    }
    assert(string_views(signals@) =~= start + scope_signals(*scope, recursive));
}

fn gather_forest(scopes: &Vec<Scope>, recursive: bool, signals: &mut Vec<String>)
    ensures
        string_views(final(signals)@) == string_views(old(signals)@) + forest_signals(
            scopes@,
            recursive,
        ),
    decreases scopes,
{
    let ghost start = string_views(signals@);
    let mut i: usize = 0;
    assert(scopes@.subrange(0, 0) =~= Seq::<Scope>::empty());
    assert(string_views(signals@) =~= start + forest_signals(scopes@.subrange(0, 0), recursive));
    while i < scopes.len()
        invariant
            i <= scopes.len(),
            string_views(signals@) == start + forest_signals(
                scopes@.subrange(0, i as int),
                recursive,
            ),
        decreases scopes.len() - i,
    {
        let ghost done = scopes@.subrange(0, i as int);
        let ghost next = scopes@.subrange(0, i as int + 1);
        assert(next.drop_last() =~= done);
        assert(next.last() == scopes[i as int]);
        gather_scope(&scopes[i], recursive, signals);
        assert(string_views(signals@) =~= start + forest_signals(next, recursive));
        i += 1;
    }
    assert(scopes@.subrange(0, scopes.len() as int) =~= scopes@);
}

/// Collects the full names of the variables of a scope and, with
/// `recursive`, of the scopes within it; with a name pattern, those that
/// hold the pattern, letters in either case.
pub fn collect_signals_from_scope(scope: &Scope, recursive: bool, name_pattern: Option<&str>) -> (signals:
    Vec<String>)
    ensures
        string_views(signals@) == matching(
            scope_signals(*scope, recursive),
            match name_pattern {
                Some(p) => Some(p@),
                None => None,
            },
        ),
{
    let mut all: Vec<String> = Vec::new();
    assert(string_views(all@) =~= Seq::<Seq<char>>::empty());
    gather_scope(scope, recursive, &mut all);
    assert(Seq::<Seq<char>>::empty() + scope_signals(*scope, recursive) =~= scope_signals(
        *scope,
        recursive,
    ));
    filter_signal_names(&all, name_pattern, None)
}

/// The signals that a listing starts from: those of the scope with the
/// given path, none where there is no such scope; without a path, those of
/// every scope at the top.
pub open spec fn listed_signals(
    hierarchy: Hierarchy,
    hierarchy_prefix: Option<Seq<char>>,
    recursive: bool,
) -> Seq<Seq<char>> {
    match hierarchy_prefix {
        Some(prefix) => match scope_in_forest(hierarchy.scopes@, prefix) {
            Some(scope) => scope_signals(scope, recursive),
            None => Seq::empty(),
        },
        None => forest_signals(hierarchy.scopes@, recursive),
    }
}

/// Lists the signals of a hierarchy.
///
/// With a hierarchy prefix, the listing is that of the scope with this
/// path, and empty where there is none; without, that of all scopes at the
/// top. With `recursive`, the scopes within a scope are listed after its
/// own variables. A name pattern keeps the signals that hold it, letters in
/// either case. A limit that is not negative caps the number of signals.
pub fn list_signals(
    hierarchy: &Hierarchy,
    name_pattern: Option<&str>,
    hierarchy_prefix: Option<&str>,
    recursive: bool,
    limit: Option<isize>,
) -> (signals: Vec<String>)
    ensures
        string_views(signals@) == limited(
            matching(
                listed_signals(
                    *hierarchy,
                    match hierarchy_prefix {
                        Some(p) => Some(p@),
                        None => None,
                    },
                    recursive,
                ),
                match name_pattern {
                    Some(p) => Some(p@),
                    None => None,
                },
            ),
            limit,
        ),
{
    let mut all: Vec<String> = Vec::new();
    assert(string_views(all@) =~= Seq::<Seq<char>>::empty());
    match hierarchy_prefix {
        Some(prefix) => {
            match find_scope_by_path(hierarchy, prefix) {
                Some(scope) => {
                    gather_scope(scope, recursive, &mut all);
                    assert(Seq::<Seq<char>>::empty() + scope_signals(*scope, recursive)
                        =~= scope_signals(*scope, recursive));
                },
                None => {},
            }
        },
        None => {
            gather_forest(&hierarchy.scopes, recursive, &mut all);
            assert(Seq::<Seq<char>>::empty() + forest_signals(hierarchy.scopes@, recursive)
                =~= forest_signals(hierarchy.scopes@, recursive));
        },
    }
    filter_signal_names(&all, name_pattern, limit)
}

/// A whole number in decimal, with `-` in front where it is negative.
pub open spec fn signed_text(i: int) -> Seq<char> {
    if i < 0 {
        "-"@ + decimal_text((-i) as nat)
    } else {
        decimal_text(i as nat)
    }
}

fn append_signed(out: &mut String, i: i64)
    ensures
        final(out)@ == old(out)@ + signed_text(i as int),
{
    if i < 0 {
        out.append("-");
        append_decimal(out, (-(i as i128)) as u128);
        assert(out@ =~= old(out)@ + signed_text(i as int));
    } else {
        append_decimal(out, i as u128);
    }
}

/// The text that describes a variable: the path it was asked for by, its
/// type, its width and its declared bit range.
pub open spec fn metadata_text(path: Seq<char>, variable: Variable) -> Seq<char> {
    "Signal: "@ + path + "\nType: "@ + variable.var_type@ + "\nWidth: "@ + match variable.width {
        Some(width) => decimal_text(width as nat) + " bits"@,
        None => "variable length (string/real)"@,
    } + "\nIndex: "@ + match variable.index {
        Some((msb, lsb)) => "["@ + signed_text(msb as int) + ":"@ + signed_text(lsb as int)
            + "]"@,
        None => "N/A"@,
    }
}

/// Describes a signal that was looked up by a path: the path, and the
/// type, width and declared bit range of the variable that was found. Where
/// none was found, the signal is reported as not found.
pub fn get_signal_metadata(signal_path: &str, found: Option<&Variable>) -> (r: Result<
    String,
    EvalError,
>)
    ensures
        match r {
            Ok(text) => found is Some && text@ == metadata_text(signal_path@, *found->0),
            Err(e) => found is None && e@ == EvalErrorView::SignalNotFound(signal_path@),
        },
{
    let variable = match found {
        Some(variable) => variable,
        None => {
            return Err(EvalError::SignalNotFound(String::from_str(signal_path)));
        },
    };
    let mut out = String::new();
    out.append("Signal: ");
    out.append(signal_path);
    out.append("\nType: ");
    out.append(variable.var_type.as_str());
    out.append("\nWidth: ");
    match variable.width {
        Some(width) => {
            append_decimal(&mut out, width as u128);
            out.append(" bits");
        },
        None => {
            out.append("variable length (string/real)");
        },
    }
    out.append("\nIndex: ");
    match variable.index {
        Some((msb, lsb)) => {
            out.append("[");
            append_signed(&mut out, msb);
            out.append(":");
            append_signed(&mut out, lsb);
            out.append("]");
        },
        None => {
            out.append("N/A");
        },
    }
    assert(out@ =~= metadata_text(signal_path@, *variable));
    Ok(out)
}

} // verus!
