//! The signal paths that a condition refers to.

use vstd::prelude::*;
use crate::ast::{Condition, ConditionView};

verus! {

/// The views of a sequence of strings.
pub open spec fn string_views(names: Seq<String>) -> Seq<Seq<char>> {
    Seq::new(names.len(), |i: int| names[i]@)
}

/// Every path at a leaf of the condition, left to right, repeats included.
pub open spec fn leaf_paths(c: ConditionView) -> Seq<Seq<char>>
    decreases c,
{
    match c {
        ConditionView::And(l, r) => leaf_paths(*l) + leaf_paths(*r),
        ConditionView::Or(l, r) => leaf_paths(*l) + leaf_paths(*r),
        ConditionView::Not(e) => leaf_paths(*e),
        ConditionView::BitwiseNot(e) => leaf_paths(*e),
        ConditionView::Signal(path) => seq![path],
        ConditionView::BitExtract(path, _, _) => seq![path],
        ConditionView::Eq(l, r) => leaf_paths(*l) + leaf_paths(*r),
        ConditionView::Neq(l, r) => leaf_paths(*l) + leaf_paths(*r),
        ConditionView::BitwiseAnd(l, r) => leaf_paths(*l) + leaf_paths(*r),
        ConditionView::BitwiseOr(l, r) => leaf_paths(*l) + leaf_paths(*r),
        ConditionView::BitwiseXor(l, r) => leaf_paths(*l) + leaf_paths(*r),
        ConditionView::Literal(_) => Seq::empty(),
        ConditionView::Past(e) => leaf_paths(*e),
    }
}

/// `acc`, followed by each path of `paths` that occurs neither in `acc` nor
/// earlier in `paths`, in the order of first occurrence.
pub open spec fn add_distinct(acc: Seq<Seq<char>>, paths: Seq<Seq<char>>) -> Seq<Seq<char>>
    decreases paths.len(),
{
    if paths.len() == 0 {
        acc
    } else {
        let before = add_distinct(acc, paths.drop_last());
        if before.contains(paths.last()) {
            before
        } else {
            before.push(paths.last())
        }
    }
}

/// The distinct signal paths of a condition, in the order of first use.
pub open spec fn signal_names(c: ConditionView) -> Seq<Seq<char>> {
    add_distinct(Seq::empty(), leaf_paths(c))
}

/// Adding two runs of paths one after the other is adding their concatenation.
pub proof fn lemma_add_distinct_concat(acc: Seq<Seq<char>>, a: Seq<Seq<char>>, b: Seq<Seq<char>>)
    ensures
        add_distinct(add_distinct(acc, a), b) == add_distinct(acc, a + b),
    decreases b.len(),
{
    if b.len() == 0 {
        assert(a + b =~= a);
    } else {
        lemma_add_distinct_concat(acc, a, b.drop_last());
        assert((a + b).drop_last() =~= a + b.drop_last());
        assert((a + b).last() == b.last());
    }
}

/// `add_distinct` keeps `acc` as a prefix, adds no path twice, and holds
/// exactly the paths of `acc` and of `paths`.
pub proof fn lemma_add_distinct_properties(acc: Seq<Seq<char>>, paths: Seq<Seq<char>>)
    ensures
        acc.len() <= add_distinct(acc, paths).len(),
        add_distinct(acc, paths).subrange(0, acc.len() as int) == acc,
        acc.no_duplicates() ==> add_distinct(acc, paths).no_duplicates(),
        forall|p: Seq<char>| #[trigger]
            add_distinct(acc, paths).contains(p) <==> acc.contains(p) || paths.contains(p),
    decreases paths.len(),
{
    let out = add_distinct(acc, paths);
    if paths.len() == 0 {
        assert(out.subrange(0, acc.len() as int) =~= acc);
    } else {
        let before = add_distinct(acc, paths.drop_last());
        lemma_add_distinct_properties(acc, paths.drop_last());
        assert(out.subrange(0, acc.len() as int) =~= before.subrange(0, acc.len() as int));
        assert forall|p: Seq<char>| #[trigger]
            out.contains(p) <==> acc.contains(p) || paths.contains(p) by {
            if paths.contains(p) {
                let i = choose|i: int| 0 <= i < paths.len() && paths[i] == p;
                if i < paths.len() - 1 {
                    assert(paths.drop_last()[i] == p);
                    assert(paths.drop_last().contains(p));
                } else {
                    assert(p == paths.last());
                }
            }
            if paths.drop_last().contains(p) {
                let i = choose|i: int| 0 <= i < paths.drop_last().len() && paths.drop_last()[i] == p;
                assert(paths[i] == p);
            }
            if before.contains(paths.last()) {
            } else {
                assert(out == before.push(paths.last()));
                assert(out.last() == paths.last());
                if out.contains(p) {
                    let i = choose|i: int| 0 <= i < out.len() && out[i] == p;
                    if i < before.len() {
                        assert(before[i] == p);
                    }
                }
                if before.contains(p) {
                    let i = choose|i: int| 0 <= i < before.len() && before[i] == p;
                    assert(out[i] == p);
                }
                assert(out[out.len() - 1] == paths.last());
            }
        }
        if acc.no_duplicates() && !before.contains(paths.last()) {
            assert forall|i: int, j: int| 0 <= i < out.len() && 0 <= j < out.len() && i != j implies out[i]
                != out[j] by {
                if i < before.len() && j < before.len() {
                } else if i < before.len() {
                    assert(before.contains(out[i]));
                } else {
                    assert(before.contains(out[j]));
                }
            }
        }
    }
}

/// The names of a condition are distinct, and they are exactly the paths at
/// its leaves.
pub proof fn lemma_signal_names_properties(c: ConditionView)
    ensures
        signal_names(c).no_duplicates(),
        forall|p: Seq<char>| #[trigger] signal_names(c).contains(p) <==> leaf_paths(c).contains(p),
{
    lemma_add_distinct_properties(Seq::empty(), leaf_paths(c));
}

fn contains_name(names: &Vec<String>, path: &String) -> (found: bool)
    ensures
        found == string_views(names@).contains(path@),
{
    let mut i: usize = 0;
    while i < names.len()
        invariant
            i <= names.len(),
            forall|j: int| 0 <= j < i ==> string_views(names@)[j] != path@,
        decreases names.len() - i,
    {
        if names[i] == *path {
            assert(string_views(names@)[i as int] == path@);
            return true;
        }
        i += 1;
    }
    false
}

fn note_path(path: &String, names: &mut Vec<String>)
    ensures
        string_views(final(names)@) == add_distinct(string_views(old(names)@), seq![path@]),
{
    let ghost before = string_views(names@);
    assert(seq![path@].drop_last() =~= Seq::<Seq<char>>::empty());
    assert(add_distinct(before, Seq::<Seq<char>>::empty()) == before);
    if !contains_name(names, path) {
        names.push(path.clone());
        assert(string_views(names@) =~= before.push(path@));
    }
}

/// Adds to `names` each signal path of `condition` that is not in it yet, in
/// the order in which the paths occur in the condition.
pub fn extract_signal_names_recursive(condition: &Condition, names: &mut Vec<String>)
    ensures
        string_views(final(names)@) == add_distinct(string_views(old(names)@), leaf_paths(condition@)),
    decreases condition,
{
    let ghost start = string_views(names@);
    match condition {
        Condition::And(left, right)
        | Condition::Or(left, right)
        | Condition::Eq(left, right)
        | Condition::Neq(left, right)
        | Condition::BitwiseAnd(left, right)
        | Condition::BitwiseOr(left, right)
        | Condition::BitwiseXor(left, right) => {
            extract_signal_names_recursive(left, names);
            extract_signal_names_recursive(right, names);
            proof {
                lemma_add_distinct_concat(start, leaf_paths(left@), leaf_paths(right@));
            }
        },
        Condition::Not(expr) | Condition::BitwiseNot(expr) | Condition::Past(expr) => {
            extract_signal_names_recursive(expr, names);
        },
        Condition::Signal(path) => {
            note_path(path, names);
        },
        Condition::BitExtract(path, _, _) => {
            note_path(path, names);
        },
        Condition::Literal(_) => {},
    }
}

/// The distinct signal paths that `condition` refers to, each once, in the
/// order of first use.
pub fn extract_signal_names(condition: &Condition) -> (names: Vec<String>)
    ensures
        string_views(names@) == signal_names(condition@),
        string_views(names@).no_duplicates(),
        forall|p: Seq<char>| #[trigger]
            string_views(names@).contains(p) <==> leaf_paths(condition@).contains(p),
{
    let mut names: Vec<String> = Vec::new();
    assert(string_views(names@) =~= Seq::<Seq<char>>::empty());
    extract_signal_names_recursive(condition, &mut names);
    proof {
        lemma_signal_names_properties(condition@);
    }
    names
}

} // verus!
