//! Choosing signal paths by a name pattern, up to a limit.

use vstd::prelude::*;
use vstd::string::*;
use crate::names::string_views;
use crate::text::str_to_chars;

verus! {

/// The lower-case form of a text, as `str::to_lowercase` gives it: every
/// character replaced by its Unicode lower-case mapping.
pub uninterp spec fn lowercase_of(s: Seq<char>) -> Seq<char>;

/// `str::to_lowercase`: the lower-case form of the string. The result
/// depends on the characters of the string alone.
#[verifier::external_body]
fn lowercase(s: &str) -> (r: String)
    ensures
        r@ == lowercase_of(s@),
{
    s.to_lowercase()
}

/// Whether `needle` stands in `hay` at position `at`.
pub open spec fn occurs_at(hay: Seq<char>, needle: Seq<char>, at: int) -> bool {
    0 <= at && at + needle.len() <= hay.len() && hay.subrange(at, at + needle.len()) == needle
}

/// Whether `needle` stands somewhere in `hay`.
pub open spec fn is_substring(hay: Seq<char>, needle: Seq<char>) -> bool {
    exists|at: int| occurs_at(hay, needle, at)
}

/// Whether a path matches a name pattern: the pattern stands somewhere in
/// the path, letters compared without regard to case.
pub open spec fn matches_pattern(path: Seq<char>, pattern: Seq<char>) -> bool {
    is_substring(lowercase_of(path), lowercase_of(pattern))
}

fn stands_at(hay: &Vec<char>, needle: &Vec<char>, at: usize) -> (r: bool)
    requires
        at + needle.len() <= hay.len(),
    ensures
        r == occurs_at(hay@, needle@, at as int),
{
    let mut i: usize = 0;
    while i < needle.len()
        invariant
            i <= needle.len(),
            at + needle.len() <= hay.len(),
            forall|j: int| 0 <= j < i ==> hay[at + j] == needle[j],
        decreases needle.len() - i,
    {
        if hay[at + i] != needle[i] {
            assert(hay@.subrange(at as int, at + needle.len())[i as int] != needle@[i as int]);
            return false;
        }
        i += 1;
    }
    assert(hay@.subrange(at as int, at + needle.len()) =~= needle@);
    true
}

/// Whether `needle` stands somewhere in `hay`.
pub fn contains_text(hay: &Vec<char>, needle: &Vec<char>) -> (r: bool)
    ensures
        r == is_substring(hay@, needle@),
{
    if needle.len() > hay.len() {
        return false;
    }
    let last = hay.len() - needle.len();
    let mut at: usize = 0;
    loop
        invariant
            at <= last,
            last == hay.len() - needle.len(),
            needle.len() <= hay.len(),
            forall|k: int| 0 <= k < at ==> !occurs_at(hay@, needle@, k),
        decreases last - at,
    {
        if stands_at(hay, needle, at) {
            return true;
        }
        if at == last {
            return false;
        }
        at += 1;
    }
}

/// The paths that match the pattern, in order; all of them where there is
/// no pattern.
pub open spec fn matching(paths: Seq<Seq<char>>, pattern: Option<Seq<char>>) -> Seq<Seq<char>>
    decreases paths.len(),
{
    if paths.len() == 0 {
        paths
    } else {
        let before = matching(paths.drop_last(), pattern);
        if pattern is None || matches_pattern(paths.last(), pattern->0) {
            before.push(paths.last())
        } else {
            before
        }
    }
}

/// The first `limit` of the paths; all of them where there is no limit or
/// the limit is negative.
pub open spec fn limited(paths: Seq<Seq<char>>, limit: Option<isize>) -> Seq<Seq<char>> {
    match limit {
        Some(n) => if 0 <= n < paths.len() {
            paths.subrange(0, n as int)
        } else {
            paths
        },
        None => paths,
    }
}

/// Chooses among signal paths: those that hold the name pattern, letters in
/// either case, and of these at most `limit`. Without a pattern every path
/// is chosen; without a limit, or with a negative one, all chosen paths are
/// returned. The order of the paths is kept.
pub fn filter_signal_names(paths: &Vec<String>, name_pattern: Option<&str>, limit: Option<isize>) -> (chosen:
    Vec<String>)
    ensures
        string_views(chosen@) == limited(
            matching(
                string_views(paths@),
                match name_pattern {
                    Some(p) => Some(p@),
                    None => None,
                },
            ),
            limit,
        ),
{
    let ghost all = string_views(paths@);
    let ghost pattern = match name_pattern {
        Some(p) => Some(p@),
        None => None,
    };
    let wanted: Option<Vec<char>> = match name_pattern {
        Some(p) => {
            let lower = lowercase(p);
            Some(str_to_chars(lower.as_str()))
        },
        None => None,
    };
    let mut chosen: Vec<String> = Vec::new();
    let mut i: usize = 0;
    assert(all.subrange(0, 0) =~= Seq::<Seq<char>>::empty());
    assert(string_views(chosen@) =~= Seq::<Seq<char>>::empty());
    while i < paths.len()
        invariant
            i <= paths.len(),
            all == string_views(paths@),
            pattern == match name_pattern {
                Some(p) => Some(p@),
                None => None,
            },
            match wanted {
                Some(w) => name_pattern is Some && w@ == lowercase_of(name_pattern->0@),
                None => name_pattern is None,
            },
            string_views(chosen@) == matching(all.subrange(0, i as int), pattern),
        decreases paths.len() - i,
    {
        let ghost before = string_views(chosen@);
        assert(all.subrange(0, i as int + 1).drop_last() =~= all.subrange(0, i as int));
        assert(all.subrange(0, i as int + 1).last() == paths[i as int]@);
        let keep = match &wanted {
            Some(w) => {
                let lower = lowercase(paths[i].as_str());
                let hay = str_to_chars(lower.as_str());
                contains_text(&hay, w)
            },
            None => true,
        };
        if keep {
            chosen.push(paths[i].clone());
            assert(string_views(chosen@) =~= before.push(paths[i as int]@));
        }
        i += 1;
    }
    assert(all.subrange(0, paths.len() as int) =~= all);
    match limit {
        Some(n) => {
            if n >= 0 && (n as usize) < chosen.len() {
                let ghost full = string_views(chosen@);
                chosen.truncate(n as usize);
                assert(string_views(chosen@) =~= full.subrange(0, n as int));
            }
        },
        None => {},
    }
    chosen
}

/// Whether a path begins with a prefix.
pub open spec fn begins_with(path: Seq<char>, prefix: Seq<char>) -> bool {
    prefix.len() <= path.len() && path.subrange(0, prefix.len() as int) == prefix
}

/// The paths that begin with the prefix, in order.
pub open spec fn with_prefix(paths: Seq<Seq<char>>, prefix: Seq<char>) -> Seq<Seq<char>>
    decreases paths.len(),
{
    if paths.len() == 0 {
        paths
    } else {
        let before = with_prefix(paths.drop_last(), prefix);
        if begins_with(paths.last(), prefix) {
            before.push(paths.last())
        } else {
            before
        }
    }
}

/// The kept paths are exactly the paths that begin with the prefix.
pub proof fn lemma_with_prefix(paths: Seq<Seq<char>>, prefix: Seq<char>)
    ensures
        forall|p: Seq<char>| #[trigger]
            with_prefix(paths, prefix).contains(p) <==> paths.contains(p) && begins_with(
                p,
                prefix,
            ),
    decreases paths.len(),
{
    let kept = with_prefix(paths, prefix);
    if paths.len() > 0 {
        let front = paths.drop_last();
        let before = with_prefix(front, prefix);
        lemma_with_prefix(front, prefix);
        assert forall|p: Seq<char>| #[trigger]
            kept.contains(p) <==> paths.contains(p) && begins_with(p, prefix) by {
            if paths.contains(p) {
                let i = choose|i: int| 0 <= i < paths.len() && paths[i] == p;
                if i < front.len() {
                    assert(front[i] == p);
                } else {
                    assert(p == paths.last());
                }
            }
            if front.contains(p) {
                let i = choose|i: int| 0 <= i < front.len() && front[i] == p;
                assert(paths[i] == p);
            }
            if before.contains(p) {
                let i = choose|i: int| 0 <= i < before.len() && before[i] == p;
                if begins_with(paths.last(), prefix) {
                    assert(kept[i] == p);
                }
            }
            if begins_with(paths.last(), prefix) {
                assert(kept == before.push(paths.last()));
                assert(kept[kept.len() - 1] == paths.last());
                assert(paths[paths.len() - 1] == paths.last());
                if kept.contains(p) {
                    let i = choose|i: int| 0 <= i < kept.len() && kept[i] == p;
                    if i < before.len() {
                        assert(before[i] == p);
                    }
                }
            }
        }
    }
}

fn has_prefix(path: &Vec<char>, prefix: &Vec<char>) -> (r: bool)
    ensures
        r == begins_with(path@, prefix@),
{
    if prefix.len() > path.len() {
        return false;
    }
    let mut i: usize = 0;
    while i < prefix.len()
        invariant
            i <= prefix.len() <= path.len(),
            forall|j: int| 0 <= j < i ==> path[j] == prefix[j],
        decreases prefix.len() - i,
    {
        if path[i] != prefix[i] {
            assert(path@.subrange(0, prefix.len() as int)[i as int] != prefix@[i as int]);
            return false;
        }
        i += 1;
    }
    assert(path@.subrange(0, prefix.len() as int) =~= prefix@);
    true
}

/// Keeps the paths that begin with the prefix, in their order.
pub fn paths_with_prefix(paths: &Vec<String>, prefix: &str) -> (kept: Vec<String>)
    ensures
        string_views(kept@) == with_prefix(string_views(paths@), prefix@),
        forall|p: Seq<char>| #[trigger]
            string_views(kept@).contains(p) <==> string_views(paths@).contains(p) && begins_with(
                p,
                prefix@,
            ),
{
    let ghost all = string_views(paths@);
    let wanted = str_to_chars(prefix);
    let mut kept: Vec<String> = Vec::new();
    let mut i: usize = 0;
    assert(all.subrange(0, 0) =~= Seq::<Seq<char>>::empty());
    assert(string_views(kept@) =~= Seq::<Seq<char>>::empty());
    while i < paths.len()
        invariant
            i <= paths.len(),
            all == string_views(paths@),
            wanted@ == prefix@,
            string_views(kept@) == with_prefix(all.subrange(0, i as int), prefix@),
        decreases paths.len() - i,
    {
        let ghost before = string_views(kept@);
        assert(all.subrange(0, i as int + 1).drop_last() =~= all.subrange(0, i as int));
        assert(all.subrange(0, i as int + 1).last() == paths[i as int]@);
        let path = str_to_chars(paths[i].as_str());
        if has_prefix(&path, &wanted) {
            kept.push(paths[i].clone());
            assert(string_views(kept@) =~= before.push(paths[i as int]@));
        }
        i += 1;
    }
    assert(all.subrange(0, paths.len() as int) =~= all);
    proof {
        lemma_with_prefix(all, prefix@);
    }
    kept
}

} // verus!
