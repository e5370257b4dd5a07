//! The paths the user asked to hide, as a list kept without repeats (two
//! spellings of one path count as one).
use vstd::prelude::*;

use crate::paths::{path_parts, same_parts, same_path};
use crate::strset::string_views;

verus! {

/// `rules` holds a path that is `p`.
pub open spec fn holds_path(rules: Seq<Seq<char>>, p: Seq<char>) -> bool {
    exists|i: int| 0 <= i < rules.len() && same_path(#[trigger] rules[i], p)
}

/// `rules` without the paths that are `p`, in order.
pub open spec fn without_path(rules: Seq<Seq<char>>, p: Seq<char>) -> Seq<Seq<char>>
    decreases rules.len(),
{
    if rules.len() == 0 {
        Seq::empty()
    } else {
        let prev = without_path(rules.drop_last(), p);
        if same_path(rules.last(), p) {
            prev
        } else {
            prev.push(rules.last())
        }
    }
}

fn find_path(rules: &Vec<String>, p: &str) -> (r: Option<usize>)
    ensures
        r is None ==> !holds_path(string_views(rules@), p@),
        r matches Some(i) ==> i < rules@.len() && same_path(rules@[i as int]@, p@),
{
    let key = path_parts(p);
    let mut i: usize = 0;
    while i < rules.len()
        invariant
            i <= rules@.len(),
            key.view_of() == crate::paths::path_view(p@),
            forall|j: int| 0 <= j < i ==> !same_path(#[trigger] string_views(rules@)[j], p@),
        decreases rules@.len() - i,
    {
        let here = path_parts(rules[i].as_str());
        if same_parts(&here, &key) {
            return Some(i);
        }
        assert(string_views(rules@)[i as int] == rules@[i as int]@);
        i = i + 1;
    }
    None
}

/// Adds `p` unless the list holds it; says whether it was added.
pub fn add_user_hide_rule(rules: &mut Vec<String>, p: &str) -> (added: bool)
    ensures
        added == !holds_path(string_views(old(rules)@), p@),
        added ==> string_views(final(rules)@) == string_views(old(rules)@).push(p@),
        !added ==> final(rules)@ == old(rules)@,
{
    match find_path(rules, p) {
        Some(i) => {
            assert(string_views(rules@)[i as int] == rules@[i as int]@);
            false
        },
        None => {
            let ghost before = string_views(rules@);
            rules.push(String::from_str(p));
            assert(string_views(rules@) =~= before.push(p@));
            true
        },
    }
}

/// Removes every entry that is `p`; says whether there was one.
pub fn remove_user_hide_rule(rules: &mut Vec<String>, p: &str) -> (removed: bool)
    ensures
        removed == holds_path(string_views(old(rules)@), p@),
        string_views(final(rules)@) == without_path(string_views(old(rules)@), p@),
{
    let ghost rv = string_views(rules@);
    let key = path_parts(p);
    let mut kept: Vec<String> = Vec::new();
    let mut removed = false;
    let mut i: usize = 0;
    while i < rules.len()
        invariant
            i <= rules@.len(),
            rv == string_views(rules@),
            *rules == *old(rules),
            key.view_of() == crate::paths::path_view(p@),
            string_views(kept@) == without_path(rv.take(i as int), p@),
            removed == holds_path(rv.take(i as int), p@),
        decreases rules@.len() - i,
    {
        assert(rv.take(i + 1).drop_last() =~= rv.take(i as int));
        assert(rv.take(i + 1).last() == rules@[i as int]@);
        let here = path_parts(rules[i].as_str());
        let ghost before = string_views(kept@);
        if same_parts(&here, &key) {
            removed = true;
            assert(rv.take(i + 1)[i as int] == rv[i as int]);
        } else {
            kept.push(rules[i].clone());
            assert(string_views(kept@) =~= before.push(rules@[i as int]@));
        }
        proof {
            let t = rv.take(i + 1);
            if holds_path(t, p@) && !holds_path(rv.take(i as int), p@) {
                let j = choose|j: int| 0 <= j < t.len() && same_path(#[trigger] t[j], p@);
                assert(j == i);
            }
            if holds_path(rv.take(i as int), p@) {
                let j = choose|j: int| 0 <= j < i && same_path(#[trigger] rv.take(i as int)[j], p@);
                assert(t[j] == rv.take(i as int)[j]);
            }
            if same_path(rv[i as int], p@) {
                assert(t[i as int] == rv[i as int]);
            }
        }
        i = i + 1;
    }
    assert(rv.take(rules@.len() as int) =~= rv);
    *rules = kept;
    removed
}

/// A removed path is gone, and an added one is held, so adding it again
/// adds nothing.
pub proof fn lemma_add_remove(rules: Seq<Seq<char>>, p: Seq<char>)
    ensures
        holds_path(rules.push(p), p),
        !holds_path(without_path(rules, p), p),
    decreases rules.len(),
{
    assert(same_path(rules.push(p)[rules.len() as int], p));
    if rules.len() > 0 {
        lemma_add_remove(rules.drop_last(), p);
        let prev = without_path(rules.drop_last(), p);
        if !same_path(rules.last(), p) {
            let w = prev.push(rules.last());
            if holds_path(w, p) {
                let j = choose|j: int| 0 <= j < w.len() && same_path(#[trigger] w[j], p);
                if j < prev.len() {
                    assert(w[j] == prev[j]);
                }
            }
        }
    }
}

} // verus!
