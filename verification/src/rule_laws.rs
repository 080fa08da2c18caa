//! Laws on the rules of a `.gitignore`: what they decide for a path, why
//! leaving out the reported duplicates changes none of it, and how the text
//! before them shifts their line numbers.

use vstd::prelude::*;
use crate::laws::{lemma_duplicates_upto, lemma_last_match, law_parsed_rules};
use crate::report::{reported_duplicate, unique_of};
use crate::rules::{duplicates_of, last_match, negated, normalized, parsed_rules, repeated_rule, rules_of_lines};
use crate::text::{lemma_lines_append, lines};

verus! {

/// What the rules decide for a path, where `matches` tells which patterns
/// match it: the last matching rule ignores it (`Some(true)`) or, when
/// negated, re-includes it (`Some(false)`); with no matching rule, `None`.
pub open spec fn path_status(rv: Seq<(nat, Seq<char>)>, matches: spec_fn(Seq<char>) -> bool) -> Option<bool>
    decreases rv.len(),
{
    if rv.len() == 0 {
        None
    } else if matches(rv.last().1) {
        Some(!negated(rv.last().1))
    } else {
        path_status(rv.drop_last(), matches)
    }
}

/// The first `n` rules without those that repeat an earlier rule to no effect.
pub open spec fn without_duplicates_upto(rv: Seq<(nat, Seq<char>)>, n: int) -> Seq<(nat, Seq<char>)>
    decreases n,
{
    if n <= 0 {
        seq![]
    } else {
        let prev = without_duplicates_upto(rv, n - 1);
        if repeated_rule(rv, n - 1) is Some {
            prev
        } else {
            prev.push(rv[n - 1])
        }
    }
}

/// The rules without those that repeat an earlier rule to no effect.
pub open spec fn without_duplicates(rv: Seq<(nat, Seq<char>)>) -> Seq<(nat, Seq<char>)> {
    without_duplicates_upto(rv, rv.len() as int)
}

/// Between a rule and the earlier rule it repeats, every rule decides as the
/// repeat does, so the first `k` rules already decide as the repeat would.
proof fn lemma_status_after_partner(rv: Seq<(nat, Seq<char>)>, matches: spec_fn(Seq<char>) -> bool, j: int, i: int, k: int)
    requires
        0 <= j < k <= i < rv.len(),
        rv[j].1 == rv[i].1,
        matches(rv[i].1),
        forall|t: int| j < t < i ==> negated(#[trigger] rv[t].1) == negated(rv[i].1),
    ensures
        path_status(rv.take(k), matches) == Some(!negated(rv[i].1)),
    decreases k,
{
    let t = rv.take(k);
    assert(t.last() == rv[k - 1]);
    assert(t.drop_last() =~= rv.take(k - 1));
    if k - 1 > j && !matches(rv[k - 1].1) {
        lemma_status_after_partner(rv, matches, j, i, k - 1);
    }
}

proof fn lemma_duplicates_no_effect_upto(rv: Seq<(nat, Seq<char>)>, matches: spec_fn(Seq<char>) -> bool, n: int)
    requires
        0 <= n <= rv.len(),
    ensures
        path_status(without_duplicates_upto(rv, n), matches) == path_status(rv.take(n), matches),
    decreases n,
{
    if n > 0 {
        lemma_duplicates_no_effect_upto(rv, matches, n - 1);
        let t = rv.take(n);
        assert(t.last() == rv[n - 1]);
        assert(t.drop_last() =~= rv.take(n - 1));
        match repeated_rule(rv, n - 1) {
            Some(j) => {
                lemma_last_match(rv, rv[n - 1].1, n - 1);
                if matches(rv[n - 1].1) {
                    lemma_status_after_partner(rv, matches, j, n - 1, n - 1);
                }
            },
            None => {
                let w = without_duplicates_upto(rv, n);
                assert(w.last() == rv[n - 1]);
                assert(w.drop_last() =~= without_duplicates_upto(rv, n - 1));
            },
        }
    }
}

/// A rule that repeats an earlier one to no effect indeed has none: for
/// every path, the rules without such repeats decide as all the rules do.
pub proof fn law_duplicates_have_no_effect(rv: Seq<(nat, Seq<char>)>, matches: spec_fn(Seq<char>) -> bool)
    ensures
        path_status(without_duplicates(rv), matches) == path_status(rv, matches),
{
    lemma_duplicates_no_effect_upto(rv, matches, rv.len() as int);
    assert(rv.take(rv.len() as int) =~= rv);
}

proof fn lemma_unique_upto(rv: Seq<(nat, Seq<char>)>, n: int)
    requires
        0 <= n <= rv.len(),
        forall|a: int, b: int| 0 <= a < b < rv.len() ==> (#[trigger] rv[a]).0 < (#[trigger] rv[b]).0,
    ensures
        unique_of(rv.take(n), duplicates_of(rv)) == without_duplicates_upto(rv, n),
    decreases n,
{
    if n > 0 {
        lemma_unique_upto(rv, n - 1);
        lemma_duplicates_upto(rv, rv.len() as int);
        lemma_last_match(rv, rv[n - 1].1, n - 1);
        let t = rv.take(n);
        let d = duplicates_of(rv);
        assert(t.last() == rv[n - 1]);
        assert(t.drop_last() =~= rv.take(n - 1));
        match repeated_rule(rv, n - 1) {
            Some(j) => {
                assert(d.contains((rv[n - 1], rv[j])));
                let i = choose|i: int| 0 <= i < d.len() && d[i] == (rv[n - 1], rv[j]);
                assert(d[i].0.0 == rv[n - 1].0);
                assert(reported_duplicate(d, t.last().0));
            },
            None => {
                if reported_duplicate(d, rv[n - 1].0) {
                    let i = choose|i: int| 0 <= i < d.len() && (#[trigger] d[i]).0.0 == rv[n - 1].0;
                    let (a, b) = choose|a: int, b: int|
                        0 <= b < a < rv.len() && #[trigger] d[i] == (rv[a], rv[b]) && rv[b].1 == rv[a].1
                            && forall|k: int| b < k < a ==> (#[trigger] rv[k]).1 != rv[a].1 && negated(rv[k].1) == negated(rv[a].1);
                    assert(a == n - 1);
                    lemma_last_match(rv, rv[a].1, a);
                    match last_match(rv, rv[a].1, a) {
                        Some(j) => {
                            if j < b {
                                assert(rv[b].1 != rv[a].1);
                            } else if j > b {
                                assert(rv[j].1 != rv[a].1);
                            }
                        },
                        None => {
                            assert(rv[b].1 != rv[a].1);
                        },
                    }
                    assert(false);
                }
            },
        }
    }
}

/// Leaving out the rules that `find_duplicates` reports leaves the rules
/// that repeat an earlier one to no effect out, and only those, when each
/// rule has its own line number.
pub proof fn law_reported_are_the_repeats(rv: Seq<(nat, Seq<char>)>)
    requires
        forall|a: int, b: int| 0 <= a < b < rv.len() ==> (#[trigger] rv[a]).0 < (#[trigger] rv[b]).0,
    ensures
        unique_of(rv, duplicates_of(rv)) == without_duplicates(rv),
{
    lemma_unique_upto(rv, rv.len() as int);
    assert(rv.take(rv.len() as int) =~= rv);
}

/// A reported duplicate has no effect: for every path, the rules of a
/// `.gitignore` text without its reported duplicates decide as all its
/// rules do.
pub proof fn law_reported_duplicates_have_no_effect(contents: Seq<char>, matches: spec_fn(Seq<char>) -> bool)
    ensures
        path_status(unique_of(parsed_rules(contents), duplicates_of(parsed_rules(contents))), matches)
            == path_status(parsed_rules(contents), matches),
{
    let rv = parsed_rules(contents);
    law_parsed_rules(contents);
    law_reported_are_the_repeats(rv);
    law_duplicates_have_no_effect(rv, matches);
}

/// The rules with their line numbers moved down by `n`.
pub open spec fn shifted(rv: Seq<(nat, Seq<char>)>, n: nat) -> Seq<(nat, Seq<char>)> {
    rv.map_values(|r: (nat, Seq<char>)| (r.0 + n, r.1))
}

proof fn lemma_rules_of_lines_append(pre: Seq<Seq<char>>, ls: Seq<Seq<char>>)
    ensures
        rules_of_lines(pre + ls) == rules_of_lines(pre) + shifted(rules_of_lines(ls), pre.len()),
    decreases ls.len(),
{
    if ls.len() == 0 {
        assert(pre + ls =~= pre);
        assert(rules_of_lines(pre) + shifted(rules_of_lines(ls), pre.len()) =~= rules_of_lines(pre));
    } else {
        lemma_rules_of_lines_append(pre, ls.drop_last());
        assert((pre + ls).drop_last() =~= pre + ls.drop_last());
        assert((pre + ls).last() == ls.last());
        let a = rules_of_lines(pre);
        let b = rules_of_lines(ls.drop_last());
        assert(shifted(b.push((ls.len(), normalized(ls.last()))), pre.len()) =~= shifted(b, pre.len()).push(
            ((pre + ls).len(), normalized(ls.last())),
        ));
        assert(rules_of_lines(pre + ls) =~= a + shifted(rules_of_lines(ls), pre.len()));
    }
}

/// Text put before a `.gitignore` (ending with a line feed) keeps its own
/// rules first and moves the rules after it down by its number of lines;
/// so blank lines and comments put first only shift line numbers.
pub proof fn law_text_before_shifts_rules(before: Seq<char>, contents: Seq<char>)
    requires
        before.len() == 0 || before.last() == '\n',
    ensures
        parsed_rules(before + contents) == parsed_rules(before) + shifted(parsed_rules(contents), lines(before).len()),
{
    lemma_lines_append(before, contents);
    lemma_rules_of_lines_append(lines(before), lines(contents));
}

} // verus!
