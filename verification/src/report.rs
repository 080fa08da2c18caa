//! The report of checking a `.gitignore`: duplicate patterns and patterns
//! that match nothing.

use vstd::prelude::*;
use crate::rules::{Rule, rule_views};
use crate::text::{decimal, decimal_chars, push_all, push_str, string_of};

verus! {

/// The model of a (duplicate, earlier) pair of rules.
pub type PairView = ((nat, Seq<char>), (nat, Seq<char>));

/// The models of (duplicate, earlier) pairs of rules.
pub open spec fn pair_views(ds: Seq<(Rule, Rule)>) -> Seq<PairView> {
    ds.map_values(|d: (Rule, Rule)| (d.0@, d.1@))
}

// ---------------------------------------------------------------------------
// Models
// ---------------------------------------------------------------------------

/// Is the rule on `line` reported as a duplicate?
pub open spec fn reported_duplicate(dups: Seq<PairView>, line: nat) -> bool {
    exists|i: int| 0 <= i < dups.len() && (#[trigger] dups[i]).0.0 == line
}

/// The rules that are not reported as duplicates, in order.
pub open spec fn unique_of(rv: Seq<(nat, Seq<char>)>, dups: Seq<PairView>) -> Seq<(nat, Seq<char>)>
    decreases rv.len(),
{
    if rv.len() == 0 {
        seq![]
    } else {
        let prev = unique_of(rv.drop_last(), dups);
        if reported_duplicate(dups, rv.last().0) {
            prev
        } else {
            prev.push(rv.last())
        }
    }
}

/// One report line per duplicate.
pub open spec fn duplicate_lines(dups: Seq<PairView>) -> Seq<char>
    decreases dups.len(),
{
    if dups.len() == 0 {
        seq![]
    } else {
        let d = dups.last();
        duplicate_lines(dups.drop_last()) + "  line "@ + decimal(d.0.0) + ": "@ + d.0.1 + " (same as line "@
            + decimal(d.1.0) + ")\n"@
    }
}

/// One report line per pattern that matches nothing.
pub open spec fn unmatched_lines(rules: Seq<(nat, Seq<char>)>) -> Seq<char>
    decreases rules.len(),
{
    if rules.len() == 0 {
        seq![]
    } else {
        let r = rules.last();
        unmatched_lines(rules.drop_last()) + "  line "@ + decimal(r.0) + ": "@ + r.1 + "\n"@
    }
}

/// The text of the report on `rule_count` rules.
pub open spec fn report_text(rule_count: nat, dups: Seq<PairView>, unmatched: Seq<(nat, Seq<char>)>) -> Seq<char> {
    if dups.len() == 0 && unmatched.len() == 0 {
        "No problems found ("@ + decimal(rule_count) + " patterns checked)\n"@
    } else {
        (if dups.len() > 0 { "Duplicate patterns:\n"@ + duplicate_lines(dups) + "\n"@ } else { seq![] })
            + (if unmatched.len() > 0 {
            "Patterns that match nothing:\n"@ + unmatched_lines(unmatched) + "\n"@
        } else {
            seq![]
        }) + decimal(dups.len()) + " duplicate(s), "@ + decimal(unmatched.len()) + " unmatched pattern(s)\n"@
    }
}

// ---------------------------------------------------------------------------
// Executable functions
// ---------------------------------------------------------------------------

/// The rules whose line is not that of a reported duplicate.
pub fn unique_rules(rules: &[Rule], duplicates: &[(Rule, Rule)]) -> (r: Vec<Rule>)
    ensures
        rule_views(r@) == unique_of(rule_views(rules@), pair_views(duplicates@)),
{
    let ghost rv = rule_views(rules@);
    let ghost dv = pair_views(duplicates@);
    let mut out: Vec<Rule> = Vec::new();
    let mut i: usize = 0;
    assert(rv.take(0) =~= Seq::<(nat, Seq<char>)>::empty());
    assert(rule_views(out@) =~= Seq::<(nat, Seq<char>)>::empty());
    while i < rules.len()
        invariant
            i <= rules@.len(),
            rv == rule_views(rules@),
            dv == pair_views(duplicates@),
            rule_views(out@) == unique_of(rv.take(i as int), dv),
        decreases rules@.len() - i,
    {
        let line: usize = rules[i].line;
        let mut found = false;
        let mut j: usize = 0;
        while j < duplicates.len()
            invariant
                j <= duplicates@.len(),
                dv == pair_views(duplicates@),
                line == rules@[i as int].line,
                found == exists|k: int| 0 <= k < j && (#[trigger] dv[k]).0.0 == line as nat,
            decreases duplicates@.len() - j,
        {
            assert(dv[j as int].0.0 == duplicates@[j as int].0.line as nat);
            if duplicates[j].0.line == line {
                found = true;
            }
            j = j + 1;
        }
        assert(rv.take(i + 1).drop_last() =~= rv.take(i as int));
        assert(rv.take(i + 1).last() == rv[i as int]);
        if !found {
            let ghost before = out@;
            out.push(rules[i].duplicate());
            assert(rule_views(out@) =~= rule_views(before).push(rv[i as int]));
        }
        i = i + 1;
    }
    assert(rv.take(rules@.len() as int) =~= rv);
    out
}

/// The outcome of checking a `.gitignore`.
pub struct VerifyReport {
    /// What to print.
    pub text: String,
    /// Whether no problem was found.
    pub clean: bool,
}

/// Reports the duplicates and unmatched patterns among `rule_count` rules.
pub fn verify_report(rule_count: usize, duplicates: &[(Rule, Rule)], unmatched: &[Rule]) -> (r: VerifyReport)
    ensures
        r.text@ == report_text(rule_count as nat, pair_views(duplicates@), rule_views(unmatched@)),
        r.clean == (duplicates@.len() == 0 && unmatched@.len() == 0),
{
    let ghost dv = pair_views(duplicates@);
    let ghost uv = rule_views(unmatched@);
    let mut v: Vec<char> = Vec::new();
    if duplicates.len() == 0 && unmatched.len() == 0 {
        push_str(&mut v, "No problems found (");
        let n = decimal_chars(rule_count);
        push_all(&mut v, n.as_slice());
        push_str(&mut v, " patterns checked)\n");
        return VerifyReport { text: string_of(v.as_slice()), clean: true };
    }
    if duplicates.len() > 0 {
        push_str(&mut v, "Duplicate patterns:\n");
        let ghost h = v@;
        let mut i: usize = 0;
        assert(dv.take(0) =~= Seq::<PairView>::empty());
        assert(v@ =~= h + duplicate_lines(dv.take(0)));
        while i < duplicates.len()
            invariant
                i <= duplicates@.len(),
                dv == pair_views(duplicates@),
                v@ == h + duplicate_lines(dv.take(i as int)),
            decreases duplicates@.len() - i,
        {
            assert(dv.take(i + 1).drop_last() =~= dv.take(i as int));
            assert(dv.take(i + 1).last() == dv[i as int]);
            push_str(&mut v, "  line ");
            let a = decimal_chars(duplicates[i].0.line);
            push_all(&mut v, a.as_slice());
            push_str(&mut v, ": ");
            push_str(&mut v, duplicates[i].0.pattern.as_str());
            push_str(&mut v, " (same as line ");
            let b = decimal_chars(duplicates[i].1.line);
            push_all(&mut v, b.as_slice());
            push_str(&mut v, ")\n");
            assert(v@ =~= h + duplicate_lines(dv.take(i + 1)));
            i = i + 1;
        }
        assert(dv.take(duplicates@.len() as int) =~= dv);
        push_str(&mut v, "\n");
    }
    let ghost after_dups = v@;
    if unmatched.len() > 0 {
        push_str(&mut v, "Patterns that match nothing:\n");
        let ghost h = v@;
        let mut i: usize = 0;
        assert(uv.take(0) =~= Seq::<(nat, Seq<char>)>::empty());
        assert(v@ =~= h + unmatched_lines(uv.take(0)));
        while i < unmatched.len()
            invariant
                i <= unmatched@.len(),
                uv == rule_views(unmatched@),
                v@ == h + unmatched_lines(uv.take(i as int)),
            decreases unmatched@.len() - i,
        {
            assert(uv.take(i + 1).drop_last() =~= uv.take(i as int));
            assert(uv.take(i + 1).last() == uv[i as int]);
            push_str(&mut v, "  line ");
            let a = decimal_chars(unmatched[i].line);
            push_all(&mut v, a.as_slice());
            push_str(&mut v, ": ");
            push_str(&mut v, unmatched[i].pattern.as_str());
            push_str(&mut v, "\n");
            assert(v@ =~= h + unmatched_lines(uv.take(i + 1)));
            i = i + 1;
        }
        assert(uv.take(unmatched@.len() as int) =~= uv);
        push_str(&mut v, "\n");
    }
    let c1 = decimal_chars(duplicates.len());
    push_all(&mut v, c1.as_slice());
    push_str(&mut v, " duplicate(s), ");
    let c2 = decimal_chars(unmatched.len());
    push_all(&mut v, c2.as_slice());
    push_str(&mut v, " unmatched pattern(s)\n");
    VerifyReport { text: string_of(v.as_slice()), clean: false }
}

} // verus!
