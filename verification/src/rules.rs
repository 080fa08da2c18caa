//! The rules of a `.gitignore` file: its non-blank, non-comment lines, and
//! which of them repeat an earlier rule to no effect.

use vstd::prelude::*;
use crate::text::{
    chars_of, lines, seqs_of, split_lines, string_of, sub_chars, trim_end, trim_end_len,
};

verus! {

// ---------------------------------------------------------------------------
// Models
// ---------------------------------------------------------------------------

/// Does the trailing whitespace of `line` start with a space right after a
/// backslash? `t` is `line` without its trailing whitespace.
pub open spec fn keeps_escaped_space(line: Seq<char>, t: Seq<char>) -> bool {
    t.len() < line.len() && line[t.len() as int] == ' ' && t.len() > 0 && t.last() == '\\'
}

/// A line as git reads it: trailing whitespace is dropped, except that a
/// space escaped with a backslash is kept.
pub open spec fn normalized(line: Seq<char>) -> Seq<char> {
    let t = trim_end(line);
    if keeps_escaped_space(line, t) {
        t.push(' ')
    } else {
        t
    }
}

/// A normalized line is a rule when it is neither blank nor a comment.
pub open spec fn is_rule_text(p: Seq<char>) -> bool {
    p.len() > 0 && p[0] != '#'
}

/// A pattern is negated when it starts with `!`.
pub open spec fn negated(p: Seq<char>) -> bool {
    p.len() > 0 && p[0] == '!'
}

/// The rules of a sequence of lines, each with its line number (counted from 1).
pub open spec fn rules_of_lines(ls: Seq<Seq<char>>) -> Seq<(nat, Seq<char>)>
    decreases ls.len(),
{
    if ls.len() == 0 {
        seq![]
    } else {
        let prev = rules_of_lines(ls.drop_last());
        let p = normalized(ls.last());
        if is_rule_text(p) {
            prev.push((ls.len(), p))
        } else {
            prev
        }
    }
}

/// The rules of a `.gitignore` text.
pub open spec fn parsed_rules(contents: Seq<char>) -> Seq<(nat, Seq<char>)> {
    rules_of_lines(lines(contents))
}

/// The set of patterns of a `.gitignore` text.
pub open spec fn pattern_set(contents: Seq<char>) -> Set<Seq<char>> {
    parsed_rules(contents).map_values(|r: (nat, Seq<char>)| r.1).to_set()
}

/// The models of a sequence of rules.
pub open spec fn rule_views(rs: Seq<Rule>) -> Seq<(nat, Seq<char>)> {
    rs.map_values(|r: Rule| r@)
}

/// The position of the last rule before position `j` whose pattern is `p`.
pub open spec fn last_match(rv: Seq<(nat, Seq<char>)>, p: Seq<char>, j: int) -> Option<int>
    decreases j,
{
    if j <= 0 {
        None
    } else if rv[j - 1].1 == p {
        Some(j - 1)
    } else {
        last_match(rv, p, j - 1)
    }
}

/// The earlier rule that the rule at position `i` repeats to no effect: the
/// nearest earlier rule with the same pattern, provided that no rule between
/// them is negated differently from it.
pub open spec fn repeated_rule(rv: Seq<(nat, Seq<char>)>, i: int) -> Option<int> {
    match last_match(rv, rv[i].1, i) {
        Some(j) => if forall|k: int| j < k < i ==> negated(#[trigger] rv[k].1) == negated(rv[i].1) {
            Some(j)
        } else {
            None
        },
        None => None,
    }
}

/// The (duplicate, earlier) pairs among the first `n` rules, in order.
pub open spec fn duplicates_upto(rv: Seq<(nat, Seq<char>)>, n: int) -> Seq<
    ((nat, Seq<char>), (nat, Seq<char>)),
>
    decreases n,
{
    if n <= 0 {
        seq![]
    } else {
        let prev = duplicates_upto(rv, n - 1);
        match repeated_rule(rv, n - 1) {
            Some(j) => prev.push((rv[n - 1], rv[j])),
            None => prev,
        }
    }
}

/// The (duplicate, earlier) pairs of a sequence of rules.
pub open spec fn duplicates_of(rv: Seq<(nat, Seq<char>)>) -> Seq<
    ((nat, Seq<char>), (nat, Seq<char>)),
> {
    duplicates_upto(rv, rv.len() as int)
}

// ---------------------------------------------------------------------------
// Rule
// ---------------------------------------------------------------------------

/// A non-blank, non-comment line of a `.gitignore` file.
#[derive(Debug, PartialEq)]
pub struct Rule {
    /// The line number, counted from 1.
    pub line: usize,
    /// The normalized text of the line.
    pub pattern: String,
}

impl View for Rule {
    type V = (nat, Seq<char>);

    open spec fn view(&self) -> (nat, Seq<char>) {
        (self.line as nat, self.pattern@)
    }
}

impl Rule {
    /// Whether the pattern re-includes what earlier patterns exclude (starts with `!`).
    pub fn is_negated(&self) -> (r: bool)
        ensures
            r == negated(self.pattern@),
    {
        let p = self.pattern.as_str();
        !p.is_empty() && p.get_char(0) == '!'
    }

    /// An equal copy of this rule.
    pub fn duplicate(&self) -> (r: Rule)
        ensures
            r == *self,
    {
        Rule { line: self.line, pattern: self.pattern.clone() }
    }
}

// ---------------------------------------------------------------------------
// Executable functions
// ---------------------------------------------------------------------------

/// `line` normalized, on characters.
pub fn normalize_chars(cs: &[char]) -> (v: Vec<char>)
    ensures
        v@ == normalized(cs@),
{
    let n: usize = cs.len();
    let e: usize = trim_end_len(cs);
    if e < n && cs[e] == ' ' && e > 0 && cs[e - 1] == '\\' {
        assert(cs@.subrange(0, e + 1) =~= cs@.take(e as int).push(' '));
        sub_chars(cs, 0, e + 1)
    } else {
        assert(cs@.subrange(0, e as int) =~= cs@.take(e as int));
        sub_chars(cs, 0, e)
    }
}

/// Trailing whitespace is ignored, as git does, unless a backslash escapes a
/// space: that space is kept.
pub fn normalize(line: &str) -> (r: String)
    ensures
        r@ == normalized(line@),
{
    let cs = chars_of(line);
    let v = normalize_chars(cs.as_slice());
    string_of(v.as_slice())
}

/// The rules of a `.gitignore` text, each with its line number.
pub fn parse_rules(contents: &str) -> (rules: Vec<Rule>)
    ensures
        rule_views(rules@) == parsed_rules(contents@),
{
    let cs = chars_of(contents);
    let ls = split_lines(cs.as_slice());
    let ghost all = seqs_of(ls@);
    let mut out: Vec<Rule> = Vec::new();
    let mut i: usize = 0;
    assert(all.take(0) =~= Seq::<Seq<char>>::empty());
    assert(rule_views(out@) =~= rules_of_lines(all.take(0)));
    while i < ls.len()
        invariant
            i <= ls@.len(),
            all == seqs_of(ls@),
            all == lines(contents@),
            rule_views(out@) == rules_of_lines(all.take(i as int)),
        decreases ls@.len() - i,
    {
        let p = normalize_chars(ls[i].as_slice());
        assert(all.take(i + 1).drop_last() =~= all.take(i as int));
        assert(all.take(i + 1).last() == ls@[i as int]@);
        if p.len() > 0 && p[0] != '#' {
            let rule = Rule { line: i + 1, pattern: string_of(p.as_slice()) };
            let ghost before = out@;
            out.push(rule);
            assert(rule_views(out@) =~= rule_views(before).push(rule@));
        }
        i = i + 1;
    }
    assert(all.take(ls@.len() as int) =~= all);
    out
}

/// The position of the nearest rule before position `i` whose pattern equals
/// that of the rule at `i`.
fn find_last_match(rules: &[Rule], i: usize) -> (r: Option<usize>)
    requires
        i < rules@.len(),
    ensures
        match r {
            Some(j) => j < i && last_match(rule_views(rules@), rules@[i as int].pattern@, i as int)
                == Some(j as int),
            None => last_match(rule_views(rules@), rules@[i as int].pattern@, i as int) is None,
        },
{
    let ghost rv = rule_views(rules@);
    let ghost p = rules@[i as int].pattern@;
    let mut j: usize = i;
    while j > 0
        invariant
            j <= i < rules@.len(),
            rv == rule_views(rules@),
            p == rules@[i as int].pattern@,
            last_match(rv, p, i as int) == last_match(rv, p, j as int),
        decreases j,
    {
        if rules[j - 1].pattern == rules[i].pattern {
            assert(rv[j - 1].1 == p);
            return Some(j - 1);
        }
        j = j - 1;
    }
    None
}

/// Finds patterns that repeat an earlier line, as (duplicate, earlier) pairs.
/// A repeat that follows an opposite pattern (e.g. `*.log`, `!keep.log`, `*.log`)
/// still changes the outcome for some paths, so it is not reported.
pub fn find_duplicates(rules: &[Rule]) -> (dups: Vec<(Rule, Rule)>)
    ensures
        dups@.map_values(|d: (Rule, Rule)| (d.0@, d.1@)) == duplicates_of(rule_views(rules@)),
{
    let ghost rv = rule_views(rules@);
    let mut dups: Vec<(Rule, Rule)> = Vec::new();
    let mut i: usize = 0;
    while i < rules.len()
        invariant
            i <= rules@.len(),
            rv == rule_views(rules@),
            dups@.map_values(|d: (Rule, Rule)| (d.0@, d.1@)) == duplicates_upto(rv, i as int),
        decreases rules@.len() - i,
    {
        let ghost before = dups@;
        match find_last_match(rules, i) {
            Some(j) => {
                let neg = rules[i].is_negated();
                let mut k: usize = j + 1;
                let mut same = true;
                while k < i
                    invariant
                        j < k <= i < rules@.len(),
                        rv == rule_views(rules@),
                        neg == negated(rv[i as int].1),
                        same == forall|m: int| j < m < k ==> negated(#[trigger] rv[m].1) == negated(
                            rv[i as int].1,
                        ),
                    decreases i - k,
                {
                    let ghost old_same = same;
                    if rules[k].is_negated() != neg {
                        same = false;
                    }
                    assert(same == (old_same && negated(rv[k as int].1) == negated(rv[i as int].1)));
                    proof {
                        if same {
                            assert forall|m: int| j < m < k + 1 implies negated(#[trigger] rv[m].1)
                                == negated(rv[i as int].1) by {
                                if m < k {
                                    assert(old_same);
                                }
                            }
                        } else if old_same {
                            assert(negated(rv[k as int].1) != negated(rv[i as int].1));
                        } else {
                            let m0 = choose|m: int|
                                j < m < k && negated(#[trigger] rv[m].1) != negated(rv[i as int].1);
                            assert(j < m0 < k + 1 && negated(rv[m0].1) != negated(rv[i as int].1));
                        }
                    }
                    k = k + 1;
                }
                if same {
                    dups.push((rules[i].duplicate(), rules[j].duplicate()));
                    assert(dups@.map_values(|d: (Rule, Rule)| (d.0@, d.1@)) =~= before.map_values(
                        |d: (Rule, Rule)| (d.0@, d.1@),
                    ).push((rv[i as int], rv[j as int])));
                } else {
                    assert(!(forall|m: int|
                        j < m < i ==> negated(#[trigger] rv[m].1) == negated(rv[i as int].1)));
                }
            },
            None => {},
        }
        i = i + 1;
    }
    dups
}

} // verus!
