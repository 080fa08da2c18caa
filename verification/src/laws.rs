//! Properties of the library that span several functions or every input.

use vstd::prelude::*;
use crate::merge::{
    MergeModel, flush, merge_block, merge_input, merge_model, merge_run, merge_start, merge_step, block_header,
};
use crate::rules::{
    duplicates_of, duplicates_upto, is_rule_text, keeps_escaped_space, last_match, negated, normalized,
    parsed_rules, pattern_set, repeated_rule, rules_of_lines,
};
use crate::text::{
    ends_with, is_ws, lemma_line_present, lemma_lines_append, lemma_lines_newline_appended,
    lemma_prefix_len, lemma_trim_end, lemma_trim_end_idempotent, lemma_trim_start, lines, strip_cr,
    terminated, trim, trim_end, trim_start,
};
use crate::update::{is_blank, merged_contents, pattern_append_text, pattern_listed, planned_contents, with_final_newline};

verus! {

// ---------------------------------------------------------------------------
// Lemmas on lines and rules
// ---------------------------------------------------------------------------

/// Does `s` hold no line feed?
pub open spec fn no_newline(s: Seq<char>) -> bool {
    forall|j: int| 0 <= j < s.len() ==> s[j] != '\n'
}

/// No line holds a line feed.
pub proof fn lemma_lines_no_newline(s: Seq<char>)
    ensures
        forall|k: int| 0 <= k < lines(s).len() ==> no_newline(#[trigger] lines(s)[k]),
    decreases s.len(),
{
    if s.len() > 0 {
        lemma_prefix_len(s, '\n');
        let k = crate::text::prefix_len(s, '\n');
        if k < s.len() {
            lemma_lines_no_newline(s.skip(k as int + 1));
            let first = strip_cr(s.take(k as int));
            assert(no_newline(first));
            assert forall|i: int| 0 <= i < lines(s).len() implies no_newline(#[trigger] lines(s)[i]) by {
                if i > 0 {
                    assert(lines(s)[i] == lines(s.skip(k as int + 1))[i - 1]);
                }
            }
        }
    }
}

/// A pattern that a line normalizes to holds no line feed, is its own
/// normal form, and does not end with a carriage return.
pub proof fn lemma_normalized_pattern(l: Seq<char>)
    requires
        no_newline(l),
        is_rule_text(normalized(l)),
    ensures
        no_newline(normalized(l)),
        normalized(normalized(l)) == normalized(l),
        normalized(l).last() != '\r',
{
    let n = normalized(l);
    let t = trim_end(l);
    lemma_trim_end(l);
    lemma_normalized_idempotent(l);
    if keeps_escaped_space(l, t) {
        assert forall|j: int| 0 <= j < n.len() implies n[j] != '\n' by {
            if j < t.len() {
                assert(n[j] == l[j]);
            } else {
                assert(n[j] == ' ');
            }
        }
    } else {
        assert forall|j: int| 0 <= j < n.len() implies n[j] != '\n' by {
            assert(n[j] == l[j]);
        }
    }
}

/// Normalizing a line that ends with a carriage return is normalizing it
/// without that carriage return.
pub proof fn lemma_normalized_strip_cr(l: Seq<char>)
    ensures
        normalized(strip_cr(l)) == normalized(l),
{
    if l.len() > 0 && l.last() == '\r' {
        let q = l.drop_last();
        assert(trim_end(l) == trim_end(q));
        let t = trim_end(q);
        lemma_trim_end(q);
        if t.len() < q.len() {
            assert(l[t.len() as int] == q[t.len() as int]);
        } else {
            assert(l[t.len() as int] == '\r');
        }
    }
}

/// The patterns of a sequence of lines.
pub open spec fn patterns_of_lines(ls: Seq<Seq<char>>) -> Seq<Seq<char>> {
    rules_of_lines(ls).map_values(|r: (nat, Seq<char>)| r.1)
}

/// A pattern belongs to the rules of some lines exactly when one of the lines
/// normalizes to it.
pub proof fn lemma_patterns_of_lines(ls: Seq<Seq<char>>, p: Seq<char>)
    ensures
        patterns_of_lines(ls).contains(p) <==> exists|k: int|
            0 <= k < ls.len() && is_rule_text(normalized(#[trigger] ls[k])) && normalized(ls[k]) == p,
    decreases ls.len(),
{
    if ls.len() > 0 {
        let prev = ls.drop_last();
        lemma_patterns_of_lines(prev, p);
        let pp = patterns_of_lines(prev);
        let pl = patterns_of_lines(ls);
        let last = normalized(ls.last());
        if is_rule_text(last) {
            assert(pl =~= pp.push(last));
        } else {
            assert(pl =~= pp);
        }
        if pl.contains(p) {
            let i = choose|i: int| 0 <= i < pl.len() && pl[i] == p;
            if i < pp.len() {
                assert(pp[i] == p);
                let k = choose|k: int|
                    0 <= k < prev.len() && is_rule_text(normalized(#[trigger] prev[k])) && normalized(prev[k])
                        == p;
                assert(ls[k] == prev[k]);
            } else {
                assert(ls[ls.len() - 1] == ls.last());
            }
        }
        if exists|k: int| 0 <= k < ls.len() && is_rule_text(normalized(#[trigger] ls[k])) && normalized(ls[k]) == p {
            let k = choose|k: int|
                0 <= k < ls.len() && is_rule_text(normalized(#[trigger] ls[k])) && normalized(ls[k]) == p;
            if k < prev.len() {
                assert(prev[k] == ls[k]);
                assert(pp.contains(p));
                let i = choose|i: int| 0 <= i < pp.len() && pp[i] == p;
                assert(pl[i] == p);
            } else {
                assert(pl[pp.len() as int] == p);
            }
        }
    }
}

/// A pattern of a text is a line of it that normalizes to the pattern.
pub proof fn lemma_pattern_set(s: Seq<char>, p: Seq<char>)
    ensures
        pattern_set(s).contains(p) <==> exists|k: int|
            0 <= k < lines(s).len() && is_rule_text(normalized(#[trigger] lines(s)[k])) && normalized(
                lines(s)[k],
            ) == p,
{
    lemma_patterns_of_lines(lines(s), p);
    assert(pattern_set(s) =~= patterns_of_lines(lines(s)).to_set());
}

/// A text is blank only if all of its characters are whitespace.
pub proof fn lemma_blank_all_ws(s: Seq<char>)
    requires
        is_blank(s),
    ensures
        forall|j: int| 0 <= j < s.len() ==> is_ws(#[trigger] s[j]),
{
    let t = trim_end(s);
    lemma_trim_end(s);
    lemma_trim_start(t);
    assert forall|j: int| 0 <= j < s.len() implies is_ws(#[trigger] s[j]) by {
        if j < t.len() {
            assert(s[j] == t[j]);
        }
    }
}

/// Each of `parts` followed by a line feed, for two sequences of parts.
pub proof fn lemma_terminated_append(a: Seq<Seq<char>>, b: Seq<Seq<char>>)
    ensures
        terminated(a + b) == terminated(a) + terminated(b),
    decreases b.len(),
{
    if b.len() == 0 {
        assert(a + b =~= a);
        assert(terminated(a) + terminated(b) =~= terminated(a));
    } else {
        lemma_terminated_append(a, b.drop_last());
        assert((a + b).drop_last() =~= a + b.drop_last());
        assert((a + b).last() == b.last());
        assert(terminated(a + b) =~= terminated(a) + terminated(b));
    }
}

// ---------------------------------------------------------------------------
// Lemmas on merging
// ---------------------------------------------------------------------------

/// The invariant of a merge that started from the patterns `seen0`: every
/// pattern it added is a normalized pattern, and sits in a finished section
/// or in the section being read, which will then be kept.
pub open spec fn merge_inv(st: MergeModel, seen0: Set<Seq<char>>) -> bool {
    &&& seen0.subset_of(st.seen)
    &&& forall|x: Seq<char>| #[trigger] st.seen.contains(x) && !seen0.contains(x) ==> {
        &&& st.out.contains(x) || (st.kept && st.section.contains(x))
        &&& is_rule_text(x)
        &&& no_newline(x)
        &&& normalized(x) == x
        &&& x.last() != '\r'
    }
}

/// A merge keeps its invariant, and knows every pattern of the lines it read.
pub proof fn lemma_merge_run_inv(st0: MergeModel, seen0: Set<Seq<char>>, ls: Seq<Seq<char>>)
    requires
        merge_inv(st0, seen0),
        forall|k: int| 0 <= k < ls.len() ==> no_newline(#[trigger] ls[k]),
    ensures
        merge_inv(merge_run(st0, ls), seen0),
        forall|k: int| 0 <= k < ls.len() && is_rule_text(normalized(#[trigger] ls[k])) ==> merge_run(
            st0,
            ls,
        ).seen.contains(normalized(ls[k])),
    decreases ls.len(),
{
    if ls.len() > 0 {
        let prev = ls.drop_last();
        assert forall|k: int| 0 <= k < prev.len() implies no_newline(#[trigger] prev[k]) by {
            assert(prev[k] == ls[k]);
        }
        lemma_merge_run_inv(st0, seen0, prev);
        let st = merge_run(st0, prev);
        let l = ls.last();
        assert(no_newline(ls[ls.len() - 1]));
        let n = normalized(l);
        let st2 = merge_step(st, l);
        assert(st2 == merge_run(st0, ls));
        if n.len() > 0 && n[0] != '#' && !st.seen.contains(n) {
            lemma_normalized_pattern(l);
            assert forall|x: Seq<char>| #[trigger] st2.seen.contains(x) && !seen0.contains(x) implies {
                &&& st2.out.contains(x) || (st2.kept && st2.section.contains(x))
                &&& is_rule_text(x)
                &&& no_newline(x)
                &&& normalized(x) == x
                &&& x.last() != '\r'
            } by {
                if x == n {
                    assert(st2.section[st2.section.len() - 1] == x);
                } else {
                    assert(st.seen.contains(x));
                    if st.section.contains(x) {
                        let i = choose|i: int| 0 <= i < st.section.len() && st.section[i] == x;
                        assert(st2.section[i] == x);
                    }
                }
            }
        } else if n.len() == 0 {
            assert forall|x: Seq<char>| #[trigger] st2.seen.contains(x) && !seen0.contains(x) implies
                st2.out.contains(x) by {
                if st.kept {
                    if st.out.contains(x) {
                        let i = choose|i: int| 0 <= i < st.out.len() && st.out[i] == x;
                        if st.out.len() == 0 {
                        } else {
                            assert(st2.out[i] == x);
                        }
                    } else {
                        let i = choose|i: int| 0 <= i < st.section.len() && st.section[i] == x;
                        if st.out.len() == 0 {
                            assert(st2.out[i] == x);
                        } else {
                            assert(st2.out[st.out.len() + 1 + i] == x);
                        }
                    }
                }
            }
        } else if n[0] == '#' {
            assert forall|x: Seq<char>| #[trigger] st2.seen.contains(x) && !seen0.contains(x) implies (
            st2.out.contains(x) || (st2.kept && st2.section.contains(x))) by {
                if !st.out.contains(x) {
                    let i = choose|i: int| 0 <= i < st.section.len() && st.section[i] == x;
                    assert(st2.section[i] == x);
                }
            }
        }
        assert forall|k: int| 0 <= k < ls.len() && is_rule_text(normalized(#[trigger] ls[k])) implies st2.seen.contains(
            normalized(ls[k]),
        ) by {
            if k < prev.len() {
                assert(prev[k] == ls[k]);
            }
        }
    }
}

/// A merge whose lines hold no pattern it does not know yet adds nothing.
pub proof fn lemma_merge_run_adds_nothing(st0: MergeModel, ls: Seq<Seq<char>>)
    requires
        forall|k: int| 0 <= k < ls.len() && is_rule_text(normalized(#[trigger] ls[k])) ==> st0.seen.contains(
            normalized(ls[k]),
        ),
    ensures
        merge_run(st0, ls).added == st0.added,
        merge_run(st0, ls).seen == st0.seen,
    decreases ls.len(),
{
    if ls.len() > 0 {
        let prev = ls.drop_last();
        assert forall|k: int| 0 <= k < prev.len() && is_rule_text(normalized(#[trigger] prev[k])) implies st0.seen.contains(
            normalized(prev[k]),
        ) by {
            assert(prev[k] == ls[k]);
        }
        lemma_merge_run_adds_nothing(st0, prev);
        assert(ls.last() == ls[ls.len() - 1]);
    }
}

/// The lines that a merge reads hold no line feed.
pub proof fn lemma_merge_input_no_newline(template: Seq<char>)
    ensures
        forall|k: int| 0 <= k < merge_input(template).len() ==> no_newline(#[trigger] merge_input(template)[k]),
{
    lemma_lines_no_newline(template);
    assert forall|k: int| 0 <= k < merge_input(template).len() implies no_newline(
        #[trigger] merge_input(template)[k],
    ) by {
        if k < lines(template).len() {
            assert(merge_input(template)[k] == lines(template)[k]);
        }
    }
}

/// After a whole merge, every pattern it added sits in a finished section,
/// and every pattern of the template is known.
pub proof fn lemma_merge_model(existing: Seq<char>, template: Seq<char>)
    ensures
        merge_inv(merge_model(existing, template), pattern_set(existing)),
        !merge_model(existing, template).kept,
        forall|k: int| 0 <= k < lines(template).len() && is_rule_text(normalized(#[trigger] lines(template)[k]))
            ==> merge_model(existing, template).seen.contains(normalized(lines(template)[k])),
{
    let input = merge_input(template);
    let st0 = merge_start(existing);
    assert(merge_inv(st0, pattern_set(existing)));
    lemma_merge_input_no_newline(template);
    lemma_merge_run_inv(st0, pattern_set(existing), input);
    assert(input.last() == Seq::<char>::empty());
    assert(normalized(Seq::<char>::empty()) =~= Seq::<char>::empty());
    assert forall|k: int| 0 <= k < lines(template).len() && is_rule_text(normalized(#[trigger] lines(template)[k]))
        implies merge_model(existing, template).seen.contains(normalized(lines(template)[k])) by {
        assert(input[k] == lines(template)[k]);
    }
}

/// The lines among `s` that are patterns (neither blank nor comments), in order.
pub open spec fn patterns_in(s: Seq<Seq<char>>) -> Seq<Seq<char>>
    decreases s.len(),
{
    if s.len() == 0 {
        seq![]
    } else {
        let p = patterns_in(s.drop_last());
        if is_rule_text(s.last()) {
            p.push(s.last())
        } else {
            p
        }
    }
}

/// The patterns of two sequences of lines, one after the other.
pub proof fn lemma_patterns_in_append(a: Seq<Seq<char>>, b: Seq<Seq<char>>)
    ensures
        patterns_in(a + b) == patterns_in(a) + patterns_in(b),
    decreases b.len(),
{
    if b.len() == 0 {
        assert(a + b =~= a);
        assert(patterns_in(a) + patterns_in(b) =~= patterns_in(a));
    } else {
        lemma_patterns_in_append(a, b.drop_last());
        assert((a + b).drop_last() =~= a + b.drop_last());
        assert((a + b).last() == b.last());
        assert(patterns_in(a + b) =~= patterns_in(a) + patterns_in(b));
    }
}

/// The invariant of a merge that started from the patterns `seen0`, on the
/// patterns among the finished sections and the section being read: they are
/// known, none came from `seen0`, none appears twice, there are as many as
/// were added, and the section being read holds none unless it is kept.
pub open spec fn merge_fresh(st: MergeModel, seen0: Set<Seq<char>>) -> bool {
    let q = patterns_in(st.out + st.section);
    &&& seen0.subset_of(st.seen)
    &&& q.no_duplicates()
    &&& forall|i: int| 0 <= i < q.len() ==> st.seen.contains(#[trigger] q[i]) && !seen0.contains(q[i])
    &&& q.len() == st.added
    &&& !st.kept ==> patterns_in(st.section).len() == 0
}

/// One merge step keeps `merge_fresh`.
pub proof fn lemma_merge_step_fresh(st: MergeModel, seen0: Set<Seq<char>>, l: Seq<char>)
    requires
        merge_fresh(st, seen0),
    ensures
        merge_fresh(merge_step(st, l), seen0),
{
    let n = normalized(l);
    let st2 = merge_step(st, l);
    let q = patterns_in(st.out + st.section);
    lemma_patterns_in_append(st.out, st.section);
    if n.len() == 0 {
        assert(st2.out + st2.section =~= st2.out);
        if st.kept {
            if st.out.len() == 0 {
                assert(st2.out == st.section);
                assert(patterns_in(st.out) =~= Seq::<Seq<char>>::empty());
            } else {
                lemma_patterns_in_append(st.out.push(seq![]), st.section);
                assert(st.out.push(seq![]).drop_last() =~= st.out);
                assert(patterns_in(st.out.push(seq![])) == patterns_in(st.out));
            }
            assert(patterns_in(st2.out) =~= q);
        } else {
            assert(patterns_in(st2.out) =~= q);
        }
        assert(patterns_in(st2.section) =~= Seq::<Seq<char>>::empty());
    } else if n[0] == '#' {
        assert(st2.out + st2.section =~= (st.out + st.section).push(n));
        assert((st.out + st.section).push(n).drop_last() =~= st.out + st.section);
        assert(patterns_in(st2.section) == patterns_in(st.section)) by {
            assert(st.section.push(n).drop_last() =~= st.section);
        }
    } else if !st.seen.contains(n) {
        assert(st2.out + st2.section =~= (st.out + st.section).push(n));
        assert((st.out + st.section).push(n).drop_last() =~= st.out + st.section);
        let q2 = patterns_in(st2.out + st2.section);
        assert(q2 =~= q.push(n));
        assert forall|i: int, j: int| 0 <= i < q2.len() && 0 <= j < q2.len() && i != j implies q2[i] != q2[j] by {
            if i < q.len() && j < q.len() {
            } else if i < q.len() {
                assert(st.seen.contains(q[i]));
            } else if j < q.len() {
                assert(st.seen.contains(q[j]));
            }
        }
        assert forall|i: int| 0 <= i < q2.len() implies st2.seen.contains(#[trigger] q2[i]) && !seen0.contains(q2[i]) by {
            if i < q.len() {
                assert(q2[i] == q[i]);
            }
        }
    }
}

/// A whole merge run keeps `merge_fresh`.
pub proof fn lemma_merge_run_fresh(st0: MergeModel, seen0: Set<Seq<char>>, ls: Seq<Seq<char>>)
    requires
        merge_fresh(st0, seen0),
    ensures
        merge_fresh(merge_run(st0, ls), seen0),
    decreases ls.len(),
{
    if ls.len() > 0 {
        lemma_merge_run_fresh(st0, seen0, ls.drop_last());
        lemma_merge_step_fresh(merge_run(st0, ls.drop_last()), seen0, ls.last());
    }
}

// ---------------------------------------------------------------------------
// Laws
// ---------------------------------------------------------------------------

/// Merging a template into a file that already has all of its patterns, such
/// as the template itself, adds nothing.
pub proof fn law_merge_into_itself_adds_nothing(template: Seq<char>)
    ensures
        merge_model(template, template).added == 0,
{
    let input = merge_input(template);
    let st0 = merge_start(template);
    assert forall|k: int| 0 <= k < input.len() && is_rule_text(normalized(#[trigger] input[k])) implies st0.seen.contains(
        normalized(input[k]),
    ) by {
        if k < lines(template).len() {
            assert(input[k] == lines(template)[k]);
            lemma_pattern_set(template, normalized(input[k]));
        } else {
            assert(input[k] == Seq::<char>::empty());
            assert(normalized(Seq::<char>::empty()) =~= Seq::<char>::empty());
        }
    }
    lemma_merge_run_adds_nothing(st0, input);
}

/// A merge keeps the existing file: the merged contents start with it.
pub proof fn law_merge_keeps_existing(existing: Seq<char>, template: Seq<char>, presets: Seq<Seq<char>>)
    ensures
        merged_contents(existing, template, presets).take(existing.len() as int) == existing,
{
    let c = merged_contents(existing, template, presets);
    assert(c.take(existing.len() as int) =~= existing);
}

/// Every pattern of the existing file is still a pattern of the merged file.
pub proof fn law_merge_keeps_patterns(existing: Seq<char>, template: Seq<char>, presets: Seq<Seq<char>>, p: Seq<char>)
    requires
        pattern_set(existing).contains(p),
    ensures
        pattern_set(merged_contents(existing, template, presets)).contains(p),
{
    let e = with_final_newline(existing);
    let c = merged_contents(existing, template, presets);
    let rest = seq!['\n'] + merge_block(existing, template, presets);
    assert(c =~= e + rest);
    assert(e.len() > 0 && e.last() == '\n') by {
        if !ends_with(existing, seq!['\n']) {
            assert(e.last() == '\n');
        } else {
            assert(existing.last() == existing.skip(existing.len() - 1)[0]);
        }
    }
    lemma_lines_append(e, rest);
    lemma_pattern_set(existing, p);
    let k = choose|k: int|
        0 <= k < lines(existing).len() && is_rule_text(normalized(#[trigger] lines(existing)[k])) && normalized(
            lines(existing)[k],
        ) == p;
    assert(normalized(lines(e)[k]) == normalized(lines(existing)[k]) && k < lines(e).len()) by {
        if !ends_with(existing, seq!['\n']) {
            if existing.len() == 0 {
                assert(lines(existing) =~= Seq::<Seq<char>>::empty());
            } else {
                assert(existing.skip(existing.len() - 1) =~= seq![existing.last()]);
                lemma_lines_newline_appended(existing);
                lemma_normalized_strip_cr(lines(existing)[k]);
            }
        }
    }
    assert(lines(c)[k] == lines(e)[k]);
    lemma_pattern_set(c, p);
}

/// Every pattern that a merge adds is a pattern of the merged file.
pub proof fn law_merge_adds_patterns(existing: Seq<char>, template: Seq<char>, presets: Seq<Seq<char>>, p: Seq<char>)
    requires
        merge_model(existing, template).added > 0,
        merge_model(existing, template).seen.contains(p),
        !pattern_set(existing).contains(p),
    ensures
        pattern_set(merged_contents(existing, template, presets)).contains(p),
{
    let m = merge_model(existing, template);
    lemma_merge_model(existing, template);
    assert(m.seen.contains(p) && !pattern_set(existing).contains(p));
    assert(m.out.contains(p));
    let i = choose|i: int| 0 <= i < m.out.len() && m.out[i] == p;
    let all = seq![block_header(presets)] + m.out;
    assert(all[i + 1] == p);
    let a = all.take(i + 1);
    let b = all.skip(i + 2);
    assert(all =~= a + (seq![p] + b));
    lemma_terminated_append(a, seq![p] + b);
    lemma_terminated_append(seq![p], b);
    assert(seq![p].drop_last() =~= Seq::<Seq<char>>::empty());
    assert(terminated(Seq::<Seq<char>>::empty()) =~= Seq::<char>::empty());
    assert(seq![p].last() == p);
    assert(terminated(seq![p]) =~= p + seq!['\n']);
    let ta = terminated(a);
    assert(ta.len() > 0 && ta.last() == '\n');
    let e = with_final_newline(existing);
    let x = e.push('\n') + ta;
    let c = merged_contents(existing, template, presets);
    assert(merge_block(existing, template, presets) == terminated(all));
    assert(c =~= x + p + seq!['\n'] + terminated(b));
    lemma_line_present(x, p, terminated(b));
    assert(strip_cr(p) == p);
    let k = choose|k: int| 0 <= k < lines(c).len() && lines(c)[k] == p;
    lemma_pattern_set(c, p);
}

/// Running the same preset a second time changes nothing: creating
/// `.gitignore` from a template again, merging, leaves the file as the first
/// run wrote it.
pub proof fn law_second_run_changes_nothing(
    existing: Seq<char>,
    template: Seq<char>,
    presets: Seq<Seq<char>>,
    force: bool,
)
    ensures
        planned_contents(planned_contents(existing, template, presets, force), template, presets, false)
            == planned_contents(existing, template, presets, force),
{
    let c1 = planned_contents(existing, template, presets, force);
    if force || is_blank(existing) {
        law_merge_into_itself_adds_nothing(template);
    } else if merge_model(existing, template).added == 0 {
    } else {
        let m = merge_model(existing, template);
        lemma_merge_model(existing, template);
        assert forall|p: Seq<char>| #[trigger] m.seen.contains(p) implies pattern_set(c1).contains(p) by {
            if pattern_set(existing).contains(p) {
                law_merge_keeps_patterns(existing, template, presets, p);
            } else {
                law_merge_adds_patterns(existing, template, presets, p);
            }
        }
        let input = merge_input(template);
        let st0 = merge_start(c1);
        assert forall|k: int| 0 <= k < input.len() && is_rule_text(normalized(#[trigger] input[k])) implies st0.seen.contains(
            normalized(input[k]),
        ) by {
            if k < lines(template).len() {
                assert(input[k] == lines(template)[k]);
            } else {
                assert(input[k] == Seq::<char>::empty());
                assert(normalized(Seq::<char>::empty()) =~= Seq::<char>::empty());
            }
        }
        lemma_merge_run_adds_nothing(st0, input);
        assert(!is_blank(c1)) by {
            if is_blank(c1) {
                lemma_blank_all_ws(c1);
                assert forall|j: int| 0 <= j < existing.len() implies is_ws(#[trigger] existing[j]) by {
                    assert(c1[j] == existing[j]);
                }
                crate::text::lemma_trim_end_all_ws(existing);
                assert(trim_start(trim_end(existing)) =~= Seq::<char>::empty());
            }
        }
    }
}

/// A merge adds only patterns that the existing file does not have, each
/// once, under its heading; `added` counts them.
pub proof fn law_merge_adds_only_new_patterns(existing: Seq<char>, template: Seq<char>)
    ensures
        patterns_in(merge_model(existing, template).out).no_duplicates(),
        forall|i: int| 0 <= i < patterns_in(merge_model(existing, template).out).len() ==> !pattern_set(existing).contains(
            #[trigger] patterns_in(merge_model(existing, template).out)[i],
        ),
        patterns_in(merge_model(existing, template).out).len() == merge_model(existing, template).added,
{
    let st0 = merge_start(existing);
    let seen0 = pattern_set(existing);
    assert(st0.out + st0.section =~= Seq::<Seq<char>>::empty());
    assert(patterns_in(st0.out + st0.section) =~= Seq::<Seq<char>>::empty());
    assert(patterns_in(st0.section) =~= Seq::<Seq<char>>::empty());
    assert(merge_fresh(st0, seen0));
    lemma_merge_run_fresh(st0, seen0, merge_input(template));
    lemma_merge_model(existing, template);
    let m = merge_model(existing, template);
    lemma_patterns_in_append(m.out, m.section);
    assert(patterns_in(m.out + m.section) =~= patterns_in(m.out));
}

/// Normalizing a line twice is normalizing it once.
pub proof fn lemma_normalized_idempotent(l: Seq<char>)
    ensures
        normalized(normalized(l)) == normalized(l),
{
    let t = trim_end(l);
    lemma_trim_end(l);
    lemma_trim_end_idempotent(l);
    if keeps_escaped_space(l, t) {
        let n = t.push(' ');
        assert(n.drop_last() =~= t);
        assert(trim_end(n) == trim_end(t));
        assert(t.len() > 0);
        assert(n[t.len() as int] == ' ');
    } else {
        if t.len() == 0 {
            assert(trim_end(t) =~= t);
        }
    }
}

/// The rules of some lines: each is a normalized pattern taken from the line
/// that its number names, and the numbers increase.
pub proof fn lemma_rules_of_lines(ls: Seq<Seq<char>>)
    ensures
        forall|i: int| 0 <= i < rules_of_lines(ls).len() ==> {
            let r = #[trigger] rules_of_lines(ls)[i];
            &&& is_rule_text(r.1)
            &&& normalized(r.1) == r.1
            &&& 1 <= r.0 <= ls.len()
            &&& normalized(ls[r.0 - 1]) == r.1
        },
        forall|i: int, j: int| 0 <= i < j < rules_of_lines(ls).len() ==> (#[trigger] rules_of_lines(ls)[i]).0 < (
        #[trigger] rules_of_lines(ls)[j]).0,
    decreases ls.len(),
{
    if ls.len() > 0 {
        let prev = ls.drop_last();
        lemma_rules_of_lines(prev);
        lemma_normalized_idempotent(ls.last());
        let rp = rules_of_lines(prev);
        let r = rules_of_lines(ls);
        assert forall|i: int| 0 <= i < r.len() implies {
            let x = #[trigger] r[i];
            &&& is_rule_text(x.1)
            &&& normalized(x.1) == x.1
            &&& 1 <= x.0 <= ls.len()
            &&& normalized(ls[x.0 - 1]) == x.1
        } by {
            if i < rp.len() {
                assert(r[i] == rp[i]);
                assert(ls[r[i].0 - 1] == prev[r[i].0 - 1]);
            } else {
                assert(ls[ls.len() - 1] == ls.last());
            }
        }
        assert forall|i: int, j: int| 0 <= i < j < r.len() implies (#[trigger] r[i]).0 < (#[trigger] r[j]).0 by {
            if j < rp.len() {
                assert(r[i] == rp[i] && r[j] == rp[j]);
            } else {
                assert(r[i] == rp[i]);
            }
        }
    }
}

/// The rules of a `.gitignore` text are neither blank nor comments, carry no
/// trailing whitespace (unless escaped) so that lines differing only in it
/// give the same pattern, come from the line their number names, and are in
/// the order of the file.
pub proof fn law_parsed_rules(contents: Seq<char>)
    ensures
        forall|i: int| 0 <= i < parsed_rules(contents).len() ==> {
            let r = #[trigger] parsed_rules(contents)[i];
            &&& is_rule_text(r.1)
            &&& normalized(r.1) == r.1
            &&& 1 <= r.0 <= lines(contents).len()
            &&& normalized(lines(contents)[r.0 - 1]) == r.1
        },
        forall|i: int, j: int| 0 <= i < j < parsed_rules(contents).len() ==> (#[trigger] parsed_rules(contents)[i]).0 < (
        #[trigger] parsed_rules(contents)[j]).0,
{
    lemma_rules_of_lines(lines(contents));
}

/// What `last_match` finds: the nearest earlier position with the pattern.
pub proof fn lemma_last_match(rv: Seq<(nat, Seq<char>)>, p: Seq<char>, n: int)
    requires
        n <= rv.len(),
    ensures
        last_match(rv, p, n) matches Some(j) ==> 0 <= j < n && rv[j].1 == p && forall|k: int|
            j < k < n ==> (#[trigger] rv[k]).1 != p,
        last_match(rv, p, n) is None ==> forall|k: int| 0 <= k < n ==> (#[trigger] rv[k]).1 != p,
    decreases n,
{
    if n > 0 && rv[n - 1].1 != p {
        lemma_last_match(rv, p, n - 1);
    }
}

/// Every reported duplicate repeats the nearest earlier rule with the same
/// pattern, with no rule between them negated otherwise; and every such
/// repeat is reported, paired with that nearest earlier rule.
pub proof fn law_duplicates(rv: Seq<(nat, Seq<char>)>)
    ensures
        forall|i: int| 0 <= i < duplicates_of(rv).len() ==> exists|a: int, b: int|
            0 <= b < a < rv.len() && #[trigger] duplicates_of(rv)[i] == (rv[a], rv[b]) && rv[b].1 == rv[a].1
                && forall|k: int| b < k < a ==> (#[trigger] rv[k]).1 != rv[a].1 && negated(rv[k].1) == negated(rv[a].1),
        forall|a: int, b: int|
            0 <= b < a < rv.len() && rv[b].1 == rv[a].1 && (forall|k: int|
                b < k < a ==> (#[trigger] rv[k]).1 != rv[a].1 && negated(rv[k].1) == negated(rv[a].1))
                ==> duplicates_of(rv).contains((#[trigger] rv[a], #[trigger] rv[b])),
{
    lemma_duplicates_upto(rv, rv.len() as int);
}

/// `law_duplicates` for the first `n` rules.
pub proof fn lemma_duplicates_upto(rv: Seq<(nat, Seq<char>)>, n: int)
    requires
        0 <= n <= rv.len(),
    ensures
        forall|i: int| 0 <= i < duplicates_upto(rv, n).len() ==> exists|a: int, b: int|
            0 <= b < a < n && #[trigger] duplicates_upto(rv, n)[i] == (rv[a], rv[b]) && rv[b].1 == rv[a].1
                && forall|k: int| b < k < a ==> (#[trigger] rv[k]).1 != rv[a].1 && negated(rv[k].1) == negated(rv[a].1),
        forall|a: int, b: int|
            0 <= b < a < n && rv[b].1 == rv[a].1 && (forall|k: int|
                b < k < a ==> (#[trigger] rv[k]).1 != rv[a].1 && negated(rv[k].1) == negated(rv[a].1))
                ==> duplicates_upto(rv, n).contains((#[trigger] rv[a], #[trigger] rv[b])),
    decreases n,
{
    if n > 0 {
        lemma_duplicates_upto(rv, n - 1);
        lemma_last_match(rv, rv[n - 1].1, n - 1);
        let prev = duplicates_upto(rv, n - 1);
        let d = duplicates_upto(rv, n);
        assert forall|i: int| 0 <= i < d.len() implies exists|a: int, b: int|
            0 <= b < a < n && #[trigger] d[i] == (rv[a], rv[b]) && rv[b].1 == rv[a].1 && forall|k: int|
                b < k < a ==> (#[trigger] rv[k]).1 != rv[a].1 && negated(rv[k].1) == negated(rv[a].1) by {
            if i < prev.len() {
                assert(d[i] == prev[i]);
                let (a, b) = choose|a: int, b: int|
                    0 <= b < a < n - 1 && #[trigger] prev[i] == (rv[a], rv[b]) && rv[b].1 == rv[a].1
                        && forall|k: int| b < k < a ==> (#[trigger] rv[k]).1 != rv[a].1 && negated(rv[k].1) == negated(rv[a].1);
                assert(0 <= b < a < n && d[i] == (rv[a], rv[b]));
            } else {
                let j = repeated_rule(rv, n - 1)->0;
                assert(d[i] == (rv[n - 1], rv[j]));
                assert(0 <= j < n - 1 && rv[j].1 == rv[n - 1].1);
            }
        }
        assert forall|a: int, b: int|
            0 <= b < a < n && rv[b].1 == rv[a].1 && (forall|k: int|
                b < k < a ==> (#[trigger] rv[k]).1 != rv[a].1 && negated(rv[k].1) == negated(rv[a].1))
            implies d.contains((#[trigger] rv[a], #[trigger] rv[b])) by {
            if a < n - 1 {
                assert(prev.contains((rv[a], rv[b])));
                let i = choose|i: int| 0 <= i < prev.len() && prev[i] == (rv[a], rv[b]);
                assert(d[i] == prev[i]);
            } else {
                assert(last_match(rv, rv[n - 1].1, n - 1) == Some(b)) by {
                    match last_match(rv, rv[n - 1].1, n - 1) {
                        Some(j) => {
                            if j < b {
                                assert(rv[b].1 != rv[n - 1].1);
                            } else if j > b {
                                assert(rv[j].1 != rv[a].1);
                            }
                        },
                        None => {
                            assert(rv[b].1 != rv[n - 1].1);
                        },
                    }
                }
                assert(repeated_rule(rv, n - 1) == Some(b));
                assert(d[prev.len() as int] == (rv[a], rv[b]));
            }
        }
    }
}

/// After a pattern is appended, appending it again is skipped: it is listed.
/// (The pattern must be a single line.)
pub proof fn law_appended_pattern_is_listed(existing: Seq<char>, pattern: Seq<char>)
    requires
        no_newline(pattern),
    ensures
        pattern_listed(existing + pattern_append_text(existing, pattern), pattern),
{
    let lead: Seq<char> = if existing.len() > 0 && existing.last() != '\n' { seq!['\n'] } else { seq![] };
    let x = existing + lead;
    assert(x.len() == 0 || x.last() == '\n');
    let full = existing + pattern_append_text(existing, pattern);
    assert(full =~= x + pattern + seq!['\n'] + Seq::<char>::empty());
    lemma_line_present(x, pattern, Seq::<char>::empty());
    let k = choose|k: int| 0 <= k < lines(full).len() && lines(full)[k] == strip_cr(pattern);
    assert(trim_end(strip_cr(pattern)) == trim_end(pattern));
    assert(trim(lines(full)[k]) == trim(pattern));
}

/// Is a line of `s` that is a pattern in the same section as the line at `i`
/// (no empty line between them)?
pub open spec fn section_has_pattern(s: Seq<Seq<char>>, i: int) -> bool {
    exists|j: int|
        0 <= j < s.len() && is_rule_text(#[trigger] s[j]) && forall|k: int|
            (i <= k <= j || j <= k <= i) ==> (#[trigger] s[k]).len() > 0
}

/// Does every section of `s` (a run of non-empty lines) hold a pattern?
pub open spec fn sections_hold_patterns(s: Seq<Seq<char>>) -> bool {
    forall|i: int| 0 <= i < s.len() && (#[trigger] s[i]).len() > 0 ==> section_has_pattern(s, i)
}

/// The invariant of a merge on sections: every finished section holds a
/// pattern, the section being read has no empty line, and holds a pattern
/// once it is to be kept.
pub open spec fn merge_sections(st: MergeModel) -> bool {
    &&& sections_hold_patterns(st.out)
    &&& forall|k: int| 0 <= k < st.section.len() ==> (#[trigger] st.section[k]).len() > 0
    &&& st.kept ==> exists|j: int| 0 <= j < st.section.len() && is_rule_text(#[trigger] st.section[j])
}

/// A finished section that holds a pattern keeps every section holding one.
#[verifier::spinoff_prover]
#[verifier::rlimit(50)]
pub proof fn lemma_flush_sections(out: Seq<Seq<char>>, sec: Seq<Seq<char>>)
    requires
        sections_hold_patterns(out),
        forall|k: int| 0 <= k < sec.len() ==> (#[trigger] sec[k]).len() > 0,
        exists|j: int| 0 <= j < sec.len() && is_rule_text(#[trigger] sec[j]),
    ensures
        sections_hold_patterns(flush(out, sec)),
{
    let o2 = flush(out, sec);
    let off: int = if out.len() == 0 { 0 } else { out.len() as int + 1 };
    if out.len() > 0 {
        assert(o2 == out.push(seq![]) + sec);
    }
    assert(o2.len() == off + sec.len());
    assert forall|k: int| 0 <= k < sec.len() implies o2[off + k] == sec[k] by {}
    assert forall|k: int| 0 <= k < out.len() implies o2[k] == out[k] by {}
    let js = choose|j: int| 0 <= j < sec.len() && is_rule_text(#[trigger] sec[j]);
    assert forall|i: int| 0 <= i < o2.len() && (#[trigger] o2[i]).len() > 0 implies section_has_pattern(o2, i) by {
        if i < out.len() {
            assert(o2[i] == out[i]);
            assert(section_has_pattern(out, i));
            let j = choose|j: int|
                0 <= j < out.len() && is_rule_text(#[trigger] out[j]) && forall|k: int|
                    (i <= k <= j || j <= k <= i) ==> (#[trigger] out[k]).len() > 0;
            assert(o2[j] == out[j]);
            assert forall|k: int| (i <= k <= j || j <= k <= i) implies (#[trigger] o2[k]).len() > 0 by {
                assert(o2[k] == out[k]);
            }
        } else {
            if out.len() > 0 && i == out.len() {
                assert(o2[i] == Seq::<char>::empty());
            }
            let j = off + js;
            assert(o2[j] == sec[js]);
            assert forall|k: int| (i <= k <= j || j <= k <= i) implies (#[trigger] o2[k]).len() > 0 by {
                assert(o2[k] == sec[k - off]);
            }
        }
    }
}

/// One merge step keeps `merge_sections`.
pub proof fn lemma_merge_step_sections(st: MergeModel, l: Seq<char>)
    requires
        merge_sections(st),
    ensures
        merge_sections(merge_step(st, l)),
{
    let n = normalized(l);
    let st2 = merge_step(st, l);
    if n.len() == 0 {
        if st.kept {
            lemma_flush_sections(st.out, st.section);
        }
    } else if n[0] == '#' {
        assert forall|k: int| 0 <= k < st2.section.len() implies (#[trigger] st2.section[k]).len() > 0 by {
            if k < st.section.len() {
                assert(st2.section[k] == st.section[k]);
            }
        }
        if st.kept {
            let j = choose|j: int| 0 <= j < st.section.len() && is_rule_text(#[trigger] st.section[j]);
            assert(st2.section[j] == st.section[j]);
        }
    } else if !st.seen.contains(n) {
        assert forall|k: int| 0 <= k < st2.section.len() implies (#[trigger] st2.section[k]).len() > 0 by {
            if k < st.section.len() {
                assert(st2.section[k] == st.section[k]);
            }
        }
        assert(is_rule_text(st2.section[st.section.len() as int]));
    }
}

/// A whole merge run keeps `merge_sections`.
pub proof fn lemma_merge_run_sections(st0: MergeModel, ls: Seq<Seq<char>>)
    requires
        merge_sections(st0),
    ensures
        merge_sections(merge_run(st0, ls)),
    decreases ls.len(),
{
    if ls.len() > 0 {
        lemma_merge_run_sections(st0, ls.drop_last());
        lemma_merge_step_sections(merge_run(st0, ls.drop_last()), ls.last());
    }
}

/// Every pattern among `s` is one of `patterns_in(s)`.
pub proof fn lemma_patterns_in_contains(s: Seq<Seq<char>>, j: int)
    requires
        0 <= j < s.len(),
        is_rule_text(s[j]),
    ensures
        patterns_in(s).contains(s[j]),
    decreases s.len(),
{
    let p = patterns_in(s.drop_last());
    if j < s.len() - 1 {
        assert(s.drop_last()[j] == s[j]);
        lemma_patterns_in_contains(s.drop_last(), j);
        let i = choose|i: int| 0 <= i < p.len() && p[i] == s[j];
        assert(patterns_in(s)[i] == s[j]);
    } else {
        assert(patterns_in(s)[p.len() as int] == s[j]);
    }
}

/// Does every section of `s` hold a pattern that is not in `known`?
pub open spec fn sections_hold_new_patterns(s: Seq<Seq<char>>, known: Set<Seq<char>>) -> bool {
    forall|i: int| 0 <= i < s.len() && (#[trigger] s[i]).len() > 0 ==> exists|j: int|
        0 <= j < s.len() && is_rule_text(#[trigger] s[j]) && !known.contains(s[j]) && forall|k: int|
            (i <= k <= j || j <= k <= i) ==> (#[trigger] s[k]).len() > 0
}

/// The section of the line at `i` holds a pattern that is not in `known`,
/// when it holds a pattern and no pattern of `s` is in `known`.
pub proof fn lemma_section_new_at(s: Seq<Seq<char>>, known: Set<Seq<char>>, i: int)
    requires
        section_has_pattern(s, i),
        forall|w: int| 0 <= w < patterns_in(s).len() ==> !known.contains(#[trigger] patterns_in(s)[w]),
    ensures
        exists|j: int|
            0 <= j < s.len() && is_rule_text(#[trigger] s[j]) && !known.contains(s[j]) && forall|k: int|
                (i <= k <= j || j <= k <= i) ==> (#[trigger] s[k]).len() > 0,
{
    let j = choose|j: int|
        0 <= j < s.len() && is_rule_text(#[trigger] s[j]) && forall|k: int|
            (i <= k <= j || j <= k <= i) ==> (#[trigger] s[k]).len() > 0;
    lemma_patterns_in_contains(s, j);
    let q = patterns_in(s);
    let w = choose|w: int| 0 <= w < q.len() && q[w] == s[j];
    assert(!known.contains(q[w]));
}

/// Every section whose patterns are all new holds a new pattern.
#[verifier::spinoff_prover]
#[verifier::rlimit(50)]
pub proof fn lemma_sections_new(s: Seq<Seq<char>>, known: Set<Seq<char>>)
    requires
        sections_hold_patterns(s),
        forall|w: int| 0 <= w < patterns_in(s).len() ==> !known.contains(#[trigger] patterns_in(s)[w]),
    ensures
        sections_hold_new_patterns(s, known),
{
    assert forall|i: int| 0 <= i < s.len() && (#[trigger] s[i]).len() > 0 implies exists|j: int|
        0 <= j < s.len() && is_rule_text(#[trigger] s[j]) && !known.contains(s[j]) && forall|k: int|
            (i <= k <= j || j <= k <= i) ==> (#[trigger] s[k]).len() > 0 by {
        lemma_section_new_at(s, known, i);
    }
}

/// Template sections left with no new pattern are dropped, comments and all:
/// every section of the added block holds a pattern that the existing file
/// does not have.
pub proof fn law_kept_sections_hold_new_patterns(existing: Seq<char>, template: Seq<char>)
    ensures
        sections_hold_new_patterns(merge_model(existing, template).out, pattern_set(existing)),
{
    let st0 = merge_start(existing);
    assert(merge_sections(st0));
    lemma_merge_run_sections(st0, merge_input(template));
    law_merge_adds_only_new_patterns(existing, template);
    lemma_sections_new(merge_model(existing, template).out, pattern_set(existing));
}

} // verus!
