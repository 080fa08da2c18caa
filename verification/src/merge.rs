//! Merging a gitignore.io template into an existing `.gitignore`: only the
//! template's patterns that the file does not have yet are added, and
//! template sections left with no new pattern are dropped.

use vstd::prelude::*;
use crate::rules::{Rule, normalize_chars, normalized, parse_rules, pattern_set, rule_views};
use crate::text::{
    chars_equal, chars_of, join, lines, push_all, seqs_of, split_lines, string_of, strs_of,
    sub_chars, terminated,
};

verus! {

// ---------------------------------------------------------------------------
// Models
// ---------------------------------------------------------------------------

/// The state of a merge after some template lines.
pub struct MergeModel {
    /// Patterns known so far: those of the existing file and those added.
    pub seen: Set<Seq<char>>,
    /// Lines of the finished sections, with an empty line between sections.
    pub out: Seq<Seq<char>>,
    /// Lines of the section being read.
    pub section: Seq<Seq<char>>,
    /// Whether the section being read holds a new pattern.
    pub kept: bool,
    /// How many patterns were added.
    pub added: nat,
}

/// `out` with a finished section appended.
pub open spec fn flush(out: Seq<Seq<char>>, section: Seq<Seq<char>>) -> Seq<Seq<char>> {
    if out.len() == 0 {
        section
    } else {
        out.push(seq![]) + section
    }
}

/// The merge state after one more template line.
/// A blank line ends a section, which is kept only if it holds a new pattern;
/// a comment joins the section; a pattern joins it only if it is new.
pub open spec fn merge_step(st: MergeModel, line: Seq<char>) -> MergeModel {
    let n = normalized(line);
    if n.len() == 0 {
        MergeModel {
            seen: st.seen,
            out: if st.kept { flush(st.out, st.section) } else { st.out },
            section: seq![],
            kept: false,
            added: st.added,
        }
    } else if n[0] == '#' {
        MergeModel { seen: st.seen, out: st.out, section: st.section.push(n), kept: st.kept, added: st.added }
    } else if !st.seen.contains(n) {
        MergeModel {
            seen: st.seen.insert(n),
            out: st.out,
            section: st.section.push(n),
            kept: true,
            added: st.added + 1,
        }
    } else {
        st
    }
}

/// The merge state after the template lines `ls`.
pub open spec fn merge_run(st: MergeModel, ls: Seq<Seq<char>>) -> MergeModel
    decreases ls.len(),
{
    if ls.len() == 0 {
        st
    } else {
        merge_step(merge_run(st, ls.drop_last()), ls.last())
    }
}

/// The state before any template line: the patterns of the existing file are known.
pub open spec fn merge_start(existing: Seq<char>) -> MergeModel {
    MergeModel { seen: pattern_set(existing), out: seq![], section: seq![], kept: false, added: 0 }
}

/// The lines that a merge reads: the template's lines, then a blank line
/// that ends the last section.
pub open spec fn merge_input(template: Seq<char>) -> Seq<Seq<char>> {
    lines(template).push(seq![])
}

/// The state after merging all of `template` into `existing`.
pub open spec fn merge_model(existing: Seq<char>, template: Seq<char>) -> MergeModel {
    merge_run(merge_start(existing), merge_input(template))
}

/// The heading line of an added block.
pub open spec fn block_header(presets: Seq<Seq<char>>) -> Seq<char> {
    "# Added by git-ignore: "@ + join(presets, ", "@)
}

/// The block appended to the existing file: empty when nothing is added,
/// otherwise the heading and the kept sections, each line ended by a line feed.
pub open spec fn merge_block(existing: Seq<char>, template: Seq<char>, presets: Seq<Seq<char>>) -> Seq<char> {
    let m = merge_model(existing, template);
    if m.added == 0 {
        seq![]
    } else {
        terminated(seq![block_header(presets)] + m.out)
    }
}

// ---------------------------------------------------------------------------
// Executable functions
// ---------------------------------------------------------------------------

/// Does `names` hold `name`?
fn contains_chars(names: &Vec<Vec<char>>, name: &[char]) -> (r: bool)
    ensures
        r == seqs_of(names@).contains(name@),
{
    let mut i: usize = 0;
    while i < names.len()
        invariant
            i <= names@.len(),
            forall|j: int| 0 <= j < i ==> names@[j]@ != name@,
        decreases names@.len() - i,
    {
        if chars_equal(names[i].as_slice(), name) {
            assert(seqs_of(names@)[i as int] == name@);
            return true;
        }
        i = i + 1;
    }
    assert forall|j: int| 0 <= j < seqs_of(names@).len() implies seqs_of(names@)[j] != name@ by {
        assert(seqs_of(names@)[j] == names@[j]@);
    }
    false
}

/// `parts` joined with `sep`.
pub fn join_chars(parts: &[String], sep: &str) -> (v: Vec<char>)
    ensures
        v@ == join(strs_of(parts@), sep@),
{
    let ghost ps = strs_of(parts@);
    let sep_chars = chars_of(sep);
    let mut v: Vec<char> = Vec::new();
    let mut i: usize = 0;
    assert(ps.take(0) =~= Seq::<Seq<char>>::empty());
    while i < parts.len()
        invariant
            i <= parts@.len(),
            ps == strs_of(parts@),
            sep_chars@ == sep@,
            v@ == join(ps.take(i as int), sep@),
        decreases parts@.len() - i,
    {
        let part = chars_of(parts[i].as_str());
        assert(ps.take(i + 1).drop_last() =~= ps.take(i as int));
        assert(ps.take(i + 1).last() == part@);
        if i > 0 {
            push_all(&mut v, sep_chars.as_slice());
        }
        push_all(&mut v, part.as_slice());
        i = i + 1;
    }
    assert(ps.take(parts@.len() as int) =~= ps);
    v
}

/// The patterns of the rules, as character vectors.
fn rule_patterns(rules: &Vec<Rule>) -> (v: Vec<Vec<char>>)
    ensures
        seqs_of(v@) == rule_views(rules@).map_values(|r: (nat, Seq<char>)| r.1),
{
    let ghost ps = rule_views(rules@).map_values(|r: (nat, Seq<char>)| r.1);
    let mut v: Vec<Vec<char>> = Vec::new();
    let mut i: usize = 0;
    while i < rules.len()
        invariant
            i <= rules@.len(),
            ps == rule_views(rules@).map_values(|r: (nat, Seq<char>)| r.1),
            seqs_of(v@) == ps.take(i as int),
        decreases rules@.len() - i,
    {
        let ghost before = v@;
        v.push(chars_of(rules[i].pattern.as_str()));
        assert(seqs_of(v@) =~= seqs_of(before).push(rules@[i as int].pattern@));
        assert(ps.take(i + 1) =~= ps.take(i as int).push(ps[i as int]));
        i = i + 1;
    }
    assert(ps.take(rules@.len() as int) =~= ps);
    v
}

/// The executable state of a merge.
struct MergeState {
    seen: Vec<Vec<char>>,
    out: Vec<Vec<char>>,
    section: Vec<Vec<char>>,
    kept: bool,
    added: usize,
}

impl View for MergeState {
    type V = MergeModel;

    closed spec fn view(&self) -> MergeModel {
        MergeModel {
            seen: seqs_of(self.seen@).to_set(),
            out: seqs_of(self.out@),
            section: seqs_of(self.section@),
            kept: self.kept,
            added: self.added as nat,
        }
    }
}

impl MergeState {
    /// Ends the section being read (a blank line).
    fn end_section(&mut self)
        ensures
            final(self)@ == merge_step(old(self)@, seq![]),
    {
        if self.kept {
            if self.out.len() > 0 {
                let ghost ob = self.out@;
                self.out.push(Vec::new());
                assert(seqs_of(self.out@) =~= seqs_of(ob).push(seq![]));
            }
            let ghost ob = self.out@;
            let ghost sb = self.section@;
            self.out.append(&mut self.section);
            assert(seqs_of(self.out@) =~= seqs_of(ob) + seqs_of(sb));
        }
        self.section = Vec::new();
        self.kept = false;
        assert(seqs_of(self.section@) =~= Seq::<Seq<char>>::empty());
        assert(normalized(Seq::<char>::empty()) =~= Seq::<char>::empty());
        assert(final(self)@ =~= merge_step(old(self)@, seq![]));
    }

    /// Reads one template line.
    fn read_line(&mut self, line: &[char])
        requires
            old(self).added < usize::MAX,
        ensures
            final(self)@ == merge_step(old(self)@, line@),
            final(self).added <= old(self).added + 1,
    {
        let n = normalize_chars(line);
        if n.len() == 0 {
            self.end_section();
            assert(normalized(Seq::<char>::empty()) =~= Seq::<char>::empty());
        } else if n[0] == '#' {
            let ghost sb = self.section@;
            self.section.push(n);
            assert(seqs_of(self.section@) =~= seqs_of(sb).push(n@));
            assert(final(self)@ =~= merge_step(old(self)@, line@));
        } else if !contains_chars(&self.seen, n.as_slice()) {
            let copy = sub_chars(n.as_slice(), 0, n.len());
            assert(copy@ =~= n@);
            let ghost seen_b = self.seen@;
            self.seen.push(copy);
            assert(seqs_of(self.seen@) =~= seqs_of(seen_b).push(n@));
            assert forall|x: Seq<char>| seqs_of(self.seen@).contains(x) <==> (seqs_of(seen_b).contains(x)
                || x == n@) by {
                if x == n@ {
                    assert(seqs_of(self.seen@)[seqs_of(seen_b).len() as int] == x);
                }
                if seqs_of(seen_b).contains(x) {
                    let k = choose|k: int| 0 <= k < seqs_of(seen_b).len() && seqs_of(seen_b)[k] == x;
                    assert(seqs_of(self.seen@)[k] == x);
                }
                if seqs_of(self.seen@).contains(x) && x != n@ {
                    let k = choose|k: int| 0 <= k < seqs_of(self.seen@).len() && seqs_of(self.seen@)[k] == x;
                    assert(seqs_of(seen_b)[k] == x);
                }
            }
            assert(seqs_of(self.seen@).to_set() =~= seqs_of(seen_b).to_set().insert(n@));
            let ghost sb = self.section@;
            self.section.push(n);
            assert(seqs_of(self.section@) =~= seqs_of(sb).push(n@));
            self.kept = true;
            self.added = self.added + 1;
            assert(final(self)@ =~= merge_step(old(self)@, line@));
        }
    }
}

/// Builds the block to append to `existing`, keeping only template patterns it
/// doesn't already have, and how many patterns that block adds. Template
/// sections left with no new pattern are dropped, comments and all.
pub fn merge_addition(existing: &str, template: &str, presets: &[String]) -> (r: (String, usize))
    ensures
        r.0@ == merge_block(existing@, template@, strs_of(presets@)),
        r.1 == merge_model(existing@, template@).added,
{
    let rules = parse_rules(existing);
    let seen = rule_patterns(&rules);
    let tcs = chars_of(template);
    let ls = split_lines(tcs.as_slice());
    let ghost input = merge_input(template@);
    let ghost start = merge_start(existing@);
    let mut st = MergeState { seen, out: Vec::new(), section: Vec::new(), kept: false, added: 0 };
    assert(seqs_of(st.seen@).to_set() =~= pattern_set(existing@));
    assert(input.take(0) =~= Seq::<Seq<char>>::empty());
    assert(seqs_of(st.out@) =~= Seq::<Seq<char>>::empty());
    assert(seqs_of(st.section@) =~= Seq::<Seq<char>>::empty());
    assert(st@ =~= start);
    let mut i: usize = 0;
    while i < ls.len()
        invariant
            i <= ls@.len(),
            input == merge_input(template@),
            input.len() == ls@.len() + 1,
            forall|k: int| 0 <= k < ls@.len() ==> input[k] == #[trigger] ls@[k]@,
            input[ls@.len() as int] == Seq::<char>::empty(),
            start == merge_start(existing@),
            st@ == merge_run(start, input.take(i as int)),
            st.added <= i,
        decreases ls@.len() - i,
    {
        assert(input.take(i + 1).drop_last() =~= input.take(i as int));
        assert(input.take(i + 1).last() == ls@[i as int]@);
        st.read_line(ls[i].as_slice());
        i = i + 1;
    }
    assert(input.take(ls@.len() as int + 1).drop_last() =~= input.take(ls@.len() as int));
    assert(input.take(ls@.len() as int + 1) =~= input);
    st.end_section();
    let added: usize = st.added;
    if added == 0 {
        return (String::new(), 0);
    }
    let mut block = chars_of("# Added by git-ignore: ");
    let names = join_chars(presets, ", ");
    push_all(&mut block, names.as_slice());
    let ghost header = block@;
    block.push('\n');
    let ghost all = seq![header] + seqs_of(st.out@);
    assert(all.take(1).drop_last() =~= Seq::<Seq<char>>::empty());
    assert(terminated(Seq::<Seq<char>>::empty()) =~= Seq::<char>::empty());
    assert(all.take(1).last() == header);
    assert(block@ =~= terminated(all.take(1)));
    let mut k: usize = 0;
    while k < st.out.len()
        invariant
            k <= st.out@.len(),
            all == seq![header] + seqs_of(st.out@),
            block@ == terminated(all.take(k + 1)),
        decreases st.out@.len() - k,
    {
        assert(all.take(k + 2).drop_last() =~= all.take(k + 1));
        assert(all.take(k + 2).last() == st.out@[k as int]@);
        push_all(&mut block, st.out[k].as_slice());
        block.push('\n');
        k = k + 1;
    }
    assert(all.take(st.out@.len() as int + 1) =~= all);
    (string_of(block.as_slice()), added)
}

} // verus!
