//! Finding the rules that match no file or directory: each rule gets its own
//! gitignore matcher (from the `ignore` crate), and every path met while
//! walking the tree drops the rules that match it.

use vstd::prelude::*;
use ignore::gitignore::{Gitignore, GitignoreBuilder};
use crate::rules::{Rule, rule_views};

verus! {

// ---------------------------------------------------------------------------
// Outside types and calls
// ---------------------------------------------------------------------------

/// A gitignore matcher for the globs given to its builder.
#[verifier::external_type_specification]
#[verifier::external_body]
pub struct ExGitignore(Gitignore);

/// An error of the `ignore` crate, such as a glob that does not parse.
#[verifier::external_type_specification]
#[verifier::external_body]
pub struct ExIgnoreError(ignore::Error);

/// Whether `GitignoreBuilder::add_line` accepts `line` (as a line of no
/// file) on a builder fresh from `GitignoreBuilder::new`.
pub uninterp spec fn gitignore_line_accepted(line: Seq<char>) -> bool;

/// Whether `GitignoreBuilder::build` succeeds on a fresh builder to which
/// `line` was added.
pub uninterp spec fn gitignore_builds(line: Seq<char>) -> bool;

/// Whether `Gitignore::matched` answers other than `Match::None` for `path`
/// (a directory when `is_dir`), on the matcher built from the single line
/// `line` for the root directory `root`.
pub uninterp spec fn gitignore_matched(root: Seq<char>, line: Seq<char>, path: Seq<char>, is_dir: bool) -> bool;

/// Whether a matcher can be made from `line` alone.
pub open spec fn compiles(line: Seq<char>) -> bool {
    gitignore_line_accepted(line) && gitignore_builds(line)
}

/// A gitignore matcher for one line, with the root and the line it was made from.
struct PatternMatcher {
    root: String,
    line: String,
    matcher: Gitignore,
}

/// Which step of making a matcher failed.
pub enum CompileError {
    /// `GitignoreBuilder::add_line` rejected the line (its glob does not parse).
    Line(ignore::Error),
    /// `GitignoreBuilder::build` failed.
    Build(ignore::Error),
}

/// `GitignoreBuilder::new(root)`, then `add_line(None, line)` and `build()`
/// on that builder: the matcher for the single line `line`, kept beside the
/// root and the line. The builder is made here because what `add_line` and
/// `build` return is a function of the line only on a builder in the state
/// that `new` leaves (default settings, no earlier line).
/// Claimed: the outcome is the one named by `gitignore_line_accepted` and
/// `gitignore_builds` for `line`, and the matcher returned is tagged with
/// the `root` and `line` it was built from.
#[verifier::external_body]
fn compile_line(root: &str, line: &str) -> (r: Result<PatternMatcher, CompileError>)
    ensures
        r is Ok <==> (gitignore_line_accepted(line@) && gitignore_builds(line@)),
        (r is Err && r->Err_0 is Line) <==> !gitignore_line_accepted(line@),
        r is Ok ==> (r->Ok_0.root@ == root@ && r->Ok_0.line@ == line@),
{
    let mut builder = GitignoreBuilder::new(root);
    if let Err(e) = builder.add_line(None, line) {
        return Err(CompileError::Line(e));
    }
    match builder.build() {
        Ok(matcher) => Ok(PatternMatcher { root: root.to_string(), line: line.to_string(), matcher }),
        Err(e) => Err(CompileError::Build(e)),
    }
}

/// `Gitignore::matched` on the matcher of `m`: whether its line, ignoring or
/// whitelisting, matches `path` (a directory when `is_dir`).
/// Claimed: the answer is the one named by `gitignore_matched` for the root
/// and line that `m` was built from.
#[verifier::external_body]
fn matches_path(m: &PatternMatcher, path: &str, is_dir: bool) -> (r: bool)
    ensures
        r == gitignore_matched(m.root@, m.line@, path@, is_dir),
{
    match m.matcher.matched(path, is_dir) {
        ignore::Match::None => false,
        ignore::Match::Ignore(_) => true,
        ignore::Match::Whitelist(_) => true,
    }
}

// ---------------------------------------------------------------------------
// Models
// ---------------------------------------------------------------------------

/// The rules whose entry in `hits` is false, in order.
pub open spec fn unhit(rv: Seq<(nat, Seq<char>)>, hits: Seq<bool>) -> Seq<(nat, Seq<char>)>
    decreases rv.len(),
{
    if rv.len() == 0 || hits.len() == 0 {
        rv
    } else {
        (if hits[0] { seq![] } else { seq![rv[0]] }) + unhit(rv.drop_first(), hits.drop_first())
    }
}

/// For each rule, whether its pattern (matched from `root`) matches `path`.
pub open spec fn matched_hits(root: Seq<char>, rv: Seq<(nat, Seq<char>)>, path: Seq<char>, is_dir: bool) -> Seq<bool> {
    Seq::new(rv.len(), |i: int| gitignore_matched(root, rv[i].1, path, is_dir))
}

/// The rules left once those matching `path` are dropped.
pub open spec fn after_observing(root: Seq<char>, rv: Seq<(nat, Seq<char>)>, path: Seq<char>, is_dir: bool) -> Seq<(nat, Seq<char>)> {
    unhit(rv, matched_hits(root, rv, path, is_dir))
}

/// Does the pattern (matched from `root`) match one of the `seen` paths?
pub open spec fn matched_by_any(root: Seq<char>, pattern: Seq<char>, seen: Seq<(Seq<char>, bool)>) -> bool {
    exists|k: int| 0 <= k < seen.len() && gitignore_matched(root, pattern, (#[trigger] seen[k]).0, seen[k].1)
}

/// The rules left after observing each of the `seen` paths in turn.
pub open spec fn observe_all(root: Seq<char>, rv: Seq<(nat, Seq<char>)>, seen: Seq<(Seq<char>, bool)>) -> Seq<(nat, Seq<char>)>
    decreases seen.len(),
{
    if seen.len() == 0 {
        rv
    } else {
        after_observing(root, observe_all(root, rv, seen.drop_last()), seen.last().0, seen.last().1)
    }
}

/// Where making the matchers stopped: the rule and the step that failed.
pub struct UnmatchedError {
    /// The line number of the rule.
    pub line: usize,
    /// The rule's pattern.
    pub pattern: String,
    /// What the `ignore` crate reported.
    pub cause: CompileError,
}

/// The rules that no path matched so far, each with its matcher.
pub struct PendingRules {
    root: String,
    pending: Vec<(Rule, PatternMatcher)>,
}

impl View for PendingRules {
    /// The root directory and the pending rules.
    type V = (Seq<char>, Seq<(nat, Seq<char>)>);

    closed spec fn view(&self) -> (Seq<char>, Seq<(nat, Seq<char>)>) {
        (self.root@, self.pending@.map_values(|p: (Rule, PatternMatcher)| p.0@))
    }
}

impl PendingRules {
    /// Each matcher was made for the root and for the pattern of its rule.
    pub closed spec fn wf(&self) -> bool {
        forall|i: int| 0 <= i < self.pending@.len() ==> {
            &&& (#[trigger] self.pending@[i]).1.root@ == self.root@
            &&& self.pending@[i].1.line@ == self.pending@[i].0.pattern@
        }
    }

    /// A matcher for each rule, matching paths relative to `root`.
    /// Fails on the first rule for which no matcher can be made, naming it.
    pub fn new(root: &str, rules: &[Rule]) -> (r: Result<PendingRules, UnmatchedError>)
        ensures
            r is Ok <==> forall|k: int| 0 <= k < rules@.len() ==> compiles(#[trigger] rules@[k].pattern@),
            r matches Ok(p) ==> p.wf() && p@ == (root@, rule_views(rules@)),
            r matches Err(e) ==> exists|k: int| {
                &&& 0 <= k < rules@.len()
                &&& forall|j: int| 0 <= j < k ==> compiles(#[trigger] rules@[j].pattern@)
                &&& !compiles(rules@[k].pattern@)
                &&& e.line == rules@[k].line
                &&& e.pattern@ == rules@[k].pattern@
                &&& (e.cause is Line <==> !gitignore_line_accepted(rules@[k].pattern@))
            },
    {
        let mut pending: Vec<(Rule, PatternMatcher)> = Vec::new();
        let mut i: usize = 0;
        while i < rules.len()
            invariant
                i <= rules@.len(),
                pending@.map_values(|p: (Rule, PatternMatcher)| p.0@) == rule_views(rules@).take(i as int),
                forall|j: int| 0 <= j < i ==> compiles(#[trigger] rules@[j].pattern@),
                forall|j: int| 0 <= j < pending@.len() ==> {
                    &&& (#[trigger] pending@[j]).1.root@ == root@
                    &&& pending@[j].1.line@ == pending@[j].0.pattern@
                },
            decreases rules@.len() - i,
        {
            let rule = rules[i].duplicate();
            let matcher = match compile_line(root, rule.pattern.as_str()) {
                Ok(m) => m,
                Err(cause) => {
                    return Err(UnmatchedError { line: rule.line, pattern: rule.pattern, cause });
                },
            };
            let ghost before = pending@;
            pending.push((rule, matcher));
            assert(pending@.map_values(|p: (Rule, PatternMatcher)| p.0@) =~= before.map_values(
                |p: (Rule, PatternMatcher)| p.0@,
            ).push(rules@[i as int]@));
            assert(rule_views(rules@).take(i + 1) =~= rule_views(rules@).take(i as int).push(
                rules@[i as int]@,
            ));
            i = i + 1;
        }
        assert(rule_views(rules@).take(rules@.len() as int) =~= rule_views(rules@));
        Ok(PendingRules { root: root.to_owned(), pending })
    }

    /// Are there no pending rules left?
    pub fn is_empty(&self) -> (r: bool)
        ensures
            r == (self@.1.len() == 0),
    {
        self.pending.len() == 0
    }

    /// Drops the rules whose entry in `hits` is true.
    pub fn drop_matched(&mut self, hits: &[bool])
        requires
            old(self).wf(),
            hits@.len() == old(self)@.1.len(),
        ensures
            final(self).wf(),
            final(self)@ == (old(self)@.0, unhit(old(self)@.1, hits@)),
    {
        let ghost rv = self@.1;
        let ghost hv = hits@;
        let ghost root = self@.0;
        let mut j: usize = self.pending.len();
        assert(rv.skip(rv.len() as int).len() == 0);
        assert(rv.take(rv.len() as int) =~= rv);
        assert(rv.take(j as int) + unhit(rv.skip(j as int), hv.skip(j as int)) =~= rv);
        while j > 0
            invariant
                j <= rv.len(),
                hv.len() == rv.len(),
                hv == hits@,
                self.wf(),
                self@.0 == root,
                self@.1 == rv.take(j as int) + unhit(rv.skip(j as int), hv.skip(j as int)),
                self@.1.len() == self.pending@.len(),
                j <= self.pending@.len(),
            decreases j,
        {
            let ghost before = self@.1;
            assert(rv.skip(j - 1).drop_first() =~= rv.skip(j as int));
            assert(hv.skip(j - 1).drop_first() =~= hv.skip(j as int));
            assert(rv.skip(j - 1)[0] == rv[j - 1]);
            assert(hv.skip(j - 1)[0] == hv[j - 1]);
            assert(rv.take(j as int) =~= rv.take(j - 1).push(rv[j - 1]));
            if hits[j - 1] {
                let ghost old_pending = self.pending@;
                self.pending.remove(j - 1);
                assert(forall|i: int| 0 <= i < self.pending@.len() ==>
                    #[trigger] self.pending@[i] == old_pending[if i < j - 1 { i } else { i + 1 }]);
                assert(self@.1 =~= before.remove(j - 1));
                assert(self@.1 =~= rv.take(j - 1) + unhit(rv.skip(j - 1), hv.skip(j - 1)));
            } else {
                assert(self@.1 =~= rv.take(j - 1) + unhit(rv.skip(j - 1), hv.skip(j - 1)));
            }
            j = j - 1;
        }
        assert(rv.take(0) =~= Seq::<(nat, Seq<char>)>::empty());
        assert(rv.skip(0) =~= rv);
        assert(hv.skip(0) =~= hv);
        assert(self@.1 =~= unhit(rv, hv));
    }

    /// Drops the rules whose pattern matches `path` (a directory when `is_dir`).
    pub fn observe(&mut self, path: &str, is_dir: bool)
        requires
            old(self).wf(),
        ensures
            final(self).wf(),
            final(self)@ == (old(self)@.0, after_observing(old(self)@.0, old(self)@.1, path@, is_dir)),
    {
        let ghost hv = matched_hits(self@.0, self@.1, path@, is_dir);
        let mut hits: Vec<bool> = Vec::new();
        let mut i: usize = 0;
        while i < self.pending.len()
            invariant
                i <= self.pending@.len(),
                self@.1.len() == self.pending@.len(),
                hv == matched_hits(self@.0, self@.1, path@, is_dir),
                self.wf(),
                hits@ == hv.take(i as int),
            decreases self.pending@.len() - i,
        {
            let h = matches_path(&self.pending[i].1, path, is_dir);
            assert(self.pending@[i as int].1.root@ == self@.0);
            assert(hits@.push(h) =~= hv.take(i + 1));
            hits.push(h);
            i = i + 1;
        }
        assert(hits@ =~= hv);
        self.drop_matched(hits.as_slice());
    }

    /// The rules that no path matched.
    pub fn into_rules(self) -> (r: Vec<Rule>)
        ensures
            rule_views(r@) == self@.1,
    {
        let mut out: Vec<Rule> = Vec::new();
        let mut i: usize = 0;
        while i < self.pending.len()
            invariant
                i <= self.pending@.len(),
                rule_views(out@) == self@.1.take(i as int),
            decreases self.pending@.len() - i,
        {
            let ghost before = out@;
            out.push(self.pending[i].0.duplicate());
            assert(rule_views(out@) =~= rule_views(before).push(self.pending@[i as int].0@));
            assert(self@.1.take(i + 1) =~= self@.1.take(i as int).push(self@.1[i as int]));
            i = i + 1;
        }
        assert(self@.1.take(self.pending@.len() as int) =~= self@.1);
        out
    }
}

// ---------------------------------------------------------------------------
// Laws
// ---------------------------------------------------------------------------

proof fn lemma_unhit_append(a: Seq<(nat, Seq<char>)>, b: Seq<(nat, Seq<char>)>, ha: Seq<bool>, hb: Seq<bool>)
    requires
        ha.len() == a.len(),
        hb.len() == b.len(),
    ensures
        unhit(a + b, ha + hb) == unhit(a, ha) + unhit(b, hb),
    decreases a.len(),
{
    if a.len() == 0 {
        assert(a + b =~= b);
        assert(ha + hb =~= hb);
    } else {
        lemma_unhit_append(a.drop_first(), b, ha.drop_first(), hb);
        assert((a + b).drop_first() =~= a.drop_first() + b);
        assert((ha + hb).drop_first() =~= ha.drop_first() + hb);
        if b.len() == 0 {
            assert(unhit(b, hb) == b);
        }
    }
}

proof fn lemma_after_observing_filter(root: Seq<char>, rv: Seq<(nat, Seq<char>)>, path: Seq<char>, is_dir: bool)
    ensures
        after_observing(root, rv, path, is_dir) == rv.filter(
            |e: (nat, Seq<char>)| !gitignore_matched(root, e.1, path, is_dir),
        ),
    decreases rv.len(),
{
    reveal(Seq::filter);
    let pred = |e: (nat, Seq<char>)| !gitignore_matched(root, e.1, path, is_dir);
    if rv.len() > 0 {
        let front = rv.drop_last();
        lemma_after_observing_filter(root, front, path, is_dir);
        let hits = matched_hits(root, rv, path, is_dir);
        assert(rv =~= front + seq![rv.last()]);
        assert(hits =~= matched_hits(root, front, path, is_dir) + seq![hits.last()]);
        lemma_unhit_append(front, seq![rv.last()], matched_hits(root, front, path, is_dir), seq![hits.last()]);
        let one = unhit(seq![rv.last()], seq![hits.last()]);
        assert(seq![rv.last()].drop_first() =~= Seq::<(nat, Seq<char>)>::empty());
        assert(unhit(Seq::<(nat, Seq<char>)>::empty(), seq![hits.last()].drop_first()) == Seq::<(nat, Seq<char>)>::empty());
        if hits.last() {
            assert(one =~= Seq::<(nat, Seq<char>)>::empty());
            assert(after_observing(root, rv, path, is_dir) =~= rv.drop_last().filter(pred));
        } else {
            assert(one =~= seq![rv.last()]);
            assert(after_observing(root, rv, path, is_dir) =~= rv.drop_last().filter(pred).push(rv.last()));
        }
    }
}

proof fn lemma_filter_filter(s: Seq<(nat, Seq<char>)>, f: spec_fn((nat, Seq<char>)) -> bool, g: spec_fn((nat, Seq<char>)) -> bool, h: spec_fn((nat, Seq<char>)) -> bool)
    requires
        forall|e: (nat, Seq<char>)| #[trigger] h(e) == (f(e) && g(e)),
    ensures
        s.filter(f).filter(g) == s.filter(h),
    decreases s.len(),
{
    reveal(Seq::filter);
    if s.len() > 0 {
        lemma_filter_filter(s.drop_last(), f, g, h);
        let sf = s.filter(f);
        if f(s.last()) {
            assert(sf.drop_last() =~= s.drop_last().filter(f));
            assert(sf.last() == s.last());
        } else {
            assert(sf == s.drop_last().filter(f));
        }
    }
}

/// Observing paths one after another keeps exactly the rules whose pattern
/// matches none of them, in their order.
pub proof fn law_observed_rules_are_the_unmatched(root: Seq<char>, rv: Seq<(nat, Seq<char>)>, seen: Seq<(Seq<char>, bool)>)
    ensures
        observe_all(root, rv, seen) == rv.filter(|e: (nat, Seq<char>)| !matched_by_any(root, e.1, seen)),
    decreases seen.len(),
{
    let all = |e: (nat, Seq<char>)| !matched_by_any(root, e.1, seen);
    if seen.len() == 0 {
        lemma_filter_all(rv, all);
    } else {
        let front = seen.drop_last();
        let (path, is_dir) = seen.last();
        law_observed_rules_are_the_unmatched(root, rv, front);
        let before = |e: (nat, Seq<char>)| !matched_by_any(root, e.1, front);
        let now = |e: (nat, Seq<char>)| !gitignore_matched(root, e.1, path, is_dir);
        lemma_after_observing_filter(root, rv.filter(before), path, is_dir);
        assert forall|e: (nat, Seq<char>)| #[trigger] all(e) == (before(e) && now(e)) by {
            if matched_by_any(root, e.1, seen) {
                let k = choose|k: int| 0 <= k < seen.len() && gitignore_matched(root, e.1, (#[trigger] seen[k]).0, seen[k].1);
                if k < front.len() {
                    assert(front[k] == seen[k]);
                }
            }
            if matched_by_any(root, e.1, front) {
                let k = choose|k: int| 0 <= k < front.len() && gitignore_matched(root, e.1, (#[trigger] front[k]).0, front[k].1);
                assert(seen[k] == front[k]);
            }
            if gitignore_matched(root, e.1, path, is_dir) {
                assert(seen[seen.len() - 1] == seen.last());
            }
        }
        lemma_filter_filter(rv, before, now, all);
    }
}

proof fn lemma_filter_all(s: Seq<(nat, Seq<char>)>, f: spec_fn((nat, Seq<char>)) -> bool)
    requires
        forall|e: (nat, Seq<char>)| #[trigger] f(e),
    ensures
        s.filter(f) == s,
    decreases s.len(),
{
    reveal(Seq::filter);
    if s.len() > 0 {
        lemma_filter_all(s.drop_last(), f);
        assert(s.drop_last().push(s.last()) =~= s);
    }
}

/// Observing more paths never brings a rule back: when every path of
/// `fewer` is among `more`, the rules kept after `more` are those kept after
/// `fewer` that no path of `more` matches.
pub proof fn law_more_paths_keep_fewer_rules(
    root: Seq<char>,
    rv: Seq<(nat, Seq<char>)>,
    fewer: Seq<(Seq<char>, bool)>,
    more: Seq<(Seq<char>, bool)>,
)
    requires
        forall|k: int| 0 <= k < fewer.len() ==> more.contains(#[trigger] fewer[k]),
    ensures
        observe_all(root, rv, more) == observe_all(root, rv, fewer).filter(
            |e: (nat, Seq<char>)| !matched_by_any(root, e.1, more),
        ),
{
    let f = |e: (nat, Seq<char>)| !matched_by_any(root, e.1, fewer);
    let g = |e: (nat, Seq<char>)| !matched_by_any(root, e.1, more);
    law_observed_rules_are_the_unmatched(root, rv, fewer);
    law_observed_rules_are_the_unmatched(root, rv, more);
    assert forall|e: (nat, Seq<char>)| #[trigger] g(e) == (f(e) && g(e)) by {
        if matched_by_any(root, e.1, fewer) {
            let k = choose|k: int| 0 <= k < fewer.len() && gitignore_matched(root, e.1, (#[trigger] fewer[k]).0, fewer[k].1);
            assert(more.contains(fewer[k]));
            let m = choose|m: int| 0 <= m < more.len() && more[m] == fewer[k];
            assert(gitignore_matched(root, e.1, more[m].0, more[m].1));
        }
    }
    lemma_filter_filter(rv, f, g, g);
}

} // verus!
