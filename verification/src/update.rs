//! What to write to `.gitignore`: appending one pattern, or creating,
//! overwriting or extending the file from a template.

use vstd::prelude::*;
use crate::merge::{merge_addition, merge_block, merge_model};
use crate::text::{
    chars_equal, chars_of, ends_with, lines, push_all, seqs_of, split_lines, string_of, strs_of, trim,
    trim_bounds, trim_chars, trim_end, trim_start,
};

verus! {

// ---------------------------------------------------------------------------
// Models
// ---------------------------------------------------------------------------

/// Is `s` empty or made of whitespace only?
pub open spec fn is_blank(s: Seq<char>) -> bool {
    trim(s).len() == 0
}

/// `s` ending with a line feed: `s` itself if it has one, else `s` followed by one.
pub open spec fn with_final_newline(s: Seq<char>) -> Seq<char> {
    if ends_with(s, seq!['\n']) {
        s
    } else {
        s.push('\n')
    }
}

/// The file after a merge: the existing text, ended by a line feed, an empty
/// line, then the added block.
pub open spec fn merged_contents(existing: Seq<char>, template: Seq<char>, presets: Seq<Seq<char>>) -> Seq<char> {
    with_final_newline(existing).push('\n') + merge_block(existing, template, presets)
}

/// The contents of `.gitignore` after creating it from a template.
/// An absent or blank file, or `force`, gives the template itself; otherwise
/// the template's new patterns are merged in, and without any the file stays.
pub open spec fn planned_contents(
    existing: Seq<char>,
    template: Seq<char>,
    presets: Seq<Seq<char>>,
    force: bool,
) -> Seq<char> {
    if force || is_blank(existing) {
        template
    } else if merge_model(existing, template).added == 0 {
        existing
    } else {
        merged_contents(existing, template, presets)
    }
}

/// Is `pattern` one of the lines of `contents`, both taken without surrounding whitespace?
pub open spec fn pattern_listed(contents: Seq<char>, pattern: Seq<char>) -> bool {
    exists|k: int| 0 <= k < lines(contents).len() && trim(#[trigger] lines(contents)[k]) == trim(pattern)
}

/// The text that appending `pattern` to a file holding `existing` writes:
/// a line feed first when the file does not end a line, then the pattern and a line feed.
pub open spec fn pattern_append_text(existing: Seq<char>, pattern: Seq<char>) -> Seq<char> {
    let lead: Seq<char> = if existing.len() > 0 && existing.last() != '\n' { seq!['\n'] } else { seq![] };
    lead + pattern + seq!['\n']
}

// ---------------------------------------------------------------------------
// Plans
// ---------------------------------------------------------------------------

/// What creating `.gitignore` from presets does.
pub enum NewGitignorePlan {
    /// The file is absent or blank: write the template.
    Generate { contents: String },
    /// The file has content and `force` was given: replace it with the template.
    Overwrite { contents: String },
    /// The file already has every pattern of the template: leave it.
    AlreadyComplete,
    /// Write the file with the template's new patterns appended.
    Merge { contents: String, added: usize },
}

impl NewGitignorePlan {
    /// The contents of the file once the plan is carried out.
    pub open spec fn contents_after(self, existing: Seq<char>) -> Seq<char> {
        match self {
            NewGitignorePlan::Generate { contents } => contents@,
            NewGitignorePlan::Overwrite { contents } => contents@,
            NewGitignorePlan::AlreadyComplete => existing,
            NewGitignorePlan::Merge { contents, .. } => contents@,
        }
    }
}

// ---------------------------------------------------------------------------
// Executable functions
// ---------------------------------------------------------------------------

/// Is `cs` empty or made of whitespace only?
pub fn blank_chars(cs: &[char]) -> (r: bool)
    ensures
        r == is_blank(cs@),
{
    let (b, e) = trim_bounds(cs);
    b == e
}

/// Decides what creating `.gitignore` from `template` does to a file holding
/// `existing` (empty when there is no file): merge into it unless `force` is
/// set, in which case the file is replaced.
pub fn plan_new_gitignore(existing: &str, template: &str, presets: &[String], force: bool) -> (plan:
    NewGitignorePlan)
    ensures
        plan.contents_after(existing@) == planned_contents(existing@, template@, strs_of(presets@), force),
        is_blank(existing@) <==> plan is Generate,
        plan is Overwrite <==> (force && !is_blank(existing@)),
        plan is AlreadyComplete <==> (!force && !is_blank(existing@) && merge_model(existing@, template@).added == 0),
        plan matches NewGitignorePlan::Merge { added, .. } ==> added == merge_model(existing@, template@).added
            && added > 0,
{
    let ecs = chars_of(existing);
    let blank = blank_chars(ecs.as_slice());
    if blank {
        return NewGitignorePlan::Generate { contents: string_of(chars_of(template).as_slice()) };
    }
    if force {
        return NewGitignorePlan::Overwrite { contents: string_of(chars_of(template).as_slice()) };
    }
    let (block, added) = merge_addition(existing, template, presets);
    if added == 0 {
        return NewGitignorePlan::AlreadyComplete;
    }
    let ghost e = existing@;
    let mut out = ecs;
    let n: usize = out.len();
    if n == 0 {
        assert(trim_end(e) =~= e);
        assert(trim_start(e) =~= e);
    }
    if !(n > 0 && out[n - 1] == '\n') {
        assert(e.skip(n - 1) =~= seq![e[n - 1]]);
        assert(e.skip(n - 1)[0] != '\n');
        out.push('\n');
    } else {
        assert(e.skip(n - 1) =~= seq!['\n']);
    }
    assert(out@ == with_final_newline(existing@));
    out.push('\n');
    let bcs = chars_of(block.as_str());
    push_all(&mut out, bcs.as_slice());
    NewGitignorePlan::Merge { contents: string_of(out.as_slice()), added }
}

/// Is `pattern`, trimmed, one of the trimmed lines of `contents`?
pub fn is_pattern_listed(contents: &str, pattern: &str) -> (r: bool)
    ensures
        r == pattern_listed(contents@, pattern@),
{
    let pcs = chars_of(pattern);
    let want = trim_chars(pcs.as_slice());
    let ccs = chars_of(contents);
    let ls = split_lines(ccs.as_slice());
    let mut k: usize = 0;
    while k < ls.len()
        invariant
            k <= ls@.len(),
            seqs_of(ls@) == lines(contents@),
            want@ == trim(pattern@),
            forall|j: int| 0 <= j < k ==> trim(#[trigger] lines(contents@)[j]) != trim(pattern@),
        decreases ls@.len() - k,
    {
        let t = trim_chars(ls[k].as_slice());
        assert(lines(contents@)[k as int] == ls@[k as int]@);
        if chars_equal(t.as_slice(), want.as_slice()) {
            return true;
        }
        k = k + 1;
    }
    false
}

/// What adding `pattern` to a `.gitignore` holding `existing` (empty when
/// there is no file) appends: `None` when the pattern is already there.
pub fn pattern_addition(existing: &str, pattern: &str) -> (r: Option<String>)
    ensures
        r is None <==> pattern_listed(existing@, pattern@),
        r matches Some(t) ==> t@ == pattern_append_text(existing@, pattern@),
{
    if is_pattern_listed(existing, pattern) {
        return None;
    }
    let ecs = chars_of(existing);
    let mut out: Vec<char> = Vec::new();
    if ecs.len() > 0 && ecs[ecs.len() - 1] != '\n' {
        out.push('\n');
    }
    let pcs = chars_of(pattern);
    push_all(&mut out, pcs.as_slice());
    out.push('\n');
    assert(out@ =~= pattern_append_text(existing@, pattern@));
    Some(string_of(out.as_slice()))
}

} // verus!
