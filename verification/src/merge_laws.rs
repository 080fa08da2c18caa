//! How the result of a merge depends on its inputs: on the existing file
//! only through its set of patterns, and on the presets only through the
//! heading line.

use vstd::prelude::*;
use crate::laws::lemma_terminated_append;
use crate::merge::{MergeModel, block_header, merge_block, merge_input, merge_model, merge_run, merge_start, merge_step};
use crate::rules::pattern_set;
use crate::text::terminated;

verus! {

/// A merge that knows more patterns adds no more of them.
proof fn lemma_merge_run_more_known(st1: MergeModel, st2: MergeModel, ls: Seq<Seq<char>>)
    requires
        st1.seen.subset_of(st2.seen),
        st2.added <= st1.added,
    ensures
        merge_run(st1, ls).seen.subset_of(merge_run(st2, ls).seen),
        merge_run(st2, ls).added <= merge_run(st1, ls).added,
    decreases ls.len(),
{
    if ls.len() > 0 {
        lemma_merge_run_more_known(st1, st2, ls.drop_last());
        let a = merge_run(st1, ls.drop_last());
        let b = merge_run(st2, ls.drop_last());
        let a2 = merge_step(a, ls.last());
        let b2 = merge_step(b, ls.last());
        assert(a2.seen.subset_of(b2.seen));
    }
}

/// Merging into files with the same patterns gives the same block and count,
/// whatever else the files hold (comments, blank lines, order, trailing
/// whitespace).
pub proof fn law_merge_depends_on_patterns_only(
    e1: Seq<char>,
    e2: Seq<char>,
    template: Seq<char>,
    presets: Seq<Seq<char>>,
)
    requires
        pattern_set(e1) == pattern_set(e2),
    ensures
        merge_block(e1, template, presets) == merge_block(e2, template, presets),
        merge_model(e1, template).added == merge_model(e2, template).added,
{
    assert(merge_start(e1) == merge_start(e2));
}

/// A file that already has more patterns gets no more patterns added.
pub proof fn law_more_patterns_fewer_additions(e1: Seq<char>, e2: Seq<char>, template: Seq<char>)
    requires
        pattern_set(e1).subset_of(pattern_set(e2)),
    ensures
        merge_model(e2, template).added <= merge_model(e1, template).added,
{
    lemma_merge_run_more_known(merge_start(e1), merge_start(e2), merge_input(template));
}

/// The lines of a merged block after its heading: they do not depend on the presets.
pub open spec fn merge_body(existing: Seq<char>, template: Seq<char>) -> Seq<char> {
    terminated(merge_model(existing, template).out)
}

/// The presets change only the heading line of the block: a non-empty block
/// is the heading, a line feed, and a body that does not depend on them.
pub proof fn law_presets_change_only_the_heading(existing: Seq<char>, template: Seq<char>, presets: Seq<Seq<char>>)
    ensures
        merge_model(existing, template).added != 0 ==> merge_block(existing, template, presets)
            == block_header(presets) + seq!['\n'] + merge_body(existing, template),
        merge_model(existing, template).added == 0 ==> merge_block(existing, template, presets) == Seq::<char>::empty(),
{
    let m = merge_model(existing, template);
    let head = seq![block_header(presets)];
    lemma_terminated_append(head, m.out);
    assert(head.drop_last() =~= Seq::<Seq<char>>::empty());
    assert(terminated(head.drop_last()) == Seq::<char>::empty());
    assert(head.last() == block_header(presets));
    assert(terminated(head) =~= block_header(presets) + seq!['\n']);
}

} // verus!
