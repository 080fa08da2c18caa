//! Laws of preset parsing: parsing its own result changes nothing, and
//! joining the arguments with commas first changes nothing either.

use vstd::prelude::*;
use crate::presets::{
    dedup_ignore_case, eq_ignore_ascii_case, law_presets_cover, law_presets_distinct, nonblank_trimmed,
    preset_pieces, presets_of,
};
use crate::text::{
    is_ws, join, lemma_prefix_len, lemma_prefix_len_at, lemma_trim_end, lemma_trim_start, prefix_len, split_on,
    trim, trim_end, trim_start,
};

verus! {

/// A preset name as parsing gives it: not empty, trimmed, without a comma.
pub open spec fn clean_name(x: Seq<char>) -> bool {
    &&& x.len() > 0
    &&& trim(x) == x
    &&& forall|j: int| 0 <= j < x.len() ==> x[j] != ','
}

/// Names that are pairwise different without regard to ASCII case are kept as they are.
proof fn lemma_dedup_of_distinct(s: Seq<Seq<char>>)
    requires
        forall|i: int, j: int| 0 <= i < j < s.len() ==> !eq_ignore_ascii_case(#[trigger] s[i], #[trigger] s[j]),
    ensures
        dedup_ignore_case(s) == s,
    decreases s.len(),
{
    if s.len() > 0 {
        let front = s.drop_last();
        assert forall|i: int, j: int| 0 <= i < j < front.len() implies !eq_ignore_ascii_case(
            #[trigger] front[i],
            #[trigger] front[j],
        ) by {
            assert(front[i] == s[i] && front[j] == s[j]);
        }
        lemma_dedup_of_distinct(front);
        assert forall|k: int| 0 <= k < front.len() implies !eq_ignore_ascii_case(#[trigger] front[k], s.last()) by {
            assert(front[k] == s[k]);
            assert(s.last() == s[s.len() - 1]);
        }
        assert(front.push(s.last()) =~= s);
    }
}

/// Trimming twice trims no more than once; a trimmed piece is a part of the
/// original without whitespace at its ends.
proof fn lemma_trim(p: Seq<char>)
    ensures
        trim(trim(p)) == trim(p),
        trim(p).len() <= p.len(),
        trim(p).len() <= trim_end(p).len() <= p.len(),
        forall|j: int| 0 <= j < trim(p).len() ==> #[trigger] trim(p)[j] == p[trim_end(p).len() - trim(p).len() + j],
{
    let e = trim_end(p);
    let t = trim(p);
    lemma_trim_end(p);
    lemma_trim_start(e);
    let off = e.len() - t.len();
    assert forall|j: int| 0 <= j < t.len() implies #[trigger] t[j] == p[off + j] by {
        assert(t[j] == e[off + j]);
    }
    if t.len() > 0 {
        assert(t.last() == e.last());
        assert(!is_ws(t.last()));
        assert(trim_end(t) == t);
        assert(!is_ws(t[0]));
        assert(trim_start(t) == t);
    } else {
        assert(trim_end(t) == t);
        assert(trim_start(t) == t);
    }
}

/// The pieces of a split at `c` hold no `c`.
proof fn lemma_split_pieces_no_sep(s: Seq<char>, c: char)
    ensures
        forall|i: int, j: int| 0 <= i < split_on(s, c).len() && 0 <= j < split_on(s, c)[i].len() ==> #[trigger] split_on(s, c)[i][j] != c,
    decreases s.len(),
{
    lemma_prefix_len(s, c);
    let k = prefix_len(s, c);
    let p = split_on(s, c);
    if k < s.len() {
        let tail = s.skip(k as int + 1);
        lemma_split_pieces_no_sep(tail, c);
        let rest = split_on(tail, c);
        assert forall|i: int, j: int| 0 <= i < p.len() && 0 <= j < p[i].len() implies #[trigger] p[i][j] != c by {
            if i > 0 {
                assert(p[i] == rest[i - 1]);
            } else {
                assert(p[0] == s.take(k as int));
                assert(p[0][j] == s[j]);
            }
        }
    } else {
        assert forall|i: int, j: int| 0 <= i < p.len() && 0 <= j < p[i].len() implies #[trigger] p[i][j] != c by {
            assert(p[i] == s);
        }
    }
}

/// Trimmed non-blank pieces without commas are clean names.
proof fn lemma_nonblank_trimmed_clean(pieces: Seq<Seq<char>>)
    requires
        forall|i: int, j: int| 0 <= i < pieces.len() && 0 <= j < pieces[i].len() ==> #[trigger] pieces[i][j] != ',',
    ensures
        forall|i: int| 0 <= i < nonblank_trimmed(pieces).len() ==> clean_name(#[trigger] nonblank_trimmed(pieces)[i]),
    decreases pieces.len(),
{
    if pieces.len() > 0 {
        let front = pieces.drop_last();
        assert forall|i: int, j: int| 0 <= i < front.len() && 0 <= j < front[i].len() implies #[trigger] front[i][j] != ',' by {
            assert(front[i] == pieces[i]);
        }
        lemma_nonblank_trimmed_clean(front);
        let p = pieces.last();
        let t = trim(p);
        lemma_trim(p);
        if t.len() > 0 {
            let off = trim_end(p).len() - t.len();
            assert forall|j: int| 0 <= j < t.len() implies t[j] != ',' by {
                assert(t[j] == p[off + j]);
                assert(pieces[pieces.len() - 1][off + j] != ',');
            }
        }
        let nb = nonblank_trimmed(pieces);
        let prev = nonblank_trimmed(front);
        assert forall|i: int| 0 <= i < nb.len() implies clean_name(#[trigger] nb[i]) by {
            if i < prev.len() {
                assert(nb[i] == prev[i]);
            } else {
                assert(nb[i] == t);
            }
        }
    }
}

/// Every piece that the arguments give is a clean name.
proof fn lemma_pieces_clean(args: Seq<Seq<char>>)
    ensures
        forall|i: int| 0 <= i < preset_pieces(args).len() ==> clean_name(#[trigger] preset_pieces(args)[i]),
    decreases args.len(),
{
    if args.len() > 0 {
        lemma_pieces_clean(args.drop_last());
        lemma_split_pieces_no_sep(args.last(), ',');
        lemma_nonblank_trimmed_clean(split_on(args.last(), ','));
        let a = preset_pieces(args.drop_last());
        let b = nonblank_trimmed(split_on(args.last(), ','));
        assert forall|i: int| 0 <= i < preset_pieces(args).len() implies clean_name(#[trigger] preset_pieces(args)[i]) by {
            if i < a.len() {
                assert(preset_pieces(args)[i] == a[i]);
            } else {
                assert(preset_pieces(args)[i] == b[i - a.len()]);
            }
        }
    }
}

/// Clean names, given as arguments, are their own pieces.
proof fn lemma_pieces_of_clean(names: Seq<Seq<char>>)
    requires
        forall|i: int| 0 <= i < names.len() ==> clean_name(#[trigger] names[i]),
    ensures
        preset_pieces(names) == names,
    decreases names.len(),
{
    if names.len() > 0 {
        let front = names.drop_last();
        assert forall|i: int| 0 <= i < front.len() implies clean_name(#[trigger] front[i]) by {
            assert(front[i] == names[i]);
        }
        lemma_pieces_of_clean(front);
        let x = names.last();
        assert(clean_name(names[names.len() - 1]));
        lemma_prefix_len_at(x, ',', x.len() as int);
        assert(split_on(x, ',') == seq![x]);
        assert(seq![x].drop_last() =~= Seq::<Seq<char>>::empty());
        assert(seq![x].last() == x);
        assert(nonblank_trimmed(Seq::<Seq<char>>::empty()) == Seq::<Seq<char>>::empty());
        assert(trim(x) == x);
        assert(nonblank_trimmed(seq![x]) =~= seq![x]);
        assert(front + seq![x] =~= names);
    }
}

/// Parsing the presets that parsing gave returns them unchanged.
pub proof fn law_presets_idempotent(args: Seq<Seq<char>>)
    ensures
        presets_of(presets_of(args)) == presets_of(args),
{
    let pieces = preset_pieces(args);
    let p = presets_of(args);
    lemma_pieces_clean(args);
    law_presets_cover(pieces);
    assert forall|i: int| 0 <= i < p.len() implies clean_name(#[trigger] p[i]) by {
        assert(pieces.contains(p[i]));
    }
    lemma_pieces_of_clean(p);
    assert forall|i: int, j: int| 0 <= i < j < p.len() implies !eq_ignore_ascii_case(#[trigger] p[i], #[trigger] p[j]) by {
        law_presets_distinct(pieces, i, j);
    }
    lemma_dedup_of_distinct(p);
}

/// A split at `c` of two texts joined by `c` is the splits of each.
pub proof fn lemma_split_on_joined(a: Seq<char>, b: Seq<char>, c: char)
    ensures
        split_on(a + seq![c] + b, c) == split_on(a, c) + split_on(b, c),
    decreases a.len(),
{
    let s = a + seq![c] + b;
    lemma_prefix_len(a, c);
    let k = prefix_len(a, c);
    if k < a.len() {
        lemma_prefix_len_at(s, c, k as int);
        assert(s.take(k as int) =~= a.take(k as int));
        assert(s.skip(k as int + 1) =~= a.skip(k as int + 1) + seq![c] + b);
        lemma_split_on_joined(a.skip(k as int + 1), b, c);
    } else {
        lemma_prefix_len_at(s, c, a.len() as int);
        assert(s.take(a.len() as int) =~= a);
        assert(s.skip(a.len() as int + 1) =~= b);
    }
}

pub proof fn lemma_nonblank_trimmed_append(x: Seq<Seq<char>>, y: Seq<Seq<char>>)
    ensures
        nonblank_trimmed(x + y) == nonblank_trimmed(x) + nonblank_trimmed(y),
    decreases y.len(),
{
    if y.len() == 0 {
        assert(x + y =~= x);
        assert(nonblank_trimmed(x) + nonblank_trimmed(y) =~= nonblank_trimmed(x));
    } else {
        lemma_nonblank_trimmed_append(x, y.drop_last());
        assert((x + y).drop_last() =~= x + y.drop_last());
        assert((x + y).last() == y.last());
        if trim(y.last()).len() > 0 {
            assert(nonblank_trimmed(x + y) =~= nonblank_trimmed(x) + nonblank_trimmed(y));
        } else {
            assert(nonblank_trimmed(x + y) =~= nonblank_trimmed(x) + nonblank_trimmed(y));
        }
    }
}

/// The pieces of one argument.
proof fn lemma_pieces_single(s: Seq<char>)
    ensures
        preset_pieces(seq![s]) == nonblank_trimmed(split_on(s, ',')),
{
    assert(seq![s].drop_last() =~= Seq::<Seq<char>>::empty());
    assert(preset_pieces(Seq::<Seq<char>>::empty()) + nonblank_trimmed(split_on(s, ',')) =~= nonblank_trimmed(
        split_on(s, ','),
    ));
}

/// Joining the arguments with commas into one argument gives the same presets.
pub proof fn law_presets_join_insensitive(args: Seq<Seq<char>>)
    ensures
        presets_of(seq![join(args, ","@)]) == presets_of(args),
{
    lemma_pieces_join(args);
}

/// The pieces of the arguments joined by commas are the pieces of the arguments.
proof fn lemma_pieces_join(args: Seq<Seq<char>>)
    ensures
        preset_pieces(seq![join(args, ","@)]) == preset_pieces(args),
    decreases args.len(),
{
    reveal_strlit(",");
    let j = join(args, ","@);
    lemma_pieces_single(j);
    if args.len() == 0 {
        lemma_prefix_len_at(j, ',', 0);
        assert(split_on(j, ',') == seq![j]);
        assert(seq![j].drop_last() =~= Seq::<Seq<char>>::empty());
        assert(trim_end(j) == j);
        assert(trim(j) == j);
        assert(seq![j].last() == j);
        assert(nonblank_trimmed(Seq::<Seq<char>>::empty()) == Seq::<Seq<char>>::empty());
        assert(trim(j).len() == 0);
        assert(nonblank_trimmed(seq![j]) =~= Seq::<Seq<char>>::empty());
    } else if args.len() == 1 {
        assert(args.drop_last() =~= Seq::<Seq<char>>::empty());
        assert(args.last() == args[0]);
        assert(preset_pieces(args) =~= preset_pieces(Seq::<Seq<char>>::empty()) + nonblank_trimmed(split_on(args[0], ',')));
    } else {
        let front = args.drop_last();
        lemma_pieces_join(front);
        let jf = join(front, ","@);
        lemma_pieces_single(jf);
        assert(","@ =~= seq![',']);
        assert(j == jf + seq![','] + args.last());
        lemma_split_on_joined(jf, args.last(), ',');
        lemma_nonblank_trimmed_append(split_on(jf, ','), split_on(args.last(), ','));
    }
}

} // verus!
