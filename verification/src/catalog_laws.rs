//! The template cache gives back the names that were written to it.

use vstd::prelude::*;
use crate::catalog::{catalogue_names, newlines_as_commas};
use crate::presets::nonblank_trimmed;
use crate::text::{
    is_ws, join, lemma_lines_append, lemma_lines_newline_appended, lemma_prefix_len, lemma_prefix_len_at,
    lemma_trim_end, lemma_trim_start, lines, prefix_len, split_on, strip_cr, trim, trim_end, trim_start,
};

verus! {

/// A name that reads back as one line: not empty, with no line feed and no
/// trailing carriage return.
pub open spec fn one_line_name(s: Seq<char>) -> bool {
    &&& s.len() > 0
    &&& forall|j: int| 0 <= j < s.len() ==> s[j] != '\n'
    &&& s.last() != '\r'
}

/// The last character of names joined by a separator is that of the last name.
proof fn lemma_join_last(names: Seq<Seq<char>>, sep: Seq<char>)
    requires
        names.len() > 0,
        names.last().len() > 0,
    ensures
        join(names, sep).len() > 0,
        join(names, sep).last() == names.last().last(),
{
    if names.len() == 1 {
        assert(names[0] == names.last());
    } else {
        let front = join(names.drop_last(), sep) + sep;
        assert(join(names, sep) == front + names.last());
        assert((front + names.last()).last() == names.last().last());
    }
}

/// A line without line feed reads back as itself.
proof fn lemma_lines_single(s: Seq<char>)
    requires
        s.len() > 0,
        forall|j: int| 0 <= j < s.len() ==> s[j] != '\n',
    ensures
        lines(s) == seq![s],
{
    lemma_prefix_len_at(s, '\n', s.len() as int);
}

/// Names that each read back as one line, joined by line feeds, read back
/// as the same names: the lines of the cache file are the names written.
pub proof fn law_joined_names_read_back(names: Seq<Seq<char>>)
    requires
        forall|i: int| 0 <= i < names.len() ==> one_line_name(#[trigger] names[i]),
    ensures
        lines(join(names, "\n"@)) == names,
    decreases names.len(),
{
    if names.len() == 1 {
        lemma_lines_single(names[0]);
        assert(seq![names[0]] =~= names);
    } else if names.len() > 1 {
        let front = names.drop_last();
        let last = names.last();
        assert(one_line_name(names[names.len() - 1]));
        assert forall|i: int| 0 <= i < front.len() implies one_line_name(#[trigger] front[i]) by {
            assert(front[i] == names[i]);
        }
        law_joined_names_read_back(front);
        assert(one_line_name(names[names.len() - 2]));
        assert(front.last() == names[names.len() - 2]);
        lemma_join_last(front, "\n"@);
        let j = join(front, "\n"@);
        lemma_lines_newline_appended(j);
        assert(strip_cr(front.last()) == front.last());
        assert(lines(j.push('\n')) =~= front);
        reveal_strlit("\n");
        assert(j + "\n"@ =~= j.push('\n'));
        lemma_lines_append(j.push('\n'), last);
        lemma_lines_single(last);
        assert(join(names, "\n"@) == j.push('\n') + last);
        assert(front + seq![last] =~= names);
    }
}

/// The pieces of a split hold no character that the text does not hold.
proof fn lemma_split_on_pieces(s: Seq<char>, c: char, d: char)
    requires
        forall|j: int| 0 <= j < s.len() ==> s[j] != d,
    ensures
        forall|i: int, j: int| 0 <= i < split_on(s, c).len() && 0 <= j < split_on(s, c)[i].len() ==> #[trigger] split_on(s, c)[i][j] != d,
    decreases s.len(),
{
    lemma_prefix_len(s, c);
    let k = prefix_len(s, c);
    let p = split_on(s, c);
    if k < s.len() {
        let tail = s.skip(k as int + 1);
        lemma_split_on_pieces(tail, c, d);
        let rest = split_on(tail, c);
        assert forall|i: int, j: int| 0 <= i < p.len() && 0 <= j < p[i].len() implies #[trigger] p[i][j] != d by {
            if i > 0 {
                assert(p[i] == rest[i - 1]);
            } else {
                assert(p[0] == s.take(k as int));
                assert(p[0][j] == s[j]);
            }
        }
    } else {
        assert forall|i: int, j: int| 0 <= i < p.len() && 0 <= j < p[i].len() implies #[trigger] p[i][j] != d by {
            assert(p[i] == s);
        }
    }
}

/// Trimmed non-blank pieces with no line feed read back as one line each.
proof fn lemma_nonblank_trimmed_one_line(pieces: Seq<Seq<char>>)
    requires
        forall|i: int, j: int| 0 <= i < pieces.len() && 0 <= j < pieces[i].len() ==> #[trigger] pieces[i][j] != '\n',
    ensures
        forall|i: int| 0 <= i < nonblank_trimmed(pieces).len() ==> one_line_name(#[trigger] nonblank_trimmed(pieces)[i]),
    decreases pieces.len(),
{
    if pieces.len() > 0 {
        let front = pieces.drop_last();
        assert forall|i: int, j: int| 0 <= i < front.len() && 0 <= j < front[i].len() implies #[trigger] front[i][j] != '\n' by {
            assert(front[i] == pieces[i]);
        }
        lemma_nonblank_trimmed_one_line(front);
        let p = pieces.last();
        let t = trim(p);
        lemma_trim_end(p);
        lemma_trim_start(trim_end(p));
        if t.len() > 0 {
            let e = trim_end(p);
            let off = e.len() - t.len();
            assert forall|j: int| 0 <= j < t.len() implies t[j] != '\n' by {
                assert(t[j] == e[off + j]);
                assert(e[off + j] == p[off + j]);
                assert(pieces[pieces.len() - 1][off + j] != '\n');
            }
            assert(t.last() == e.last());
            assert(!is_ws(e.last()));
        }
        let nb = nonblank_trimmed(pieces);
        let prev = nonblank_trimmed(front);
        assert forall|i: int| 0 <= i < nb.len() implies one_line_name(#[trigger] nb[i]) by {
            if i < prev.len() {
                assert(nb[i] == prev[i]);
            } else {
                assert(nb[i] == t);
            }
        }
    }
}

/// The names that a catalogue lists, written to the cache one per line,
/// read back from it as the same names in the same order.
pub proof fn law_cache_round_trip(content: Seq<char>)
    ensures
        lines(join(catalogue_names(content), "\n"@)) == catalogue_names(content),
{
    let s = newlines_as_commas(content);
    assert forall|j: int| 0 <= j < s.len() implies s[j] != '\n' by {
        assert(s[j] == (if content[j] == '\n' { ',' } else { content[j] }));
    }
    lemma_split_on_pieces(s, ',', '\n');
    lemma_nonblank_trimmed_one_line(split_on(s, ','));
    law_joined_names_read_back(catalogue_names(content));
}

} // verus!
