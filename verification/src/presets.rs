//! Preset names given on the command line: comma-separated, trimmed, and
//! deduplicated without regard to ASCII case.

use vstd::prelude::*;
use crate::text::{chars_of, seqs_of, split_chars, split_on, string_of, strs_of, trim, trim_chars};

verus! {

// ---------------------------------------------------------------------------
// Models
// ---------------------------------------------------------------------------

/// The code of `c` after ASCII lowercasing (`char::to_ascii_lowercase`).
pub open spec fn ascii_lower(c: char) -> u32 {
    if 'A' <= c <= 'Z' {
        ((c as u32) + 32) as u32
    } else {
        c as u32
    }
}

/// `str::eq_ignore_ascii_case`: equal once ASCII letters are lowercased.
pub open spec fn eq_ignore_ascii_case(a: Seq<char>, b: Seq<char>) -> bool {
    a.len() == b.len() && forall|i: int| 0 <= i < a.len() ==> #[trigger] ascii_lower(a[i]) == ascii_lower(b[i])
}

/// The trimmed, non-empty pieces among `pieces`, in order.
pub open spec fn nonblank_trimmed(pieces: Seq<Seq<char>>) -> Seq<Seq<char>>
    decreases pieces.len(),
{
    if pieces.len() == 0 {
        seq![]
    } else {
        let prev = nonblank_trimmed(pieces.drop_last());
        let t = trim(pieces.last());
        if t.len() > 0 {
            prev.push(t)
        } else {
            prev
        }
    }
}

/// All preset names written in `args`: each argument split at commas,
/// each piece trimmed, blank pieces dropped.
pub open spec fn preset_pieces(args: Seq<Seq<char>>) -> Seq<Seq<char>>
    decreases args.len(),
{
    if args.len() == 0 {
        seq![]
    } else {
        preset_pieces(args.drop_last()) + nonblank_trimmed(split_on(args.last(), ','))
    }
}

/// `names` with every name dropped that equals an earlier one without regard to ASCII case.
pub open spec fn dedup_ignore_case(names: Seq<Seq<char>>) -> Seq<Seq<char>>
    decreases names.len(),
{
    if names.len() == 0 {
        seq![]
    } else {
        let d = dedup_ignore_case(names.drop_last());
        if exists|i: int| 0 <= i < d.len() && eq_ignore_ascii_case(#[trigger] d[i], names.last()) {
            d
        } else {
            d.push(names.last())
        }
    }
}

/// The presets that `args` name.
pub open spec fn presets_of(args: Seq<Seq<char>>) -> Seq<Seq<char>> {
    dedup_ignore_case(preset_pieces(args))
}

// ---------------------------------------------------------------------------
// Executable functions
// ---------------------------------------------------------------------------

/// `str::eq_ignore_ascii_case`, on characters.
pub fn chars_eq_ignore_ascii_case(a: &[char], b: &[char]) -> (r: bool)
    ensures
        r == eq_ignore_ascii_case(a@, b@),
{
    if a.len() != b.len() {
        return false;
    }
    let mut i: usize = 0;
    while i < a.len()
        invariant
            i <= a@.len() == b@.len(),
            forall|j: int| 0 <= j < i ==> #[trigger] ascii_lower(a@[j]) == ascii_lower(b@[j]),
        decreases a@.len() - i,
    {
        let x = a[i];
        let y = b[i];
        let lx: u32 = if 'A' <= x && x <= 'Z' { x as u32 + 32 } else { x as u32 };
        let ly: u32 = if 'A' <= y && y <= 'Z' { y as u32 + 32 } else { y as u32 };
        if lx != ly {
            assert(ascii_lower(a@[i as int]) != ascii_lower(b@[i as int]));
            return false;
        }
        i = i + 1;
    }
    true
}

/// Is some entry of `names` equal to `name` without regard to ASCII case?
fn contains_ignore_case(names: &Vec<Vec<char>>, name: &[char]) -> (r: bool)
    ensures
        r == exists|i: int| 0 <= i < names@.len() && eq_ignore_ascii_case(#[trigger] names@[i]@, name@),
{
    let mut i: usize = 0;
    while i < names.len()
        invariant
            i <= names@.len(),
            forall|j: int| 0 <= j < i ==> !eq_ignore_ascii_case(#[trigger] names@[j]@, name@),
        decreases names@.len() - i,
    {
        if chars_eq_ignore_ascii_case(names[i].as_slice(), name) {
            return true;
        }
        i = i + 1;
    }
    false
}

/// Splits comma-separated presets out of each argument, dropping repeats.
pub fn parse_presets(args: &[String]) -> (presets: Vec<String>)
    ensures
        strs_of(presets@) == presets_of(strs_of(args@)),
{
    let ghost argv = strs_of(args@);
    let mut presets: Vec<String> = Vec::new();
    let mut names: Vec<Vec<char>> = Vec::new();
    let ghost mut seen: Seq<Seq<char>> = seq![];
    let mut a: usize = 0;
    assert(argv.take(0) =~= Seq::<Seq<char>>::empty());
    assert(strs_of(presets@) =~= dedup_ignore_case(seen));
    while a < args.len()
        invariant
            a <= args@.len(),
            argv == strs_of(args@),
            seen == preset_pieces(argv.take(a as int)),
            strs_of(presets@) == dedup_ignore_case(seen),
            seqs_of(names@) == strs_of(presets@),
        decreases args@.len() - a,
    {
        let cs = chars_of(args[a].as_str());
        let pieces = split_chars(cs.as_slice(), ',');
        let ghost pv = seqs_of(pieces@);
        let ghost seen_before = seen;
        let mut i: usize = 0;
        assert(pv.take(0) =~= Seq::<Seq<char>>::empty());
        assert(seen_before + nonblank_trimmed(pv.take(0)) =~= seen_before);
        while i < pieces.len()
            invariant
                i <= pieces@.len(),
                pv == seqs_of(pieces@),
                seen == seen_before + nonblank_trimmed(pv.take(i as int)),
                strs_of(presets@) == dedup_ignore_case(seen),
                seqs_of(names@) == strs_of(presets@),
            decreases pieces@.len() - i,
        {
            let t = trim_chars(pieces[i].as_slice());
            assert(pv.take(i + 1).drop_last() =~= pv.take(i as int));
            assert(pv.take(i + 1).last() == pieces@[i as int]@);
            if t.len() > 0 {
                let ghost prev_seen = seen;
                proof {
                    seen = seen.push(t@);
                }
                assert(seen.drop_last() =~= prev_seen);
                assert(seen_before + nonblank_trimmed(pv.take(i + 1)) =~= seen);
                let found = contains_ignore_case(&names, t.as_slice());
                let ghost d = dedup_ignore_case(prev_seen);
                assert(seen.last() == t@);
                assert(forall|k: int| 0 <= k < names@.len() ==> names@[k]@ == #[trigger] d[k]);
                assert(names@.len() == d.len());
                if !found {
                    assert(!exists|k: int| 0 <= k < d.len() && eq_ignore_ascii_case(#[trigger] d[k], seen.last())) by {
                        if exists|k: int| 0 <= k < d.len() && eq_ignore_ascii_case(#[trigger] d[k], seen.last()) {
                            let k0 = choose|k: int| 0 <= k < d.len() && eq_ignore_ascii_case(#[trigger] d[k], seen.last());
                            assert(names@[k0]@ == d[k0]);
                        }
                    }
                    assert(dedup_ignore_case(seen) == d.push(t@));
                    let ghost pb = presets@;
                    let ghost nb = names@;
                    presets.push(string_of(t.as_slice()));
                    names.push(t);
                    assert(strs_of(presets@) =~= strs_of(pb).push(t@));
                    assert(seqs_of(names@) =~= seqs_of(nb).push(t@));
                } else {
                    proof {
                        let k0 = choose|k: int|
                            0 <= k < names@.len() && eq_ignore_ascii_case(#[trigger] names@[k]@, t@);
                        assert(eq_ignore_ascii_case(d[k0], seen.last()));
                    }
                    assert(dedup_ignore_case(seen) == d);
                }
            } else {
                assert(seen_before + nonblank_trimmed(pv.take(i + 1)) =~= seen);
            }
            i = i + 1;
        }
        assert(pv.take(pieces@.len() as int) =~= pv);
        assert(argv.take(a + 1).drop_last() =~= argv.take(a as int));
        assert(argv.take(a + 1).last() == cs@);
        a = a + 1;
    }
    assert(argv.take(args@.len() as int) =~= argv);
    presets
}

// ---------------------------------------------------------------------------
// Laws
// ---------------------------------------------------------------------------

/// No two presets that `parse_presets` returns are equal without regard to ASCII case.
pub proof fn law_presets_distinct(names: Seq<Seq<char>>, i: int, j: int)
    requires
        0 <= i < j < dedup_ignore_case(names).len(),
    ensures
        !eq_ignore_ascii_case(dedup_ignore_case(names)[i], dedup_ignore_case(names)[j]),
    decreases names.len(),
{
    let d = dedup_ignore_case(names.drop_last());
    if exists|k: int| 0 <= k < d.len() && eq_ignore_ascii_case(#[trigger] d[k], names.last()) {
        law_presets_distinct(names.drop_last(), i, j);
    } else if j < d.len() {
        law_presets_distinct(names.drop_last(), i, j);
    } else {
        assert(dedup_ignore_case(names)[i] == d[i]);
    }
}

/// Every preset written in the arguments is returned, up to ASCII case, and
/// every preset returned was written in the arguments.
pub proof fn law_presets_cover(names: Seq<Seq<char>>)
    ensures
        forall|k: int| #![trigger names[k]] 0 <= k < names.len() ==> exists|i: int|
            0 <= i < dedup_ignore_case(names).len() && eq_ignore_ascii_case(
                #[trigger] dedup_ignore_case(names)[i],
                names[k],
            ),
        forall|i: int| 0 <= i < dedup_ignore_case(names).len() ==> names.contains(
            #[trigger] dedup_ignore_case(names)[i],
        ),
    decreases names.len(),
{
    if names.len() > 0 {
        let prev = names.drop_last();
        law_presets_cover(prev);
        let d = dedup_ignore_case(prev);
        let r = dedup_ignore_case(names);
        assert forall|k: int| #![trigger names[k]] 0 <= k < names.len() implies exists|i: int|
            0 <= i < r.len() && eq_ignore_ascii_case(#[trigger] r[i], names[k]) by {
            if k < prev.len() {
                assert(names[k] == prev[k]);
                let i0 = choose|i: int| 0 <= i < d.len() && eq_ignore_ascii_case(#[trigger] d[i], prev[k]);
                assert(r[i0] == d[i0]);
            } else if exists|i: int| 0 <= i < d.len() && eq_ignore_ascii_case(#[trigger] d[i], names.last()) {
                let i0 = choose|i: int| 0 <= i < d.len() && eq_ignore_ascii_case(#[trigger] d[i], names.last());
                assert(r[i0] == d[i0]);
            } else {
                assert(r[d.len() as int] == names.last());
                assert(eq_ignore_ascii_case(r[d.len() as int], names[k]));
            }
        }
        assert forall|i: int| 0 <= i < r.len() implies names.contains(#[trigger] r[i]) by {
            if i < d.len() {
                assert(r[i] == d[i]);
                assert(prev.contains(d[i]));
                let k = choose|k: int| 0 <= k < prev.len() && prev[k] == d[i];
                assert(names[k] == prev[k]);
            } else {
                assert(names[names.len() - 1] == r[i]);
            }
        }
    }
}

/// The message when the arguments name no preset.
pub const NO_PRESET_MESSAGE: &'static str = "No preset given. Example: git-ignore new rust,go";

/// The presets that the arguments name, or the message that none is given.
pub fn requested_presets(args: &[String]) -> (r: Result<Vec<String>, String>)
    ensures
        r is Err <==> presets_of(strs_of(args@)).len() == 0,
        r matches Ok(presets) ==> strs_of(presets@) == presets_of(strs_of(args@)),
        r matches Err(message) ==> message@ == NO_PRESET_MESSAGE@,
{
    let presets = parse_presets(args);
    if presets.len() == 0 {
        Err(NO_PRESET_MESSAGE.to_owned())
    } else {
        Ok(presets)
    }
}

} // verus!
