//! Character-level text utilities and their mathematical models.
//!
//! Text is modelled as `Seq<char>`, the view of `str` and `String`.
//! The models follow the documented behaviour of `char::is_whitespace`,
//! `str::trim`, `str::trim_end`, `str::split` and `str::lines`.

use vstd::prelude::*;

verus! {

// ---------------------------------------------------------------------------
// Models
// ---------------------------------------------------------------------------

/// Unicode `White_Space`: the characters for which `char::is_whitespace` holds.
pub open spec fn is_ws(c: char) -> bool {
    ||| '\t' <= c <= '\r'
    ||| c == ' '
    ||| c == '\u{85}'
    ||| c == '\u{a0}'
    ||| c == '\u{1680}'
    ||| '\u{2000}' <= c <= '\u{200a}'
    ||| c == '\u{2028}'
    ||| c == '\u{2029}'
    ||| c == '\u{202f}'
    ||| c == '\u{205f}'
    ||| c == '\u{3000}'
}

/// `s` without its trailing whitespace (`str::trim_end`).
pub open spec fn trim_end(s: Seq<char>) -> Seq<char>
    decreases s.len(),
{
    if s.len() > 0 && is_ws(s.last()) {
        trim_end(s.drop_last())
    } else {
        s
    }
}

/// `s` without its leading whitespace (`str::trim_start`).
pub open spec fn trim_start(s: Seq<char>) -> Seq<char>
    decreases s.len(),
{
    if s.len() > 0 && is_ws(s[0]) {
        trim_start(s.drop_first())
    } else {
        s
    }
}

/// `s` without leading and trailing whitespace (`str::trim`).
pub open spec fn trim(s: Seq<char>) -> Seq<char> {
    trim_start(trim_end(s))
}

/// Does `s` end with `suffix`?
pub open spec fn ends_with(s: Seq<char>, suffix: Seq<char>) -> bool {
    suffix.len() <= s.len() && s.skip(s.len() - suffix.len()) == suffix
}

/// Does `needle` occur somewhere in `s`?
pub open spec fn contains_seq(s: Seq<char>, needle: Seq<char>) -> bool {
    exists|i: int| 0 <= i <= s.len() - needle.len() && #[trigger] s.subrange(i, i + needle.len()) == needle
}

/// Number of leading characters of `s` that differ from `c`.
pub open spec fn prefix_len(s: Seq<char>, c: char) -> nat
    decreases s.len(),
{
    if s.len() == 0 || s[0] == c {
        0
    } else {
        1 + prefix_len(s.drop_first(), c)
    }
}

/// The pieces of `s` between occurrences of `c` (`str::split` with a `char`):
/// there is always one piece more than occurrences of `c`.
pub open spec fn split_on(s: Seq<char>, c: char) -> Seq<Seq<char>>
    decreases s.len(),
{
    let k = prefix_len(s, c);
    if k >= s.len() {
        seq![s]
    } else {
        seq![s.take(k as int)] + split_on(s.skip(k as int + 1), c)
    }
}

/// `s` without one trailing carriage return, if it has one.
pub open spec fn strip_cr(s: Seq<char>) -> Seq<char> {
    if s.len() > 0 && s.last() == '\r' {
        s.drop_last()
    } else {
        s
    }
}

/// The lines of `s` (`str::lines`): split at `\n`, a `\r` right before a `\n`
/// belongs to the line ending, and a final line ending adds no empty line.
pub open spec fn lines(s: Seq<char>) -> Seq<Seq<char>>
    decreases s.len(),
{
    if s.len() == 0 {
        seq![]
    } else {
        let k = prefix_len(s, '\n');
        if k >= s.len() {
            seq![s]
        } else {
            seq![strip_cr(s.take(k as int))] + lines(s.skip(k as int + 1))
        }
    }
}

/// `parts` joined with `sep` between neighbours (`[T]::join`).
pub open spec fn join(parts: Seq<Seq<char>>, sep: Seq<char>) -> Seq<char>
    decreases parts.len(),
{
    if parts.len() == 0 {
        seq![]
    } else if parts.len() == 1 {
        parts[0]
    } else {
        join(parts.drop_last(), sep) + sep + parts.last()
    }
}

/// Each of `parts` followed by a line feed, all concatenated.
pub open spec fn terminated(parts: Seq<Seq<char>>) -> Seq<char>
    decreases parts.len(),
{
    if parts.len() == 0 {
        seq![]
    } else {
        terminated(parts.drop_last()) + parts.last() + seq!['\n']
    }
}

/// The views of a sequence of character vectors.
pub open spec fn seqs_of(v: Seq<Vec<char>>) -> Seq<Seq<char>> {
    v.map_values(|x: Vec<char>| x@)
}

/// The views of a sequence of strings.
pub open spec fn strs_of(v: Seq<String>) -> Seq<Seq<char>> {
    v.map_values(|x: String| x@)
}

/// The decimal digits of `n`, most significant first, without leading zeros.
pub open spec fn decimal(n: nat) -> Seq<char>
    decreases n,
{
    if n < 10 {
        seq![digit_char(n)]
    } else {
        decimal(n / 10).push(digit_char(n % 10))
    }
}

/// The character of a decimal digit.
pub open spec fn digit_char(d: nat) -> char {
    if d == 0 { '0' }
    else if d == 1 { '1' }
    else if d == 2 { '2' }
    else if d == 3 { '3' }
    else if d == 4 { '4' }
    else if d == 5 { '5' }
    else if d == 6 { '6' }
    else if d == 7 { '7' }
    else if d == 8 { '8' }
    else { '9' }
}

// ---------------------------------------------------------------------------
// Lemmas
// ---------------------------------------------------------------------------

/// What `prefix_len` counts: the first `prefix_len` characters differ from `c`,
/// and the character after them, if any, is `c`.
pub proof fn lemma_prefix_len(s: Seq<char>, c: char)
    ensures
        prefix_len(s, c) <= s.len(),
        forall|j: int| 0 <= j < prefix_len(s, c) ==> s[j] != c,
        prefix_len(s, c) < s.len() ==> s[prefix_len(s, c) as int] == c,
    decreases s.len(),
{
    if s.len() > 0 && s[0] != c {
        lemma_prefix_len(s.drop_first(), c);
        assert forall|j: int| 0 <= j < prefix_len(s, c) implies s[j] != c by {
            if j > 0 {
                assert(s[j] == s.drop_first()[j - 1]);
            }
        }
    }
}

/// `prefix_len` is the position of the first `c`, or the length when there is none.
pub proof fn lemma_prefix_len_at(s: Seq<char>, c: char, k: int)
    requires
        0 <= k <= s.len(),
        forall|j: int| 0 <= j < k ==> s[j] != c,
        k == s.len() || s[k] == c,
    ensures
        prefix_len(s, c) == k,
{
    lemma_prefix_len(s, c);
    let p = prefix_len(s, c) as int;
    if p < k {
        assert(s[p] == c);
    } else if p > k {
        assert(s[k] != c);
    }
}

/// The last character of `trim_end(s)`, if any, is not whitespace, and it is a prefix of `s`.
pub proof fn lemma_trim_end(s: Seq<char>)
    ensures
        trim_end(s).len() <= s.len(),
        trim_end(s) == s.take(trim_end(s).len() as int),
        trim_end(s).len() > 0 ==> !is_ws(trim_end(s).last()),
        forall|j: int| trim_end(s).len() <= j < s.len() ==> is_ws(#[trigger] s[j]),
    decreases s.len(),
{
    if s.len() > 0 && is_ws(s.last()) {
        lemma_trim_end(s.drop_last());
        assert(s.drop_last().take(trim_end(s).len() as int) =~= s.take(trim_end(s).len() as int));
        assert forall|j: int| trim_end(s).len() <= j < s.len() implies is_ws(#[trigger] s[j]) by {
            if j < s.len() - 1 {
                assert(s[j] == s.drop_last()[j]);
            }
        }
    } else {
        assert(s.take(s.len() as int) =~= s);
    }
}

/// Trimming the end twice is trimming it once.
pub proof fn lemma_trim_end_idempotent(s: Seq<char>)
    ensures
        trim_end(trim_end(s)) == trim_end(s),
{
    lemma_trim_end(s);
}

/// `trim_end` of a sequence of only whitespace is empty.
pub proof fn lemma_trim_end_all_ws(s: Seq<char>)
    requires
        forall|j: int| 0 <= j < s.len() ==> is_ws(#[trigger] s[j]),
    ensures
        trim_end(s).len() == 0,
    decreases s.len(),
{
    if s.len() > 0 {
        assert(is_ws(s[s.len() - 1]));
        lemma_trim_end_all_ws(s.drop_last());
    }
}

/// `trim_start(t)` is a suffix of `t` that starts with a non-space, unless it is empty.
pub proof fn lemma_trim_start(s: Seq<char>)
    ensures
        trim_start(s).len() <= s.len(),
        trim_start(s) == s.skip(s.len() - trim_start(s).len()),
        trim_start(s).len() > 0 ==> !is_ws(trim_start(s)[0]),
        forall|j: int| 0 <= j < s.len() - trim_start(s).len() ==> is_ws(#[trigger] s[j]),
    decreases s.len(),
{
    if s.len() > 0 && is_ws(s[0]) {
        lemma_trim_start(s.drop_first());
        assert(s.drop_first().skip(s.drop_first().len() - trim_start(s).len()) =~= s.skip(
            s.len() - trim_start(s).len(),
        ));
        assert forall|j: int| 0 <= j < s.len() - trim_start(s).len() implies is_ws(#[trigger] s[j]) by {
            if j > 0 {
                assert(s[j] == s.drop_first()[j - 1]);
            }
        }
    } else {
        assert(s.skip(0) =~= s);
    }
}

/// Appending a line feed to a text that does not end with one keeps its
/// lines, except that the last loses a carriage return at its end.
pub proof fn lemma_lines_newline_appended(s: Seq<char>)
    requires
        s.len() > 0,
        s.last() != '\n',
    ensures
        lines(s).len() > 0,
        lines(s.push('\n')) == lines(s).update(lines(s).len() - 1, strip_cr(lines(s).last())),
    decreases s.len(),
{
    let t = s.push('\n');
    lemma_prefix_len(s, '\n');
    lemma_prefix_len(t, '\n');
    let k = prefix_len(s, '\n');
    if k >= s.len() {
        lemma_prefix_len_at(t, '\n', s.len() as int);
        assert(t.take(s.len() as int) =~= s);
        assert(t.skip(s.len() as int + 1).len() == 0);
        assert(lines(t.skip(s.len() as int + 1)) == Seq::<Seq<char>>::empty());
        assert(lines(t) =~= seq![strip_cr(s)]);
        assert(lines(s) =~= seq![s]);
        assert(lines(t) =~= lines(s).update(0, strip_cr(s)));
    } else {
        lemma_prefix_len_at(t, '\n', k as int);
        assert(t.take(k as int) =~= s.take(k as int));
        assert(t.skip(k as int + 1) =~= s.skip(k as int + 1).push('\n'));
        let r = s.skip(k as int + 1);
        if r.len() > 0 {
            assert(r.last() == s.last());
            lemma_lines_newline_appended(r);
            assert(lines(s) =~= seq![strip_cr(s.take(k as int))] + lines(r));
            assert(lines(t) =~= seq![strip_cr(s.take(k as int))] + lines(r.push('\n')));
            assert(lines(t) =~= lines(s).update(lines(s).len() - 1, strip_cr(lines(s).last())));
        } else {
            assert(s.last() == '\n');
        }
    }
}

/// Lines of a text that ends with a line feed, followed by more text.
pub proof fn lemma_lines_append(a: Seq<char>, b: Seq<char>)
    requires
        a.len() == 0 || a.last() == '\n',
    ensures
        lines(a + b) == lines(a) + lines(b),
    decreases a.len(),
{
    if a.len() == 0 {
        assert(a + b =~= b);
        assert(lines(a) =~= Seq::<Seq<char>>::empty());
        assert(lines(a) + lines(b) =~= lines(b));
    } else {
        let ab = a + b;
        lemma_prefix_len(a, '\n');
        let k = prefix_len(a, '\n');
        assert(k < a.len());
        assert forall|j: int| 0 <= j < k implies ab[j] != '\n' by {
            assert(ab[j] == a[j]);
        }
        lemma_prefix_len_at(ab, '\n', k as int);
        assert(ab.take(k as int) =~= a.take(k as int));
        assert(ab.skip(k as int + 1) =~= a.skip(k as int + 1) + b);
        lemma_lines_append(a.skip(k as int + 1), b);
        assert(lines(ab) =~= seq![strip_cr(a.take(k as int))] + (lines(a.skip(k as int + 1)) + lines(b)));
    }
}

/// A line that sits between two line boundaries of a text is one of its lines.
pub proof fn lemma_line_present(x: Seq<char>, p: Seq<char>, y: Seq<char>)
    requires
        x.len() == 0 || x.last() == '\n',
        forall|j: int| 0 <= j < p.len() ==> p[j] != '\n',
    ensures
        lines(x + p + seq!['\n'] + y).contains(strip_cr(p)),
{
    let s = x + p + seq!['\n'] + y;
    assert(s =~= x + (p + seq!['\n'] + y));
    lemma_lines_append(x, p + seq!['\n'] + y);
    let t = p + seq!['\n'] + y;
    lemma_prefix_len_at(t, '\n', p.len() as int);
    assert(t.take(p.len() as int) =~= p);
    assert(lines(t)[0] == strip_cr(p));
    assert(lines(s)[lines(x).len() as int] == strip_cr(p));
}

// ---------------------------------------------------------------------------
// Executable functions
// ---------------------------------------------------------------------------

/// Appends one character to a string (`String::push`).
/// Claimed: the string afterwards is the old one with `c` added at its end.
#[verifier::external_body]
fn push_char(s: &mut String, c: char)
    ensures
        final(s)@ == old(s)@.push(c),
{
    s.push(c);
}

/// `char::is_whitespace`.
pub fn is_whitespace(c: char) -> (r: bool)
    ensures
        r == is_ws(c),
{
    ('\t' <= c && c <= '\r') || c == ' ' || c == '\u{85}' || c == '\u{a0}' || c == '\u{1680}' || (
    '\u{2000}' <= c && c <= '\u{200a}') || c == '\u{2028}' || c == '\u{2029}' || c == '\u{202f}'
        || c == '\u{205f}' || c == '\u{3000}'
}

/// The characters of `s`, in order.
pub fn chars_of(s: &str) -> (v: Vec<char>)
    ensures
        v@ == s@,
{
    let mut v: Vec<char> = Vec::new();
    for c in it: s.chars()
        invariant
            v@ == it.seq().take(it.index()),
            it.seq() == s@,
    {
        v.push(c);
    }
    v
}

/// A string holding exactly the characters `cs`.
pub fn string_of(cs: &[char]) -> (s: String)
    ensures
        s@ == cs@,
{
    let mut s = String::new();
    let mut i: usize = 0;
    while i < cs.len()
        invariant
            i <= cs@.len(),
            s@ == cs@.take(i as int),
        decreases cs@.len() - i,
    {
        push_char(&mut s, cs[i]);
        assert(cs@.take(i + 1) =~= cs@.take(i as int).push(cs@[i as int]));
        i = i + 1;
    }
    assert(cs@.take(cs@.len() as int) =~= cs@);
    s
}

/// Appends all of `cs` to `v`.
pub fn push_all(v: &mut Vec<char>, cs: &[char])
    ensures
        final(v)@ == old(v)@ + cs@,
{
    let mut i: usize = 0;
    while i < cs.len()
        invariant
            i <= cs@.len(),
            v@ == old(v)@ + cs@.take(i as int),
        decreases cs@.len() - i,
    {
        v.push(cs[i]);
        assert(cs@.take(i + 1) =~= cs@.take(i as int).push(cs@[i as int]));
        i = i + 1;
    }
    assert(cs@.take(cs@.len() as int) =~= cs@);
}

/// Appends the characters of `s` to `v`.
pub fn push_str(v: &mut Vec<char>, s: &str)
    ensures
        final(v)@ == old(v)@ + s@,
{
    let cs = chars_of(s);
    push_all(v, cs.as_slice());
}

/// The characters of `cs` from `from` up to `to`.
pub fn sub_chars(cs: &[char], from: usize, to: usize) -> (v: Vec<char>)
    requires
        from <= to <= cs@.len(),
    ensures
        v@ == cs@.subrange(from as int, to as int),
{
    let mut v: Vec<char> = Vec::new();
    let mut i: usize = from;
    while i < to
        invariant
            from <= i <= to <= cs@.len(),
            v@ == cs@.subrange(from as int, i as int),
        decreases to - i,
    {
        v.push(cs[i]);
        assert(cs@.subrange(from as int, i + 1) =~= cs@.subrange(from as int, i as int).push(
            cs@[i as int],
        ));
        i = i + 1;
    }
    v
}

/// Do `a` and `b` hold the same characters?
pub fn chars_equal(a: &[char], b: &[char]) -> (r: bool)
    ensures
        r == (a@ == b@),
{
    if a.len() != b.len() {
        return false;
    }
    let mut i: usize = 0;
    while i < a.len()
        invariant
            i <= a@.len() == b@.len(),
            forall|j: int| 0 <= j < i ==> a@[j] == b@[j],
        decreases a@.len() - i,
    {
        if a[i] != b[i] {
            return false;
        }
        i = i + 1;
    }
    assert(a@ =~= b@);
    true
}

/// The length of `cs` without its trailing whitespace.
pub fn trim_end_len(cs: &[char]) -> (e: usize)
    ensures
        e <= cs@.len(),
        cs@.take(e as int) == trim_end(cs@),
{
    let mut e: usize = cs.len();
    assert(cs@.take(e as int) =~= cs@);
    while e > 0 && is_whitespace(cs[e - 1])
        invariant
            e <= cs@.len(),
            trim_end(cs@) == trim_end(cs@.take(e as int)),
        decreases e,
    {
        assert(cs@.take(e as int).drop_last() =~= cs@.take(e - 1));
        e = e - 1;
    }
    e
}

/// The bounds of `cs` without leading and trailing whitespace.
pub fn trim_bounds(cs: &[char]) -> (r: (usize, usize))
    ensures
        r.0 <= r.1 <= cs@.len(),
        cs@.subrange(r.0 as int, r.1 as int) == trim(cs@),
{
    let e: usize = trim_end_len(cs);
    let ghost t = cs@.take(e as int);
    let mut b: usize = 0;
    assert(t.skip(0) =~= t);
    while b < e && is_whitespace(cs[b])
        invariant
            b <= e <= cs@.len(),
            t == cs@.take(e as int),
            trim_start(t) == trim_start(t.skip(b as int)),
        decreases e - b,
    {
        assert(t.skip(b as int).drop_first() =~= t.skip(b + 1));
        b = b + 1;
    }
    assert(t.skip(b as int) =~= cs@.subrange(b as int, e as int));
    (b, e)
}

/// `cs` without leading and trailing whitespace.
pub fn trim_chars(cs: &[char]) -> (v: Vec<char>)
    ensures
        v@ == trim(cs@),
{
    let (b, e) = trim_bounds(cs);
    sub_chars(cs, b, e)
}

/// The lines of `cs`, as `str::lines` splits them.
pub fn split_lines(cs: &[char]) -> (r: Vec<Vec<char>>)
    ensures
        seqs_of(r@) == lines(cs@),
{
    let mut out: Vec<Vec<char>> = Vec::new();
    let mut start: usize = 0;
    let mut i: usize = 0;
    assert(cs@.skip(0) =~= cs@);
    assert(seqs_of(out@) + lines(cs@) =~= lines(cs@));
    while i < cs.len()
        invariant
            start <= i <= cs@.len(),
            lines(cs@) == seqs_of(out@) + lines(cs@.skip(start as int)),
            forall|j: int| start <= j < i ==> cs@[j] != '\n',
        decreases cs@.len() - i,
    {
        if cs[i] == '\n' {
            let ghost t = cs@.skip(start as int);
            assert forall|j: int| 0 <= j < i - start implies t[j] != '\n' by {
                assert(t[j] == cs@[start + j]);
            }
            proof { lemma_prefix_len_at(t, '\n', i - start); }
            let mut piece = sub_chars(cs, start, i);
            assert(t.take(i - start) =~= piece@);
            if piece.len() > 0 && piece[piece.len() - 1] == '\r' {
                piece.pop();
            }
            assert(piece@ == strip_cr(t.take(i - start)));
            assert(t.skip(i - start + 1) =~= cs@.skip(i + 1));
            let ghost before = seqs_of(out@);
            out.push(piece);
            assert(seqs_of(out@) =~= before.push(strip_cr(t.take(i - start))));
            assert(lines(cs@) =~= seqs_of(out@) + lines(cs@.skip(i + 1)));
            start = i + 1;
        }
        i = i + 1;
    }
    let ghost t = cs@.skip(start as int);
    if start < cs.len() {
        assert forall|j: int| 0 <= j < t.len() implies t[j] != '\n' by {
            assert(t[j] == cs@[start + j]);
        }
        proof { lemma_prefix_len_at(t, '\n', t.len() as int); }
        let piece = sub_chars(cs, start, cs.len());
        assert(piece@ =~= t);
        let ghost before = seqs_of(out@);
        out.push(piece);
        assert(seqs_of(out@) =~= before.push(t));
        assert(lines(cs@) =~= seqs_of(out@));
    } else {
        assert(lines(cs@) =~= seqs_of(out@));
    }
    out
}

/// The pieces of `cs` between occurrences of `c`, as `str::split` gives them.
pub fn split_chars(cs: &[char], c: char) -> (r: Vec<Vec<char>>)
    ensures
        seqs_of(r@) == split_on(cs@, c),
{
    let mut out: Vec<Vec<char>> = Vec::new();
    let mut start: usize = 0;
    let mut i: usize = 0;
    assert(cs@.skip(0) =~= cs@);
    assert(seqs_of(out@) + split_on(cs@, c) =~= split_on(cs@, c));
    while i < cs.len()
        invariant
            start <= i <= cs@.len(),
            split_on(cs@, c) == seqs_of(out@) + split_on(cs@.skip(start as int), c),
            forall|j: int| start <= j < i ==> cs@[j] != c,
        decreases cs@.len() - i,
    {
        if cs[i] == c {
            let ghost t = cs@.skip(start as int);
            assert forall|j: int| 0 <= j < i - start implies t[j] != c by {
                assert(t[j] == cs@[start + j]);
            }
            proof { lemma_prefix_len_at(t, c, i - start); }
            let piece = sub_chars(cs, start, i);
            assert(t.take(i - start) =~= piece@);
            assert(t.skip(i - start + 1) =~= cs@.skip(i + 1));
            let ghost before = seqs_of(out@);
            out.push(piece);
            assert(seqs_of(out@) =~= before.push(t.take(i - start)));
            assert(split_on(cs@, c) =~= seqs_of(out@) + split_on(cs@.skip(i + 1), c));
            start = i + 1;
        }
        i = i + 1;
    }
    let ghost t = cs@.skip(start as int);
    assert forall|j: int| 0 <= j < t.len() implies t[j] != c by {
        assert(t[j] == cs@[start + j]);
    }
    proof { lemma_prefix_len_at(t, c, t.len() as int); }
    let piece = sub_chars(cs, start, cs.len());
    assert(piece@ =~= t);
    let ghost before = seqs_of(out@);
    out.push(piece);
    assert(seqs_of(out@) =~= before.push(t));
    assert(split_on(cs@, c) =~= seqs_of(out@));
    out
}

/// The decimal representation of `n`.
pub fn decimal_chars(n: usize) -> (v: Vec<char>)
    ensures
        v@ == decimal(n as nat),
    decreases n,
{
    let d: usize = n % 10;
    let c = if d == 0 { '0' }
        else if d == 1 { '1' }
        else if d == 2 { '2' }
        else if d == 3 { '3' }
        else if d == 4 { '4' }
        else if d == 5 { '5' }
        else if d == 6 { '6' }
        else if d == 7 { '7' }
        else if d == 8 { '8' }
        else { '9' };
    if n < 10 {
        let mut v = Vec::new();
        v.push(c);
        v
    } else {
        let mut v = decimal_chars(n / 10);
        v.push(c);
        v
    }
}

} // verus!
