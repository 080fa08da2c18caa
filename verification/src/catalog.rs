//! The gitignore.io template catalogue: request addresses, the list of
//! template names, its local cache, and the answer to a template request.

use vstd::prelude::*;
use crate::merge::join_chars;
use crate::presets::nonblank_trimmed;
use crate::text::{
    chars_equal, chars_of, contains_seq, decimal, decimal_chars, join, lines, push_all, push_str, seqs_of,
    split_chars, split_lines, split_on, string_of, strs_of, sub_chars, trim_chars,
};

verus! {

/// The gitignore.io API that templates are fetched from.
pub const GITIGNORE_API: &'static str = "https://www.toptal.com/developers/gitignore/api";

// ---------------------------------------------------------------------------
// Models
// ---------------------------------------------------------------------------

/// `s` with each line feed replaced by a comma.
pub open spec fn newlines_as_commas(s: Seq<char>) -> Seq<char> {
    s.map_values(|c: char| if c == '\n' { ',' } else { c })
}

/// The template names in a catalogue answer: the text split at commas and
/// line feeds, each piece trimmed, blank pieces dropped.
pub open spec fn catalogue_names(content: Seq<char>) -> Seq<Seq<char>> {
    nonblank_trimmed(split_on(newlines_as_commas(content), ','))
}

/// Is `c` one of the characters that frame an error line of the API?
pub open spec fn is_banner_char(c: char) -> bool {
    c == '#' || c == '!' || c == ' '
}

/// `s` without trailing banner characters.
pub open spec fn strip_banner_end(s: Seq<char>) -> Seq<char>
    decreases s.len(),
{
    if s.len() > 0 && is_banner_char(s.last()) {
        strip_banner_end(s.drop_last())
    } else {
        s
    }
}

/// `s` without leading banner characters.
pub open spec fn strip_banner_start(s: Seq<char>) -> Seq<char>
    decreases s.len(),
{
    if s.len() > 0 && is_banner_char(s[0]) {
        strip_banner_start(s.drop_first())
    } else {
        s
    }
}

/// `s` without banner characters at either end
/// (`str::trim_matches` with `#`, `!` and space).
pub open spec fn strip_banner(s: Seq<char>) -> Seq<char> {
    strip_banner_start(strip_banner_end(s))
}

/// The position of the first of `ls` that contains `ERROR:`.
pub open spec fn first_error_line(ls: Seq<Seq<char>>) -> Option<int> {
    if exists|k: int| 0 <= k < ls.len() && contains_seq(#[trigger] ls[k], "ERROR:"@) {
        Some(choose|k: int|
            0 <= k < ls.len() && contains_seq(#[trigger] ls[k], "ERROR:"@) && forall|j: int|
                0 <= j < k ==> !contains_seq(#[trigger] ls[j], "ERROR:"@))
    } else {
        None
    }
}

/// The message for a failed template request: the API's error line without
/// its frame, or, when there is none, a message naming the presets.
pub open spec fn fetch_error_message(content: Seq<char>, presets: Seq<Seq<char>>) -> Seq<char> {
    match first_error_line(lines(content)) {
        Some(k) => strip_banner(lines(content)[k]),
        None => "Preset '"@ + join(presets, ","@) + "' not found. Use 'git-ignore -l' to list available presets."@,
    }
}

/// The address of the template for `presets`.
pub open spec fn template_url_of(presets: Seq<Seq<char>>) -> Seq<char> {
    GITIGNORE_API@ + "/"@ + join(presets, ","@)
}

/// One listed template name per line, each indented by two spaces.
pub open spec fn listing_lines(names: Seq<Seq<char>>) -> Seq<char>
    decreases names.len(),
{
    if names.len() == 0 {
        seq![]
    } else {
        listing_lines(names.drop_last()) + "  "@ + names.last() + "\n"@
    }
}

/// The listing of the available templates: their count, then the names.
pub open spec fn template_listing_of(names: Seq<Seq<char>>) -> Seq<char> {
    "Available templates ("@ + decimal(names.len()) + "):\n"@ + listing_lines(names)
}

// ---------------------------------------------------------------------------
// Executable functions
// ---------------------------------------------------------------------------

/// The concatenation of `a` and `b`.
pub fn concat_str(a: &str, b: &str) -> (r: String)
    ensures
        r@ == a@ + b@,
{
    let mut v = chars_of(a);
    let w = chars_of(b);
    push_all(&mut v, w.as_slice());
    string_of(v.as_slice())
}

/// `parts` joined with `sep`.
pub fn join_strings(parts: &[String], sep: &str) -> (r: String)
    ensures
        r@ == join(strs_of(parts@), sep@),
{
    let v = join_chars(parts, sep);
    string_of(v.as_slice())
}

/// The presets as one comma-separated label for messages.
pub fn preset_label(presets: &[String]) -> (r: String)
    ensures
        r@ == join(strs_of(presets@), ", "@),
{
    join_strings(presets, ", ")
}

/// The address of the template for `presets`: all of them in a single request.
pub fn template_url(presets: &[String]) -> (r: String)
    ensures
        r@ == template_url_of(strs_of(presets@)),
{
    let names = join_strings(presets, ",");
    let base = concat_str(GITIGNORE_API, "/");
    concat_str(base.as_str(), names.as_str())
}

/// The address of the list of all template names.
pub fn template_list_url() -> (r: String)
    ensures
        r@ == GITIGNORE_API@ + "/list"@,
{
    concat_str(GITIGNORE_API, "/list")
}

/// Strings made of the trimmed, non-blank pieces.
fn keep_nonblank_trimmed(pieces: &Vec<Vec<char>>) -> (r: Vec<String>)
    ensures
        strs_of(r@) == nonblank_trimmed(seqs_of(pieces@)),
{
    let ghost pv = seqs_of(pieces@);
    let mut out: Vec<String> = Vec::new();
    let mut i: usize = 0;
    assert(pv.take(0) =~= Seq::<Seq<char>>::empty());
    assert(strs_of(out@) =~= Seq::<Seq<char>>::empty());
    while i < pieces.len()
        invariant
            i <= pieces@.len(),
            pv == seqs_of(pieces@),
            strs_of(out@) == nonblank_trimmed(pv.take(i as int)),
        decreases pieces@.len() - i,
    {
        let t = trim_chars(pieces[i].as_slice());
        assert(pv.take(i + 1).drop_last() =~= pv.take(i as int));
        assert(pv.take(i + 1).last() == pieces@[i as int]@);
        if t.len() > 0 {
            let ghost before = out@;
            out.push(string_of(t.as_slice()));
            assert(strs_of(out@) =~= strs_of(before).push(t@));
        }
        i = i + 1;
    }
    assert(pv.take(pieces@.len() as int) =~= pv);
    out
}

/// The template names in the API's list answer, which gives them comma-separated on lines.
pub fn parse_template_list(content: &str) -> (names: Vec<String>)
    ensures
        strs_of(names@) == catalogue_names(content@),
{
    let cs = chars_of(content);
    let mut mapped: Vec<char> = Vec::new();
    let mut i: usize = 0;
    while i < cs.len()
        invariant
            i <= cs@.len(),
            cs@ == content@,
            mapped@ == newlines_as_commas(cs@.take(i as int)),
        decreases cs@.len() - i,
    {
        let c = cs[i];
        mapped.push(if c == '\n' { ',' } else { c });
        assert(newlines_as_commas(cs@.take(i + 1)) =~= newlines_as_commas(cs@.take(i as int)).push(
            if c == '\n' { ',' } else { c },
        ));
        i = i + 1;
    }
    assert(cs@.take(cs@.len() as int) =~= cs@);
    let pieces = split_chars(mapped.as_slice(), ',');
    keep_nonblank_trimmed(&pieces)
}

/// The contents of the local cache of template names: one name per line.
pub fn template_cache_contents(names: &[String]) -> (r: String)
    ensures
        r@ == join(strs_of(names@), "\n"@),
{
    join_strings(names, "\n")
}

/// The template names read back from the local cache: its lines.
pub fn cached_template_names(content: &str) -> (names: Vec<String>)
    ensures
        strs_of(names@) == lines(content@),
{
    let cs = chars_of(content);
    let ls = split_lines(cs.as_slice());
    let ghost lv = seqs_of(ls@);
    let mut out: Vec<String> = Vec::new();
    let mut i: usize = 0;
    while i < ls.len()
        invariant
            i <= ls@.len(),
            lv == seqs_of(ls@),
            strs_of(out@) == lv.take(i as int),
        decreases ls@.len() - i,
    {
        let ghost before = out@;
        out.push(string_of(ls[i].as_slice()));
        assert(strs_of(out@) =~= strs_of(before).push(lv[i as int]));
        assert(lv.take(i + 1) =~= lv.take(i as int).push(lv[i as int]));
        i = i + 1;
    }
    assert(lv.take(ls@.len() as int) =~= lv);
    out
}

/// Does `s` contain `needle` at position `i`?
fn occurs_at(s: &[char], needle: &[char], i: usize) -> (r: bool)
    requires
        i + needle@.len() <= s@.len(),
    ensures
        r == (s@.subrange(i as int, i + needle@.len()) == needle@),
{
    let n: usize = s.len();
    assert(i + needle@.len() <= n);
    let piece = sub_chars(s, i, i + needle.len());
    chars_equal(piece.as_slice(), needle)
}

/// Does `s` contain `needle`?
fn contains_chars_seq(s: &[char], needle: &[char]) -> (r: bool)
    ensures
        r == contains_seq(s@, needle@),
{
    if needle.len() > s.len() {
        return false;
    }
    let last: usize = s.len() - needle.len();
    let mut i: usize = 0;
    while i <= last
        invariant
            last == s@.len() - needle@.len(),
            i <= last + 1,
            forall|j: int| 0 <= j < i ==> #[trigger] s@.subrange(j, j + needle@.len()) != needle@,
        decreases last + 1 - i,
    {
        if occurs_at(s, needle, i) {
            return true;
        }
        if i == last {
            return false;
        }
        i = i + 1;
    }
    false
}

/// `cs` without banner characters at either end.
fn strip_banner_chars(cs: &[char]) -> (v: Vec<char>)
    ensures
        v@ == strip_banner(cs@),
{
    let mut e: usize = cs.len();
    assert(cs@.take(e as int) =~= cs@);
    while e > 0 && (cs[e - 1] == '#' || cs[e - 1] == '!' || cs[e - 1] == ' ')
        invariant
            e <= cs@.len(),
            strip_banner_end(cs@) == strip_banner_end(cs@.take(e as int)),
        decreases e,
    {
        assert(cs@.take(e as int).drop_last() =~= cs@.take(e - 1));
        e = e - 1;
    }
    let ghost t = cs@.take(e as int);
    let mut b: usize = 0;
    assert(t.skip(0) =~= t);
    while b < e && (cs[b] == '#' || cs[b] == '!' || cs[b] == ' ')
        invariant
            b <= e <= cs@.len(),
            t == cs@.take(e as int),
            strip_banner_start(t) == strip_banner_start(t.skip(b as int)),
        decreases e - b,
    {
        assert(t.skip(b as int).drop_first() =~= t.skip(b + 1));
        b = b + 1;
    }
    assert(t.skip(b as int) =~= cs@.subrange(b as int, e as int));
    sub_chars(cs, b, e)
}

/// The outcome of a template request: the template when the API answered
/// with success, else the error to report.
pub fn template_response(success: bool, content: String, presets: &[String]) -> (r: Result<String, String>)
    ensures
        success ==> r == Ok::<String, String>(content),
        !success ==> (r matches Err(msg) && msg@ == fetch_error_message(content@, strs_of(presets@))),
{
    if success {
        return Ok(content);
    }
    let cs = chars_of(content.as_str());
    let ls = split_lines(cs.as_slice());
    let needle = chars_of("ERROR:");
    let ghost lv = seqs_of(ls@);
    let mut k: usize = 0;
    while k < ls.len()
        invariant
            !success,
            k <= ls@.len(),
            lv == seqs_of(ls@),
            lv == lines(content@),
            needle@ == "ERROR:"@,
            forall|j: int| 0 <= j < k ==> !contains_seq(#[trigger] lv[j], "ERROR:"@),
        decreases ls@.len() - k,
    {
        assert(lv[k as int] == ls@[k as int]@);
        if contains_chars_seq(ls[k].as_slice(), needle.as_slice()) {
            let v = strip_banner_chars(ls[k].as_slice());
            proof {
                let w = choose|w: int|
                    0 <= w < lv.len() && contains_seq(#[trigger] lv[w], "ERROR:"@) && forall|j: int|
                        0 <= j < w ==> !contains_seq(#[trigger] lv[j], "ERROR:"@);
                assert(w == k) by {
                    if w < k {
                        assert(!contains_seq(lv[w], "ERROR:"@));
                    } else if w > k {
                        assert(!contains_seq(lv[k as int], "ERROR:"@));
                    }
                }
            }
            return Err(string_of(v.as_slice()));
        }
        k = k + 1;
    }
    let names = join_strings(presets, ",");
    let head = concat_str("Preset '", names.as_str());
    Err(concat_str(head.as_str(), "' not found. Use 'git-ignore -l' to list available presets."))
}

/// The text that lists the available templates: their count, then each
/// name on a line of its own, indented by two spaces.
pub fn template_listing(names: &[String]) -> (r: String)
    ensures
        r@ == template_listing_of(strs_of(names@)),
{
    let ghost nv = strs_of(names@);
    let mut v: Vec<char> = Vec::new();
    push_str(&mut v, "Available templates (");
    let count = decimal_chars(names.len());
    push_all(&mut v, count.as_slice());
    push_str(&mut v, "):\n");
    let ghost h = v@;
    let mut i: usize = 0;
    assert(nv.take(0) =~= Seq::<Seq<char>>::empty());
    assert(v@ =~= h + listing_lines(nv.take(0)));
    while i < names.len()
        invariant
            i <= names@.len(),
            nv == strs_of(names@),
            v@ == h + listing_lines(nv.take(i as int)),
        decreases names@.len() - i,
    {
        assert(nv.take(i + 1).drop_last() =~= nv.take(i as int));
        assert(nv.take(i + 1).last() == names@[i as int]@);
        push_str(&mut v, "  ");
        push_str(&mut v, names[i].as_str());
        push_str(&mut v, "\n");
        assert(v@ =~= h + listing_lines(nv.take(i + 1)));
        i = i + 1;
    }
    assert(nv.take(names@.len() as int) =~= nv);
    string_of(v.as_slice())
}

} // verus!
