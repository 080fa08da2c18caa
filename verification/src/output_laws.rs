//! What the texts that the library writes hold, stated without its models:
//! numbers in base ten, the report of a check, the completion lines.

use vstd::prelude::*;
use crate::catalog::{GITIGNORE_API, fetch_error_message, first_error_line, strip_banner, strip_banner_end, strip_banner_start, catalogue_names, listing_lines, newlines_as_commas, template_listing_of, template_url_of};
use crate::completion::{bash_extra, fish_extra, fish_lines};
use crate::merge::{block_header, merge_block, merge_model};
use crate::preset_laws::{lemma_nonblank_trimmed_append, lemma_split_on_joined};
use crate::presets::nonblank_trimmed;
use crate::update::{is_blank, merged_contents, pattern_append_text, pattern_listed, planned_contents};
use crate::cache::path_join;
use crate::rules::{is_rule_text, negated, normalized};
use crate::report::{PairView, duplicate_lines, report_text, unmatched_lines};
use crate::text::{contains_seq, decimal, is_ws, lemma_trim_end, trim_end, digit_char, join, lemma_prefix_len_at, lines, split_on, trim};

verus! {

/// The number that a string of decimal digits stands for, read from the
/// left, each character standing for its distance from `'0'`.
pub open spec fn decimal_value(s: Seq<char>) -> int
    decreases s.len(),
{
    if s.len() == 0 {
        0
    } else {
        decimal_value(s.drop_last()) * 10 + ((s.last() as u32) as int - ('0' as u32) as int)
    }
}

/// Is `c` one of `'0'` to `'9'`?
pub open spec fn is_digit(c: char) -> bool {
    '0' <= c && c <= '9'
}

proof fn lemma_digit_char(d: nat)
    requires
        d < 10,
    ensures
        is_digit(digit_char(d)),
        (digit_char(d) as u32) as int - ('0' as u32) as int == d,
{
}

/// A number is written in base ten: digits only, no leading zero, and
/// reading the digits back gives the number.
pub proof fn law_decimal_is_base_ten(n: nat)
    ensures
        decimal(n).len() > 0,
        forall|i: int| 0 <= i < decimal(n).len() ==> is_digit(#[trigger] decimal(n)[i]),
        decimal(n).len() > 1 ==> decimal(n)[0] != '0',
        decimal_value(decimal(n)) == n,
    decreases n,
{
    if n < 10 {
        lemma_digit_char(n);
        let s = decimal(n);
        assert(s.drop_last() =~= Seq::<char>::empty());
        assert(decimal_value(s.drop_last()) == 0);
        assert(s.last() == digit_char(n));
    } else {
        law_decimal_is_base_ten(n / 10);
        lemma_digit_char(n % 10);
        let s = decimal(n);
        let p = decimal(n / 10);
        assert(s.drop_last() =~= p);
        assert(s.last() == digit_char(n % 10));
        assert(decimal_value(s) == decimal_value(p) * 10 + (n % 10) as int);
        assert((n / 10) * 10 + n % 10 == n) by (nonlinear_arith);
        assert(forall|i: int| 0 <= i < p.len() ==> s[i] == p[i]);
        assert(s[0] == p[0]);
        if p.len() == 1 {
            assert(n / 10 >= 1);
            assert(p[0] != '0') by {
                if p[0] == '0' {
                    assert(p.drop_last() =~= Seq::<char>::empty());
                    assert(decimal_value(p.drop_last()) == 0);
                    assert(p.last() == p[0]);
                    assert(decimal_value(p) == 0);
                }
            }
        }
    }
}

/// With template names, the bash lines define a function that offers the
/// names, space-separated, and register it for both `-n` and `--new`;
/// without names there are none.
pub proof fn law_bash_completion_registers_both_flags(names: Seq<Seq<char>>)
    ensures
        names.len() == 0 ==> bash_extra(names) == Seq::<char>::empty(),
        names.len() > 0 ==> bash_extra(names) == "\n# Custom completion for -n/--new flag\n_git_ignore_templates() {\n    local templates=\""@
            + join(names, " "@)
            + "\"\n    COMPREPLY=($(compgen -W \"$templates\" -- \"${COMP_WORDS[COMP_CWORD]}\"))\n}\n"@
            + "complete -F _git_ignore_templates git-ignore -n\n"@
            + "complete -F _git_ignore_templates git-ignore --new\n"@,
{
    reveal_strlit("\"\n    COMPREPLY=($(compgen -W \"$templates\" -- \"${COMP_WORDS[COMP_CWORD]}\"))\n}\n");
    reveal_strlit("complete -F _git_ignore_templates git-ignore -n\n");
    reveal_strlit("complete -F _git_ignore_templates git-ignore --new\n");
    reveal_strlit("\"\n    COMPREPLY=($(compgen -W \"$templates\" -- \"${COMP_WORDS[COMP_CWORD]}\"))\n}\ncomplete -F _git_ignore_templates git-ignore -n\ncomplete -F _git_ignore_templates git-ignore --new\n");
    if names.len() > 0 {
        let a = "\"\n    COMPREPLY=($(compgen -W \"$templates\" -- \"${COMP_WORDS[COMP_CWORD]}\"))\n}\n"@;
        let b = "complete -F _git_ignore_templates git-ignore -n\n"@;
        let c = "complete -F _git_ignore_templates git-ignore --new\n"@;
        assert(crate::completion::BASH_EXTRA_TAIL@ =~= a + b + c);
    }
}

/// Does `part` occur in `s`?
pub open spec fn has_part(s: Seq<char>, part: Seq<char>) -> bool {
    exists|a: Seq<char>, b: Seq<char>| s == a + part + b
}

/// The report line of a pattern that matches nothing.
pub open spec fn unmatched_line(r: (nat, Seq<char>)) -> Seq<char> {
    "  line "@ + decimal(r.0) + ": "@ + r.1 + "\n"@
}

/// The report line of a duplicate and the earlier rule it repeats.
pub open spec fn duplicate_line(d: PairView) -> Seq<char> {
    "  line "@ + decimal(d.0.0) + ": "@ + d.0.1 + " (same as line "@ + decimal(d.1.0) + ")\n"@
}

proof fn lemma_part_of_concat(x: Seq<char>, part: Seq<char>, y: Seq<char>, z: Seq<char>)
    requires
        has_part(y, part),
    ensures
        has_part(x + y + z, part),
{
    let (a, b) = choose|a: Seq<char>, b: Seq<char>| y == a + part + b;
    assert(x + y + z =~= (x + a) + part + (b + z));
}

proof fn lemma_unmatched_lines_list(u: Seq<(nat, Seq<char>)>, i: int)
    requires
        0 <= i < u.len(),
    ensures
        has_part(unmatched_lines(u), unmatched_line(u[i])),
    decreases u.len(),
{
    let last = "  line "@ + decimal(u.last().0) + ": "@ + u.last().1 + "\n"@;
    assert(unmatched_lines(u) =~= unmatched_lines(u.drop_last()) + last);
    if i == u.len() - 1 {
        assert(unmatched_lines(u) =~= unmatched_lines(u.drop_last()) + unmatched_line(u[i]) + Seq::<char>::empty());
    } else {
        lemma_unmatched_lines_list(u.drop_last(), i);
        assert(u.drop_last()[i] == u[i]);
        lemma_part_of_concat(Seq::<char>::empty(), unmatched_line(u[i]), unmatched_lines(u.drop_last()), last);
        assert(Seq::<char>::empty() + unmatched_lines(u.drop_last()) + last =~= unmatched_lines(u));
    }
}

proof fn lemma_duplicate_lines_list(d: Seq<PairView>, i: int)
    requires
        0 <= i < d.len(),
    ensures
        has_part(duplicate_lines(d), duplicate_line(d[i])),
    decreases d.len(),
{
    let x = d.last();
    let last = "  line "@ + decimal(x.0.0) + ": "@ + x.0.1 + " (same as line "@ + decimal(x.1.0) + ")\n"@;
    assert(duplicate_lines(d) =~= duplicate_lines(d.drop_last()) + last);
    if i == d.len() - 1 {
        assert(duplicate_lines(d) =~= duplicate_lines(d.drop_last()) + duplicate_line(d[i]) + Seq::<char>::empty());
    } else {
        lemma_duplicate_lines_list(d.drop_last(), i);
        assert(d.drop_last()[i] == d[i]);
        lemma_part_of_concat(Seq::<char>::empty(), duplicate_line(d[i]), duplicate_lines(d.drop_last()), last);
        assert(Seq::<char>::empty() + duplicate_lines(d.drop_last()) + last =~= duplicate_lines(d));
    }
}

/// The report says "No problems found" (with the number of patterns
/// checked) exactly when there is no duplicate and no unmatched pattern;
/// otherwise it has a line for every duplicate and every unmatched pattern,
/// and ends with their counts.
pub proof fn law_report_lists_every_problem(rule_count: nat, dups: Seq<PairView>, unmatched: Seq<(nat, Seq<char>)>)
    ensures
        "No problems found"@.is_prefix_of(report_text(rule_count, dups, unmatched)) <==> (dups.len() == 0
            && unmatched.len() == 0),
        dups.len() == 0 && unmatched.len() == 0 ==> report_text(rule_count, dups, unmatched)
            == "No problems found ("@ + decimal(rule_count) + " patterns checked)\n"@,
        forall|i: int| 0 <= i < unmatched.len() ==> has_part(
            report_text(rule_count, dups, unmatched),
            #[trigger] unmatched_line(unmatched[i]),
        ),
        forall|i: int| 0 <= i < dups.len() ==> has_part(
            report_text(rule_count, dups, unmatched),
            #[trigger] duplicate_line(dups[i]),
        ),
        dups.len() > 0 || unmatched.len() > 0 ==> crate::text::ends_with(
            report_text(rule_count, dups, unmatched),
            decimal(dups.len()) + " duplicate(s), "@ + decimal(unmatched.len()) + " unmatched pattern(s)\n"@,
        ),
{
    reveal_strlit("No problems found");
    reveal_strlit("No problems found (");
    reveal_strlit("Duplicate patterns:\n");
    reveal_strlit("Patterns that match nothing:\n");
    let t = report_text(rule_count, dups, unmatched);
    let np = "No problems found"@;
    if dups.len() == 0 && unmatched.len() == 0 {
        assert(t.take(np.len() as int) =~= np);
    } else {
        let dpart = if dups.len() > 0 { "Duplicate patterns:\n"@ + duplicate_lines(dups) + "\n"@ } else { seq![] };
        let upart = if unmatched.len() > 0 {
            "Patterns that match nothing:\n"@ + unmatched_lines(unmatched) + "\n"@
        } else {
            seq![]
        };
        let tail = decimal(dups.len()) + " duplicate(s), "@ + decimal(unmatched.len()) + " unmatched pattern(s)\n"@;
        assert(t == dpart + upart + tail);
        if dups.len() > 0 {
            assert(t[0] == 'D');
        } else {
            assert(t[0] == 'P');
        }
        if np.is_prefix_of(t) {
            assert(t[0] == np[0]);
        }
        assert(t.skip(t.len() - tail.len()) =~= tail);
        assert forall|i: int| 0 <= i < unmatched.len() implies has_part(t, #[trigger] unmatched_line(unmatched[i])) by {
            lemma_unmatched_lines_list(unmatched, i);
            lemma_part_of_concat("Patterns that match nothing:\n"@, unmatched_line(unmatched[i]), unmatched_lines(unmatched), "\n"@);
            lemma_part_of_concat(dpart, unmatched_line(unmatched[i]), upart, tail);
        }
        assert forall|i: int| 0 <= i < dups.len() implies has_part(t, #[trigger] duplicate_line(dups[i])) by {
            lemma_duplicate_lines_list(dups, i);
            lemma_part_of_concat("Duplicate patterns:\n"@, duplicate_line(dups[i]), duplicate_lines(dups), "\n"@);
            lemma_part_of_concat(Seq::<char>::empty(), duplicate_line(dups[i]), dpart, upart + tail);
            assert(Seq::<char>::empty() + dpart + (upart + tail) =~= t);
        }
    }
}

/// A pattern counts as listed exactly when some line of the file, trimmed,
/// is the pattern trimmed.
pub proof fn law_listed_means_a_line_trims_to_the_pattern(contents: Seq<char>, pattern: Seq<char>)
    ensures
        pattern_listed(contents, pattern) <==> exists|k: int|
            0 <= k < lines(contents).len() && trim(#[trigger] lines(contents)[k]) == trim(pattern),
{
}

/// The template catalogue splits at commas and at line feeds alike: a text
/// made of two parts joined by either lists the names of both parts, in order.
pub proof fn law_catalogue_splits_at_commas_and_line_feeds(a: Seq<char>, b: Seq<char>, sep: char)
    requires
        sep == ',' || sep == '\n',
    ensures
        catalogue_names(a + seq![sep] + b) == catalogue_names(a) + catalogue_names(b),
{
    assert(newlines_as_commas(a + seq![sep] + b) =~= newlines_as_commas(a) + seq![','] + newlines_as_commas(b));
    lemma_split_on_joined(newlines_as_commas(a), newlines_as_commas(b), ',');
    lemma_nonblank_trimmed_append(split_on(newlines_as_commas(a), ','), split_on(newlines_as_commas(b), ','));
}

/// A text with no comma and no line feed names one template, itself
/// trimmed, unless it is blank.
pub proof fn law_catalogue_of_one_name(s: Seq<char>)
    requires
        forall|j: int| 0 <= j < s.len() ==> s[j] != ',' && s[j] != '\n',
    ensures
        trim(s).len() > 0 ==> catalogue_names(s) == seq![trim(s)],
        trim(s).len() == 0 ==> catalogue_names(s) == Seq::<Seq<char>>::empty(),
{
    assert(newlines_as_commas(s) =~= s);
    lemma_prefix_len_at(s, ',', s.len() as int);
    assert(split_on(s, ',') == seq![s]);
    assert(seq![s].drop_last() =~= Seq::<Seq<char>>::empty());
    assert(seq![s].last() == s);
    assert(nonblank_trimmed(Seq::<Seq<char>>::empty()) == Seq::<Seq<char>>::empty());
    if trim(s).len() > 0 {
        assert(nonblank_trimmed(seq![s]) =~= seq![trim(s)]);
    } else {
        assert(nonblank_trimmed(seq![s]) =~= Seq::<Seq<char>>::empty());
    }
}

/// The two fish lines that offer one template name: as the value of
/// `-n`/`--new`, and as an argument of the `new` subcommand.
pub open spec fn fish_name_lines(name: Seq<char>) -> Seq<char> {
    "complete -c git-ignore -s n -l new -xa '"@ + name + "'\n"@
        + "complete -c git-ignore -n '__fish_seen_subcommand_from new' -xa '"@ + name + "'\n"@
}

proof fn lemma_fish_lines(names: Seq<Seq<char>>)
    ensures
        names.len() > 0 ==> fish_lines(names) == fish_lines(names.drop_last()) + fish_name_lines(names.last()),
        names.len() == 0 ==> fish_lines(names) == Seq::<char>::empty(),
{
    reveal_strlit("complete -c git-ignore -s n -l new -xa '");
    reveal_strlit("'\n");
    reveal_strlit("complete -c git-ignore -n '__fish_seen_subcommand_from new' -xa '");
    if names.len() > 0 {
        assert(crate::completion::FISH_LINE_HEAD@ =~= "complete -c git-ignore -s n -l new -xa '"@);
        assert(crate::completion::FISH_LINE_TAIL@ =~= "'\n"@);
        assert(crate::completion::FISH_NEW_HEAD@ =~= "complete -c git-ignore -n '__fish_seen_subcommand_from new' -xa '"@);
        assert(fish_lines(names) =~= fish_lines(names.drop_last()) + fish_name_lines(names.last()));
    }
}

/// The fish lines offer each template name, in order, for `-n`/`--new` and
/// for the `new` subcommand, after a comment line; without names there are none.
pub proof fn law_fish_completion_offers_each_name(names: Seq<Seq<char>>, more: Seq<Seq<char>>)
    ensures
        names.len() == 0 ==> fish_extra(names) == Seq::<char>::empty(),
        names.len() > 0 ==> fish_extra(names) == "\n# Custom completion for -n/--new flag\n"@ + fish_lines(names),
        fish_lines(names + more) == fish_lines(names) + fish_lines(more),
        names.len() == 1 ==> fish_lines(names) == fish_name_lines(names[0]),
    decreases more.len(),
{
    reveal_strlit("\n# Custom completion for -n/--new flag\n");
    assert(crate::completion::FISH_EXTRA_HEAD@ =~= "\n# Custom completion for -n/--new flag\n"@);
    if more.len() == 0 {
        assert(names + more =~= names);
        lemma_fish_lines(more);
        assert(fish_lines(names) + fish_lines(more) =~= fish_lines(names));
    } else {
        law_fish_completion_offers_each_name(names, more.drop_last());
        assert((names + more).drop_last() =~= names + more.drop_last());
        assert((names + more).last() == more.last());
        lemma_fish_lines(names + more);
        lemma_fish_lines(more);
    }
    if names.len() == 1 {
        lemma_fish_lines(names);
        lemma_fish_lines(names.drop_last());
        assert(names.last() == names[0]);
        assert(Seq::<char>::empty() + fish_name_lines(names[0]) =~= fish_name_lines(names[0]));
    }
}

/// The listing of templates: "Available templates (N):" with N in base ten,
/// then one line per name, in order, indented by two spaces.
pub proof fn law_template_listing_lists_each_name(names: Seq<Seq<char>>, more: Seq<Seq<char>>)
    ensures
        template_listing_of(names) == "Available templates ("@ + decimal(names.len()) + "):\n"@ + listing_lines(names),
        listing_lines(names + more) == listing_lines(names) + listing_lines(more),
        names.len() == 0 ==> listing_lines(names) == Seq::<char>::empty(),
        names.len() == 1 ==> listing_lines(names) == "  "@ + names[0] + "\n"@,
    decreases more.len(),
{
    if more.len() == 0 {
        assert(names + more =~= names);
        assert(listing_lines(names) + listing_lines(more) =~= listing_lines(names));
    } else {
        law_template_listing_lists_each_name(names, more.drop_last());
        assert((names + more).drop_last() =~= names + more.drop_last());
        assert((names + more).last() == more.last());
    }
    if names.len() == 1 {
        assert(names.drop_last() =~= Seq::<Seq<char>>::empty());
        assert(names.last() == names[0]);
        assert(listing_lines(names.drop_last()) == Seq::<char>::empty());
        assert(listing_lines(names) =~= "  "@ + names[0] + "\n"@);
    }
}

/// A template is requested from the gitignore.io API, all presets in one
/// request, joined by commas.
pub proof fn law_template_url(presets: Seq<Seq<char>>)
    ensures
        template_url_of(presets) == "https://www.toptal.com/developers/gitignore/api/"@ + join(presets, ","@),
        GITIGNORE_API@ + "/list"@ == "https://www.toptal.com/developers/gitignore/api/list"@,
{
    reveal_strlit("https://www.toptal.com/developers/gitignore/api");
    reveal_strlit("https://www.toptal.com/developers/gitignore/api/");
    reveal_strlit("https://www.toptal.com/developers/gitignore/api/list");
    reveal_strlit("/");
    reveal_strlit("/list");
    assert(GITIGNORE_API@ + "/"@ =~= "https://www.toptal.com/developers/gitignore/api/"@);
    assert(GITIGNORE_API@ + "/list"@ =~= "https://www.toptal.com/developers/gitignore/api/list"@);
}

/// A merge writes the existing text, a line feed if it does not end with
/// one, an empty line, then the block: a heading naming the presets joined
/// by ", ", followed by the kept sections.
pub proof fn law_merged_file_layout(existing: Seq<char>, template: Seq<char>, presets: Seq<Seq<char>>)
    ensures
        block_header(presets) == "# Added by git-ignore: "@ + join(presets, ", "@),
        merged_contents(existing, template, presets) == existing + (if existing.len() > 0 && existing.last() == '\n' {
            Seq::<char>::empty()
        } else {
            seq!['\n']
        }) + seq!['\n'] + merge_block(existing, template, presets),
        merge_model(existing, template).added > 0 ==> (block_header(presets) + seq!['\n']).is_prefix_of(
            merge_block(existing, template, presets),
        ),
{
    let e = existing;
    if e.len() > 0 && e.last() == '\n' {
        assert(e.skip(e.len() - 1) =~= seq!['\n']);
    } else if e.len() > 0 {
        assert(e.skip(e.len() - 1)[0] == e.last());
    }
    assert(merged_contents(existing, template, presets) =~= existing + (if existing.len() > 0 && existing.last() == '\n' {
        Seq::<char>::empty()
    } else {
        seq!['\n']
    }) + seq!['\n'] + merge_block(existing, template, presets));
    crate::merge_laws::law_presets_change_only_the_heading(existing, template, presets);
}

/// Is `c` one of the characters that frame the API's error line (`#`, `!`, space)?
pub open spec fn frame_char(c: char) -> bool {
    c == '#' || c == '!' || c == ' '
}

proof fn lemma_strip_banner_end(s: Seq<char>)
    ensures
        strip_banner_end(s) == s.take(strip_banner_end(s).len() as int),
        strip_banner_end(s).len() <= s.len(),
        strip_banner_end(s).len() > 0 ==> !frame_char(strip_banner_end(s).last()),
        forall|j: int| strip_banner_end(s).len() <= j < s.len() ==> frame_char(#[trigger] s[j]),
    decreases s.len(),
{
    if s.len() > 0 && crate::catalog::is_banner_char(s.last()) {
        lemma_strip_banner_end(s.drop_last());
        let r = strip_banner_end(s);
        assert(s.drop_last().take(r.len() as int) =~= s.take(r.len() as int));
        assert forall|j: int| r.len() <= j < s.len() implies frame_char(#[trigger] s[j]) by {
            if j < s.len() - 1 {
                assert(s[j] == s.drop_last()[j]);
            }
        }
    } else {
        assert(s.take(s.len() as int) =~= s);
    }
}

proof fn lemma_strip_banner_start(s: Seq<char>)
    ensures
        strip_banner_start(s) == s.skip(s.len() - strip_banner_start(s).len()),
        strip_banner_start(s).len() <= s.len(),
        strip_banner_start(s).len() > 0 ==> !frame_char(strip_banner_start(s)[0]),
        forall|j: int| 0 <= j < s.len() - strip_banner_start(s).len() ==> frame_char(#[trigger] s[j]),
    decreases s.len(),
{
    if s.len() > 0 && crate::catalog::is_banner_char(s[0]) {
        lemma_strip_banner_start(s.drop_first());
        let r = strip_banner_start(s);
        assert(s.drop_first().skip(s.drop_first().len() - r.len()) =~= s.skip(s.len() - r.len()));
        assert forall|j: int| 0 <= j < s.len() - r.len() implies frame_char(#[trigger] s[j]) by {
            if j > 0 {
                assert(s[j] == s.drop_first()[j - 1]);
            }
        }
    } else {
        assert(s.skip(0) =~= s);
    }
}

/// The message of a failed template request. When a line of the answer
/// contains "ERROR:", the message is the first such line with the framing
/// `#`, `!` and spaces taken off both ends; otherwise it names the presets
/// and points to the list of presets.
pub proof fn law_fetch_error_message(content: Seq<char>, presets: Seq<Seq<char>>, k: int)
    ensures
        (forall|j: int| 0 <= j < lines(content).len() ==> !contains_seq(#[trigger] lines(content)[j], "ERROR:"@))
            ==> fetch_error_message(content, presets) == "Preset '"@ + join(presets, ","@)
            + "' not found. Use 'git-ignore -l' to list available presets."@,
        0 <= k < lines(content).len() && contains_seq(lines(content)[k], "ERROR:"@) && (forall|j: int|
            0 <= j < k ==> !contains_seq(#[trigger] lines(content)[j], "ERROR:"@)) ==> {
            let m = fetch_error_message(content, presets);
            &&& exists|x: Seq<char>, y: Seq<char>| {
                &&& lines(content)[k] == x + m + y
                &&& forall|i: int| 0 <= i < x.len() ==> frame_char(#[trigger] x[i])
                &&& forall|i: int| 0 <= i < y.len() ==> frame_char(#[trigger] y[i])
            }
            &&& m.len() > 0 ==> !frame_char(m[0]) && !frame_char(m.last())
        },
{
    let ls = lines(content);
    if 0 <= k < ls.len() && contains_seq(ls[k], "ERROR:"@) && (forall|j: int|
        0 <= j < k ==> !contains_seq(#[trigger] ls[j], "ERROR:"@)) {
        let k2 = first_error_line(ls)->0;
        assert(first_error_line(ls) is Some);
        assert(k2 == k) by {
            if k2 < k {
                assert(!contains_seq(ls[k2], "ERROR:"@));
            } else if k2 > k {
                assert(!contains_seq(ls[k], "ERROR:"@));
            }
        }
        let l = ls[k];
        let e = strip_banner_end(l);
        let m = strip_banner_start(e);
        lemma_strip_banner_end(l);
        lemma_strip_banner_start(e);
        assert(m == fetch_error_message(content, presets));
        let x = e.take(e.len() - m.len());
        let y = l.skip(e.len() as int);
        assert(l =~= x + m + y);
        assert forall|i: int| 0 <= i < x.len() implies frame_char(#[trigger] x[i]) by {
            assert(x[i] == e[i]);
        }
        assert forall|i: int| 0 <= i < y.len() implies frame_char(#[trigger] y[i]) by {
            assert(y[i] == l[e.len() + i]);
        }
        if m.len() > 0 {
            assert(m.last() == e.last());
        }
    }
}

/// Joining parts with a separator: no part gives nothing, one part gives
/// itself, and two non-empty runs of parts join with one separator between.
pub proof fn law_join(a: Seq<Seq<char>>, b: Seq<Seq<char>>, sep: Seq<char>)
    ensures
        join(Seq::<Seq<char>>::empty(), sep) == Seq::<char>::empty(),
        a.len() == 1 ==> join(a, sep) == a[0],
        a.len() > 0 && b.len() > 0 ==> join(a + b, sep) == join(a, sep) + sep + join(b, sep),
    decreases b.len(),
{
    if a.len() > 0 && b.len() > 0 {
        assert((a + b).drop_last() =~= a + b.drop_last());
        assert((a + b).last() == b.last());
        if b.len() == 1 {
            assert(a + b.drop_last() =~= a);
            assert(join(b, sep) == b[0]);
            assert(b.last() == b[0]);
        } else {
            law_join(a, b.drop_last(), sep);
            assert(join(a + b, sep) =~= join(a, sep) + sep + join(b, sep));
        }
    }
}

/// Is `s` made of whitespace only (or empty)?
pub open spec fn all_whitespace(s: Seq<char>) -> bool {
    forall|j: int| 0 <= j < s.len() ==> is_ws(#[trigger] s[j])
}

/// Creating `.gitignore` from a template: an absent or whitespace-only file,
/// or `force`, gets the template itself; a file to which the template adds
/// no pattern stays as it is; any other file gets the new patterns appended.
pub proof fn law_planned_contents(existing: Seq<char>, template: Seq<char>, presets: Seq<Seq<char>>, force: bool)
    ensures
        is_blank(existing) <==> all_whitespace(existing),
        force || all_whitespace(existing) ==> planned_contents(existing, template, presets, force) == template,
        !force && !all_whitespace(existing) && merge_model(existing, template).added == 0 ==> planned_contents(
            existing,
            template,
            presets,
            force,
        ) == existing,
        !force && !all_whitespace(existing) && merge_model(existing, template).added > 0 ==> planned_contents(
            existing,
            template,
            presets,
            force,
        ) == merged_contents(existing, template, presets),
{
    if is_blank(existing) {
        crate::laws::lemma_blank_all_ws(existing);
    }
    if all_whitespace(existing) {
        crate::text::lemma_trim_end_all_ws(existing);
    }
}

/// Appending a pattern writes the pattern and a line feed, after a line feed
/// that ends the file's last line when it has none.
pub proof fn law_pattern_append_text(existing: Seq<char>, pattern: Seq<char>)
    ensures
        crate::text::ends_with(existing + pattern_append_text(existing, pattern), pattern.push('\n')),
        existing.len() == 0 || existing.last() == '\n' ==> pattern_append_text(existing, pattern) == pattern.push('\n'),
        existing.len() > 0 && existing.last() != '\n' ==> pattern_append_text(existing, pattern) == seq!['\n']
            + pattern.push('\n'),
{
    let t = existing + pattern_append_text(existing, pattern);
    let q = pattern.push('\n');
    if existing.len() > 0 && existing.last() != '\n' {
        assert(pattern_append_text(existing, pattern) =~= seq!['\n'] + q);
    } else {
        assert(pattern_append_text(existing, pattern) =~= q);
    }
    assert(t.skip(t.len() - q.len()) =~= q);
}

/// A line is read as git reads it: the pattern is the line up to its
/// trailing whitespace, plus the first of those whitespace characters when it
/// is a space right after a backslash.
pub proof fn law_normalized_line(line: Seq<char>)
    ensures
        normalized(line) == line.take(normalized(line).len() as int),
        forall|j: int| normalized(line).len() <= j < line.len() ==> is_ws(#[trigger] line[j]),
        normalized(line).len() > 0 && is_ws(normalized(line).last()) ==> normalized(line).len() >= 2
            && normalized(line).last() == ' ' && normalized(line)[normalized(line).len() - 2] == '\\',
        forall|t: int|
            0 < t < line.len() && line[t - 1] == '\\' && line[t] == ' ' && (forall|j: int|
                t <= j < line.len() ==> is_ws(#[trigger] line[j])) ==> normalized(line) == #[trigger] line.take(t + 1),
{
    let e = trim_end(line);
    lemma_trim_end(line);
    let n = normalized(line);
    if crate::rules::keeps_escaped_space(line, e) {
        assert(n =~= line.take(e.len() as int + 1));
        assert(n[n.len() - 2] == e.last());
    } else {
        assert(n =~= line.take(e.len() as int));
    }
    assert forall|t: int|
        0 < t < line.len() && line[t - 1] == '\\' && line[t] == ' ' && (forall|j: int|
            t <= j < line.len() ==> is_ws(#[trigger] line[j])) implies normalized(line) == #[trigger] line.take(t + 1) by {
        assert(!is_ws(line[t - 1]));
        if e.len() < t {
            assert(is_ws(line[t - 1]));
        }
        if e.len() > t {
            assert(is_ws(line[e.len() - 1]));
            assert(e.last() == line[e.len() - 1]);
        }
        assert(e.len() == t);
        assert(e.last() == line[t - 1]);
        assert(n =~= line.take(t + 1));
    }
}

/// The cache file of template names lies at `git-ignore/templates.txt`
/// under the user's cache directory, with one `/` between components.
pub proof fn law_cache_path(root: Seq<char>)
    ensures
        root.len() > 0 && root.last() != '/' ==> path_join(path_join(root, "git-ignore"@), "templates.txt"@) == root
            + "/git-ignore/templates.txt"@,
        root.len() == 0 || root.last() == '/' ==> path_join(path_join(root, "git-ignore"@), "templates.txt"@) == root
            + "git-ignore/templates.txt"@,
{
    reveal_strlit("git-ignore");
    reveal_strlit("/");
    reveal_strlit("templates.txt");
    reveal_strlit("/git-ignore/templates.txt");
    reveal_strlit("git-ignore/templates.txt");
    let d = path_join(root, "git-ignore"@);
    if root.len() > 0 && root.last() != '/' {
        assert(d =~= root + "/"@ + "git-ignore"@);
    } else {
        assert(d =~= root + "git-ignore"@);
    }
    assert(d.last() == 'e');
    assert(path_join(d, "templates.txt"@) =~= d + "/"@ + "templates.txt"@);
    if root.len() > 0 && root.last() != '/' {
        assert(d + "/"@ + "templates.txt"@ =~= root + "/git-ignore/templates.txt"@);
    } else {
        assert(d + "/"@ + "templates.txt"@ =~= root + "git-ignore/templates.txt"@);
    }
}

/// Which lines are rules: those that are not empty once trailing whitespace
/// is dropped and do not start with `#`; a rule re-includes when it starts with `!`.
pub proof fn law_rule_kinds(p: Seq<char>)
    ensures
        is_rule_text(p) <==> (p.len() > 0 && p[0] != '#'),
        negated(p) <==> (p.len() > 0 && p[0] == '!'),
{
}

} // verus!
