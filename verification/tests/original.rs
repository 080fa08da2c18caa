use git_ignore::{find_duplicates, merge_addition, parse_presets, parse_rules};

#[test]
fn parse_rules_skips_comments_and_blank_lines() {
    let rules = parse_rules("# comment\n\ntarget/  \n\\#literal\nfoo\\ \n");
    let parsed: Vec<(usize, &str)> = rules.iter().map(|r| (r.line, r.pattern.as_str())).collect();
    assert_eq!(parsed, [(3, "target/"), (4, "\\#literal"), (5, "foo\\ ")]);
}

#[test]
fn duplicates_reference_nearest_earlier_line() {
    let rules = parse_rules("target/\n*.log\ntarget/\n*.log\ntarget/\n");
    let pairs: Vec<(usize, usize)> = find_duplicates(&rules)
        .iter()
        .map(|(dup, earlier)| (dup.line, earlier.line))
        .collect();
    assert_eq!(pairs, [(3, 1), (4, 2), (5, 3)]);
}

#[test]
fn duplicates_after_opposite_pattern_are_not_reported() {
    let rules = parse_rules("*.log\n!keep.log\n*.log\n!a\nb\n!a\n");
    assert!(find_duplicates(&rules).is_empty());
}

#[test]
fn presets_split_on_commas_and_drop_repeats() {
    let args = [
        "go,rust".to_string(),
        " java ".to_string(),
        "Go".to_string(),
    ];
    assert_eq!(parse_presets(&args), ["go", "rust", "java"]);
}

#[test]
fn merge_skips_present_patterns_and_emptied_sections() {
    let existing = "# mine\ntarget/\n";
    let template = "# Created by gitignore.io\n\n\
                    ### Rust ###\n# Generated by Cargo\ndebug/\ntarget/\n\n\
                    ### Already covered ###\ntarget/\n\n\
                    # End of gitignore.io\n";

    let (block, added) = merge_addition(existing, template, &["rust".to_string()]);

    assert_eq!(added, 1);
    assert_eq!(
        block,
        "# Added by git-ignore: rust\n### Rust ###\n# Generated by Cargo\ndebug/\n"
    );
}

#[test]
fn merge_adds_nothing_when_every_pattern_is_present() {
    let (block, added) = merge_addition(
        "debug/\ntarget/\n",
        "### Rust ###\ndebug/\ntarget/\n",
        &["rust".to_string()],
    );
    assert!(block.is_empty());
    assert_eq!(added, 0);
}

#[test]
fn merge_keeps_only_the_first_copy_of_a_repeated_template_pattern() {
    let template = "### Go ###\n*.exe\n\n### Rust ###\n*.exe\n*.pdb\n";
    let (block, added) = merge_addition("", template, &["go".to_string()]);

    assert_eq!(added, 2);
    assert_eq!(
        block,
        "# Added by git-ignore: go\n### Go ###\n*.exe\n\n### Rust ###\n*.pdb\n"
    );
}
