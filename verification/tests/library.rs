use git_ignore::cache::{cache_dir_path, get_cache_path, join_path};
use git_ignore::catalog::{
    cached_template_names, parse_template_list, preset_label, template_cache_contents, template_listing,
    template_list_url, template_response, template_url,
};
use git_ignore::completion::{
    bash_template_completion, fish_template_completion, zsh_completion, zsh_template_list,
};
use git_ignore::matcher::{CompileError, PendingRules};
use git_ignore::presets::requested_presets;
use git_ignore::report::{unique_rules, verify_report};
use git_ignore::text::{chars_of, decimal_chars, split_lines, string_of, trim_chars};
use git_ignore::{
    find_duplicates, merge_addition, normalize, parse_presets, parse_rules, pattern_addition,
    plan_new_gitignore, NewGitignorePlan, Rule,
};

fn s(v: &[&str]) -> Vec<String> {
    v.iter().map(|x| x.to_string()).collect()
}

fn contents_after(existing: &str, plan: &NewGitignorePlan) -> String {
    match plan {
        NewGitignorePlan::Generate { contents } => contents.clone(),
        NewGitignorePlan::Overwrite { contents } => contents.clone(),
        NewGitignorePlan::AlreadyComplete => existing.to_string(),
        NewGitignorePlan::Merge { contents, .. } => contents.clone(),
    }
}

#[test]
fn strings_round_trip_through_characters() {
    let text = "héllo\twörld";
    assert_eq!(string_of(&chars_of(text)), text);
    assert_eq!(string_of(&[]), "");
}

#[test]
fn trimming_follows_unicode_whitespace() {
    let t = trim_chars(&chars_of("\u{3000} a b \u{a0}\r\n"));
    assert_eq!(string_of(&t), "a b");
    assert_eq!(string_of(&trim_chars(&chars_of(" \t "))), "");
}

#[test]
fn lines_split_like_str_lines() {
    for text in ["", "a", "a\n", "a\r\nb", "a\n\nb\n", "a\rb\n", "x\r", "\n", "\r\n\r\n"] {
        let ours: Vec<String> = split_lines(&chars_of(text)).iter().map(|l| string_of(l)).collect();
        let std: Vec<String> = text.lines().map(|l| l.to_string()).collect();
        assert_eq!(ours, std, "lines of {:?}", text);
    }
}

#[test]
fn decimal_digits() {
    assert_eq!(string_of(&decimal_chars(0)), "0");
    assert_eq!(string_of(&decimal_chars(7)), "7");
    assert_eq!(string_of(&decimal_chars(1205)), "1205");
}

#[test]
fn normalize_keeps_escaped_trailing_space() {
    assert_eq!(normalize("target/  \t"), "target/");
    assert_eq!(normalize("foo\\ "), "foo\\ ");
    assert_eq!(normalize("foo\\  "), "foo\\ ");
    assert_eq!(normalize("foo\\ \t\r"), "foo\\ ");
    assert_eq!(normalize("foo\\\\ "), "foo\\\\ ");
    assert_eq!(normalize("   "), "");
    assert_eq!(normalize(""), "");
}

#[test]
fn rules_know_whether_they_are_negated() {
    let rules = parse_rules("!keep.log\n*.log\n\\!literal\n");
    let negated: Vec<bool> = rules.iter().map(|r| r.is_negated()).collect();
    assert_eq!(negated, [true, false, false]);
}

#[test]
fn rules_ignore_trailing_whitespace_and_crlf() {
    let rules = parse_rules("a  \r\n#c\r\n\r\nb\t\nb\n");
    let parsed: Vec<(usize, &str)> = rules.iter().map(|r| (r.line, r.pattern.as_str())).collect();
    assert_eq!(parsed, [(1, "a"), (4, "b"), (5, "b")]);
    let pairs: Vec<(usize, usize)> =
        find_duplicates(&rules).iter().map(|(d, e)| (d.line, e.line)).collect();
    assert_eq!(pairs, [(5, 4)]);
}

#[test]
fn duplicates_with_same_sided_patterns_between_are_reported() {
    let rules = parse_rules("*.log\n*.tmp\n*.log\n!a\n!b\n!a\n");
    let pairs: Vec<(usize, usize)> =
        find_duplicates(&rules).iter().map(|(d, e)| (d.line, e.line)).collect();
    assert_eq!(pairs, [(3, 1), (6, 4)]);
}

#[test]
fn presets_ignore_blank_pieces_and_keep_first_spelling() {
    let args = s(&["  ,Rust,, ", "RUST,rust", "Visual Studio Code", "go"]);
    assert_eq!(parse_presets(&args), ["Rust", "Visual Studio Code", "go"]);
    assert!(parse_presets(&s(&[" , ,"])).is_empty());
    assert!(parse_presets(&[]).is_empty());
}

#[test]
fn merge_into_file_without_patterns_keeps_all_sections() {
    let template = "# head\n\n### A ###\na\n\n### B ###\nb\n";
    let (block, added) = merge_addition("# only a comment\n", template, &s(&["x", "y"]));
    assert_eq!(added, 2);
    assert_eq!(block, "# Added by git-ignore: x, y\n### A ###\na\n\n### B ###\nb\n");
}

#[test]
fn merge_normalizes_template_lines() {
    let (block, added) = merge_addition("a\n", "a   \nb  \r\n", &s(&["p"]));
    assert_eq!(added, 1);
    assert_eq!(block, "# Added by git-ignore: p\nb\n");
}

#[test]
fn plan_generates_for_absent_or_blank_file() {
    let presets = s(&["rust"]);
    for existing in ["", "  \n\t\n"] {
        let plan = plan_new_gitignore(existing, "target/\n", &presets, false);
        assert!(matches!(plan, NewGitignorePlan::Generate { ref contents } if contents == "target/\n"));
    }
}

#[test]
fn plan_overwrites_with_force() {
    let plan = plan_new_gitignore("mine\n", "target/\n", &s(&["rust"]), true);
    assert!(matches!(plan, NewGitignorePlan::Overwrite { ref contents } if contents == "target/\n"));
}

#[test]
fn plan_leaves_a_complete_file() {
    let plan = plan_new_gitignore("target/\n", "### Rust ###\ntarget/\n", &s(&["rust"]), false);
    assert!(matches!(plan, NewGitignorePlan::AlreadyComplete));
}

#[test]
fn plan_merges_after_a_blank_line() {
    let presets = s(&["rust"]);
    let plan = plan_new_gitignore("mine", "### Rust ###\ntarget/\n", &presets, false);
    match plan {
        NewGitignorePlan::Merge { contents, added } => {
            assert_eq!(added, 1);
            assert_eq!(contents, "mine\n\n# Added by git-ignore: rust\n### Rust ###\ntarget/\n");
        }
        _ => panic!("expected a merge"),
    }
    let plan = plan_new_gitignore("mine\n", "target/\n", &presets, false);
    match plan {
        NewGitignorePlan::Merge { contents, .. } => {
            assert_eq!(contents, "mine\n\n# Added by git-ignore: rust\ntarget/\n");
        }
        _ => panic!("expected a merge"),
    }
}

#[test]
fn second_run_of_the_same_preset_changes_nothing() {
    let presets = s(&["go", "rust"]);
    let template = "# Created\n\n### Go ###\n*.exe\nbin/  \n\n### Rust ###\n*.exe\ntarget/\n# End\n";
    for existing in ["", "target/\n", "# mine\nfoo\n*.exe", "   "] {
        for force in [false, true] {
            let first = plan_new_gitignore(existing, template, &presets, force);
            let c1 = contents_after(existing, &first);
            let second = plan_new_gitignore(&c1, template, &presets, false);
            assert_eq!(contents_after(&c1, &second), c1, "existing {:?}", existing);
        }
    }
}

#[test]
fn pattern_addition_skips_listed_patterns() {
    assert_eq!(pattern_addition("target/\n*.log\n", "  *.log "), None);
    assert_eq!(pattern_addition("", "node_modules"), Some("node_modules\n".to_string()));
    assert_eq!(pattern_addition("a\n", ".env"), Some(".env\n".to_string()));
    assert_eq!(pattern_addition("a", ".env"), Some("\n.env\n".to_string()));
    let existing = "a";
    let added = pattern_addition(existing, "*.log").unwrap();
    let after = format!("{}{}", existing, added);
    assert_eq!(pattern_addition(&after, "*.log"), None);
}

#[test]
fn template_list_splits_on_commas_and_lines() {
    let names = parse_template_list("go,rust , java\n\nnode,\n  c++ ,");
    assert_eq!(names, ["go", "rust", "java", "node", "c++"]);
    assert_eq!(template_cache_contents(&names), "go\nrust\njava\nnode\nc++");
    assert_eq!(cached_template_names("go\nrust\r\njava"), ["go", "rust", "java"]);
    assert!(cached_template_names("").is_empty());
}

#[test]
fn urls_and_labels() {
    let presets = s(&["go", "rust"]);
    assert_eq!(
        template_url(&presets),
        "https://www.toptal.com/developers/gitignore/api/go,rust"
    );
    assert_eq!(template_list_url(), "https://www.toptal.com/developers/gitignore/api/list");
    assert_eq!(preset_label(&presets), "go, rust");
}

#[test]
fn template_response_reports_the_api_error() {
    let presets = s(&["rust", "notareallang"]);
    assert_eq!(template_response(true, "body".to_string(), &presets), Ok("body".to_string()));
    let body = "\n#!! ERROR: notareallang is undefined. Use list command to see defined gitignore types !!#\n";
    assert_eq!(
        template_response(false, body.to_string(), &presets),
        Err("ERROR: notareallang is undefined. Use list command to see defined gitignore types".to_string())
    );
    assert_eq!(
        template_response(false, "oops".to_string(), &presets),
        Err("Preset 'rust,notareallang' not found. Use 'git-ignore -l' to list available presets.".to_string())
    );
}

#[test]
fn completions_offer_template_names() {
    let names = s(&["go", "rust"]);
    assert_eq!(zsh_template_list(&names), "go rust");
    let zsh = zsh_completion("go rust");
    assert!(zsh.starts_with("#compdef git-ignore\n"));
    assert!(zsh.contains("  templates=(go rust)\n"));
    assert!(zsh.ends_with("_git-ignore \"$@\"\n"));
    assert!(zsh_completion("").contains("  templates=()\n"));
    assert_eq!(bash_template_completion(&[]), "");
    let bash = bash_template_completion(&names);
    assert!(bash.starts_with("\n# Custom completion for -n/--new flag\n_git_ignore_templates() {\n"));
    assert!(bash.contains("    local templates=\"go rust\"\n"));
    assert!(bash.ends_with("complete -F _git_ignore_templates git-ignore --new\n"));
    assert_eq!(fish_template_completion(&[]), "");
    assert_eq!(
        fish_template_completion(&names),
        "\n# Custom completion for -n/--new flag\n\
         complete -c git-ignore -s n -l new -xa 'go'\n\
         complete -c git-ignore -n '__fish_seen_subcommand_from new' -xa 'go'\n\
         complete -c git-ignore -s n -l new -xa 'rust'\n\
         complete -c git-ignore -n '__fish_seen_subcommand_from new' -xa 'rust'\n"
    );
}

#[test]
fn cache_paths_join_components() {
    assert_eq!(get_cache_path("/home/u/.cache"), "/home/u/.cache/git-ignore/templates.txt");
    assert_eq!(get_cache_path("/home/u/.cache/"), "/home/u/.cache/git-ignore/templates.txt");
    assert_eq!(cache_dir_path("/c"), "/c/git-ignore");
    assert_eq!(join_path("", "x"), "x");
}

#[test]
fn report_lists_duplicates_and_unmatched_patterns() {
    let rules = parse_rules("target/\n*.log\ntarget/\n");
    let dups = find_duplicates(&rules);
    let unique = unique_rules(&rules, &dups);
    let lines: Vec<usize> = unique.iter().map(|r| r.line).collect();
    assert_eq!(lines, [1, 2]);
    let unmatched = vec![Rule { line: 2, pattern: "*.log".to_string() }];
    let report = verify_report(rules.len(), &dups, &unmatched);
    assert!(!report.clean);
    assert_eq!(
        report.text,
        "Duplicate patterns:\n  line 3: target/ (same as line 1)\n\n\
         Patterns that match nothing:\n  line 2: *.log\n\n\
         1 duplicate(s), 1 unmatched pattern(s)\n"
    );
    let clean = verify_report(12, &[], &[]);
    assert!(clean.clean);
    assert_eq!(clean.text, "No problems found (12 patterns checked)\n");
    let only_dups = verify_report(3, &dups, &[]);
    assert_eq!(
        only_dups.text,
        "Duplicate patterns:\n  line 3: target/ (same as line 1)\n\n1 duplicate(s), 0 unmatched pattern(s)\n"
    );
}

#[test]
fn pending_rules_drop_what_a_path_matches() {
    let rules = parse_rules("target/\n*.rs\n!src/main.rs\n/main.rs\napp/\n*.pdb\n");
    let mut pending = match PendingRules::new("/r", &rules) {
        Ok(p) => p,
        Err(_) => panic!("valid patterns"),
    };
    pending.observe("/r/src", true);
    pending.observe("/r/src/main.rs", false);
    pending.observe("/r/target", true);
    pending.observe("/r/target/debug", true);
    pending.observe("/r/target/debug/app", false);
    assert!(!pending.is_empty());
    let left: Vec<String> = pending.into_rules().iter().map(|r| r.pattern.clone()).collect();
    assert_eq!(left, ["/main.rs", "app/", "*.pdb"]);
}

#[test]
fn pending_rules_reject_the_first_invalid_glob() {
    let rules = parse_rules("ok\nbad{\nalso{\n");
    match PendingRules::new("/r", &rules) {
        Err(e) => {
            assert_eq!(e.line, 2);
            assert_eq!(e.pattern, "bad{");
            assert!(matches!(e.cause, CompileError::Line(_)));
        }
        Ok(_) => panic!("expected an invalid pattern"),
    }
}

#[test]
fn observing_more_paths_keeps_fewer_rules() {
    let rules = parse_rules("*.log
build/
!keep.log
docs/*.md
");
    let paths = [("/r/a.log", false), ("/r/build", true), ("/r/docs", true), ("/r/docs/x.md", false)];
    let mut kept: Vec<Vec<String>> = Vec::new();
    for n in 0..=paths.len() {
        let mut pending = match PendingRules::new("/r", &rules) {
            Ok(p) => p,
            Err(_) => panic!("valid patterns"),
        };
        for (path, is_dir) in &paths[..n] {
            pending.observe(path, *is_dir);
        }
        kept.push(pending.into_rules().iter().map(|r| r.pattern.clone()).collect());
    }
    assert_eq!(kept[0], ["*.log", "build/", "!keep.log", "docs/*.md"]);
    assert_eq!(kept[1], ["build/", "!keep.log", "docs/*.md"]);
    assert_eq!(kept[2], ["!keep.log", "docs/*.md"]);
    assert_eq!(kept[3], ["!keep.log", "docs/*.md"]);
    assert_eq!(kept[4], ["!keep.log"]);
}

#[test]
fn merging_a_template_into_itself_adds_nothing() {
    let template = "# Created\n\n### Go ###\n*.exe\nbin/  \n\n### Rust ###\n*.exe\ntarget/\n";
    let (block, added) = merge_addition(template, template, &s(&["go"]));
    assert_eq!(added, 0);
    assert_eq!(block, "");
}

#[test]
fn escaped_space_before_a_carriage_return_survives_a_second_run() {
    let presets = s(&["p"]);
    let existing = "a\\ \r";
    let template = "b\na\\\n";
    let first = plan_new_gitignore(existing, template, &presets, false);
    let c1 = contents_after(existing, &first);
    assert_eq!(c1, "a\\ \r\n\n# Added by git-ignore: p\nb\na\\\n");
    let second = plan_new_gitignore(&c1, template, &presets, false);
    assert!(matches!(second, NewGitignorePlan::AlreadyComplete));
    assert_eq!(contents_after(&c1, &second), c1);
}

#[test]
fn requested_presets_need_a_name() {
    assert_eq!(
        requested_presets(&s(&[" , ", ""])),
        Err("No preset given. Example: git-ignore new rust,go".to_string())
    );
    assert_eq!(requested_presets(&s(&["rust, Go", "go"])), Ok(s(&["rust", "Go"])));
}

#[test]
fn merge_depends_on_the_existing_patterns_only() {
    let template = "### A ###\na\nb\n\n### C ###\nc\n";
    let presets = s(&["x"]);
    let one = merge_addition("a\n# note\nc  \n", template, &presets);
    let two = merge_addition("c\n\na\n", template, &presets);
    assert_eq!(one, two);
    assert_eq!(one, ("# Added by git-ignore: x\n### A ###\nb\n".to_string(), 1));
    let fewer = merge_addition("a\n", template, &presets);
    assert_eq!(fewer.1, 2);
}

#[test]
fn presets_change_only_the_heading() {
    let template = "### A ###\na\nb\n";
    let (b1, n1) = merge_addition("a\n", template, &s(&["one"]));
    let (b2, n2) = merge_addition("a\n", template, &s(&["two", "three"]));
    assert_eq!(n1, n2);
    assert_eq!(b1, "# Added by git-ignore: one\n### A ###\nb\n");
    assert_eq!(b2, "# Added by git-ignore: two, three\n### A ###\nb\n");
}

#[test]
fn leading_comments_shift_line_numbers() {
    let contents = "target/\n# x\n*.log\n";
    let plain: Vec<(usize, String)> = parse_rules(contents).into_iter().map(|r| (r.line, r.pattern)).collect();
    let shifted: Vec<(usize, String)> =
        parse_rules(&format!("# note\n\n{}", contents)).into_iter().map(|r| (r.line, r.pattern)).collect();
    assert_eq!(plain, [(1, "target/".to_string()), (3, "*.log".to_string())]);
    assert_eq!(shifted, [(3, "target/".to_string()), (5, "*.log".to_string())]);
}

#[test]
fn preset_parsing_is_idempotent_and_ignores_joining() {
    let args = s(&[" rust ,go", "", "Rust,python", "go ,"]);
    let once = parse_presets(&args);
    assert_eq!(once, s(&["rust", "go", "python"]));
    assert_eq!(parse_presets(&once), once);
    assert_eq!(parse_presets(&[args.join(",")]), once);
}

#[test]
fn cached_names_read_back() {
    let names = parse_template_list("rust,go\r\n c++ ,\n\njava\n");
    assert_eq!(names, s(&["rust", "go", "c++", "java"]));
    assert_eq!(cached_template_names(&template_cache_contents(&names)), names);
    assert_eq!(cached_template_names(&template_cache_contents(&[])), Vec::<String>::new());
}

#[test]
fn zsh_script_fills_the_empty_list() {
    let empty = zsh_completion("");
    assert_eq!(empty.matches("templates=()").count(), 1);
    assert_eq!(zsh_completion("go rust"), empty.replacen("templates=()", "templates=(go rust)", 1));
    assert!(empty.contains("_message 'run \"git-ignore update-cache\" first'"));
}

#[test]
fn template_listing_counts_and_indents_the_names() {
    assert_eq!(template_listing(&[]), "Available templates (0):\n");
    let names = parse_template_list("rust,go\njava\n");
    assert_eq!(template_listing(&names), "Available templates (3):\n  rust\n  go\n  java\n");
}

#[test]
fn reported_duplicates_have_no_effect_on_the_rules_kept() {
    let rules = parse_rules("*.log\n!keep.log\n*.log\nbuild/\nbuild/\n");
    let dups = find_duplicates(&rules);
    let kept: Vec<(usize, String)> = unique_rules(&rules, &dups).into_iter().map(|r| (r.line, r.pattern)).collect();
    assert_eq!(
        kept,
        [(1, "*.log".to_string()), (2, "!keep.log".to_string()), (3, "*.log".to_string()), (4, "build/".to_string())]
    );
}
