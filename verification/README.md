# git_ignore

A tool that manages `.gitignore` files: it appends patterns, creates or
extends the file from gitignore.io presets (merging only the patterns the
file lacks), and checks the file for duplicate patterns and patterns that
match nothing.

The logic is a library verified with Verus; `app/main.rs` is the command-line
program around it (arguments, files, network, output).

- `src/text.rs`: text as `Seq<char>`: whitespace, trimming, splitting, lines.
- `src/rules.rs`: the rules of a `.gitignore` and its duplicate patterns.
- `src/presets.rs`: preset names from the command line.
- `src/merge.rs`: merging a template into an existing file.
- `src/update.rs`: what appending a pattern or creating the file writes.
- `src/catalog.rs`: template addresses, lists of template names and their listing, request outcomes.
- `src/completion.rs`: shell completion additions.
- `src/cache.rs`: where the cache of template names lives.
- `src/report.rs`: the report of checking a file.
- `src/matcher.rs`: rules that match no path, with the `ignore` crate; the
  rules kept after observing paths are exactly those no observed path matches.
- `src/laws.rs`: properties of merging and appending, such as that running
  the same preset twice changes nothing the second time, on every input.
- `src/merge_laws.rs`: a merge depends on the existing file only through its
  patterns, and on the presets only through the heading line.
- `src/rule_laws.rs`: leaving out the reported duplicates changes what the
  rules decide for no path; text put before the rules shifts their lines.
- `src/preset_laws.rs`: preset parsing is idempotent and ignores how the
  arguments were split.
- `src/catalog_laws.rs`: the template cache reads back the names written.
