//! Shell completion scripts that offer the cached template names.

use vstd::prelude::*;
use crate::catalog::concat_str;
use crate::merge::join_chars;
use crate::text::{chars_of, join, push_all, string_of, strs_of};

verus! {

/// The zsh completion script up to the line that lists the template names.
pub const ZSH_SCRIPT_HEAD: &'static str = r#"#compdef git-ignore

_git-ignore() {
  local curcontext="$curcontext" state

  # Handle subcommands
  if (( CURRENT > 2 )) && [[ "$words[2]" != -* ]]; then
    case $words[2] in
      completions)
        if (( CURRENT == 3 )); then
          local -a shells
          shells=(bash elvish fish powershell zsh)
          _describe 'shell' shells
        fi
        return ;;
      new)
        if [[ "$PREFIX" == -* ]]; then
          local -a opts
          opts=('-f:Overwrite an existing .gitignore' '--force:Overwrite an existing .gitignore')
          _describe 'option' opts
        else
          __git_ignore_templates
        fi
        return ;;
      update-cache|verify|help) return ;;
    esac
  fi

  # Complete -n/--new value
  if [[ "$words[CURRENT-1]" == -n || "$words[CURRENT-1]" == --new ]]; then
    __git_ignore_templates
    return
  fi

  # Complete options and subcommands
  if [[ "$PREFIX" == -* ]]; then
    local -a opts
    opts=(
      '-n:Generate a new .gitignore for the specified template(s)'
      '--new:Generate a new .gitignore for the specified template(s)'
      '-l:List available templates'
      '--list:List available templates'
      '-h:Print help'
      '--help:Print help'
    )
    _describe 'option' opts
  else
    local -a commands
    commands=(
      'new:Create or extend .gitignore from preset(s)'
      'completions:Generate shell completions'
      'update-cache:Update the local template cache'
      'verify:Check .gitignore for duplicate and unmatched patterns'
      'help:Print this message or the help of the given subcommand(s)'
    )
    _describe 'command' commands
  fi
}

__git_ignore_templates() {
  local -a templates
"#;

/// The line of the zsh script that lists the template names, up to them.
pub const ZSH_LIST_OPEN: &'static str = "  templates=(";

/// What closes the list of template names in the zsh script.
pub const ZSH_LIST_CLOSE: &'static str = ")";

/// The zsh completion script after the list of template names.
pub const ZSH_SCRIPT_TAIL: &'static str = r#"
  if (( $#templates )); then
    _describe 'template' templates
  else
    _message 'run "git-ignore update-cache" first'
  fi
}

_git-ignore "$@"
"#;

/// The bash lines that complete `-n`/`--new` up to the template names.
pub const BASH_EXTRA_HEAD: &'static str = "\n# Custom completion for -n/--new flag\n_git_ignore_templates() {\n    local templates=\"";

/// The bash lines that complete `-n`/`--new` after the template names.
pub const BASH_EXTRA_TAIL: &'static str = "\"\n    COMPREPLY=($(compgen -W \"$templates\" -- \"${COMP_WORDS[COMP_CWORD]}\"))\n}\ncomplete -F _git_ignore_templates git-ignore -n\ncomplete -F _git_ignore_templates git-ignore --new\n";

/// The fish lines that introduce the completions of `-n`/`--new`.
pub const FISH_EXTRA_HEAD: &'static str = "\n# Custom completion for -n/--new flag\n";

/// The fish completion line of one template name, up to the name.
pub const FISH_LINE_HEAD: &'static str = "complete -c git-ignore -s n -l new -xa '";

/// The fish completion line of one template name, after the name.
pub const FISH_LINE_TAIL: &'static str = "'\n";

/// The fish completion line of one template name as an argument of the
/// `new` subcommand, up to the name.
pub const FISH_NEW_HEAD: &'static str = "complete -c git-ignore -n '__fish_seen_subcommand_from new' -xa '";

// ---------------------------------------------------------------------------
// Models
// ---------------------------------------------------------------------------

/// The zsh completion script that offers `templates` (space-separated names).
pub open spec fn zsh_script(templates: Seq<char>) -> Seq<char> {
    ZSH_SCRIPT_HEAD@ + ZSH_LIST_OPEN@ + templates + ZSH_LIST_CLOSE@ + ZSH_SCRIPT_TAIL@
}

/// The bash completion lines for the template names (none without names).
pub open spec fn bash_extra(names: Seq<Seq<char>>) -> Seq<char> {
    if names.len() == 0 {
        seq![]
    } else {
        BASH_EXTRA_HEAD@ + join(names, " "@) + BASH_EXTRA_TAIL@
    }
}

/// The fish completion lines of each template name (as the value of
/// `-n`/`--new`, then as an argument of `new`), concatenated.
pub open spec fn fish_lines(names: Seq<Seq<char>>) -> Seq<char>
    decreases names.len(),
{
    if names.len() == 0 {
        seq![]
    } else {
        fish_lines(names.drop_last()) + FISH_LINE_HEAD@ + names.last() + FISH_LINE_TAIL@ + FISH_NEW_HEAD@
            + names.last() + FISH_LINE_TAIL@
    }
}

/// The fish completion lines for the template names (none without names).
pub open spec fn fish_extra(names: Seq<Seq<char>>) -> Seq<char> {
    if names.len() == 0 {
        seq![]
    } else {
        FISH_EXTRA_HEAD@ + fish_lines(names)
    }
}

// ---------------------------------------------------------------------------
// Executable functions
// ---------------------------------------------------------------------------

/// The zsh completion script, offering `templates` (space-separated names) as presets.
pub fn zsh_completion(templates: &str) -> (r: String)
    ensures
        r@ == zsh_script(templates@),
{
    let head = concat_str(ZSH_SCRIPT_HEAD, ZSH_LIST_OPEN);
    let listed = concat_str(head.as_str(), templates);
    let closed = concat_str(listed.as_str(), ZSH_LIST_CLOSE);
    concat_str(closed.as_str(), ZSH_SCRIPT_TAIL)
}

/// The template names as the zsh script lists them: separated by spaces.
pub fn zsh_template_list(names: &[String]) -> (r: String)
    ensures
        r@ == join(strs_of(names@), " "@),
{
    string_of(join_chars(names, " ").as_slice())
}

/// What the bash completion script gets appended so that `-n`/`--new`
/// completes template names; nothing without names.
pub fn bash_template_completion(names: &[String]) -> (r: String)
    ensures
        r@ == bash_extra(strs_of(names@)),
{
    if names.len() == 0 {
        return String::new();
    }
    let mut v = chars_of(BASH_EXTRA_HEAD);
    let list = join_chars(names, " ");
    push_all(&mut v, list.as_slice());
    let tail = chars_of(BASH_EXTRA_TAIL);
    push_all(&mut v, tail.as_slice());
    string_of(v.as_slice())
}

/// What the fish completion script gets appended so that `-n`/`--new` and
/// the arguments of `new` complete template names; nothing without names.
pub fn fish_template_completion(names: &[String]) -> (r: String)
    ensures
        r@ == fish_extra(strs_of(names@)),
{
    let ghost nv = strs_of(names@);
    if names.len() == 0 {
        return String::new();
    }
    let mut v = chars_of(FISH_EXTRA_HEAD);
    let ghost h = v@;
    let lh = chars_of(FISH_LINE_HEAD);
    let lt = chars_of(FISH_LINE_TAIL);
    let nh = chars_of(FISH_NEW_HEAD);
    let mut i: usize = 0;
    assert(nv.take(0) =~= Seq::<Seq<char>>::empty());
    assert(v@ =~= h + fish_lines(nv.take(0)));
    while i < names.len()
        invariant
            i <= names@.len(),
            nv == strs_of(names@),
            lh@ == FISH_LINE_HEAD@,
            lt@ == FISH_LINE_TAIL@,
            nh@ == FISH_NEW_HEAD@,
            v@ == h + fish_lines(nv.take(i as int)),
        decreases names@.len() - i,
    {
        let name = chars_of(names[i].as_str());
        assert(nv.take(i + 1).drop_last() =~= nv.take(i as int));
        assert(nv.take(i + 1).last() == name@);
        push_all(&mut v, lh.as_slice());
        push_all(&mut v, name.as_slice());
        push_all(&mut v, lt.as_slice());
        push_all(&mut v, nh.as_slice());
        push_all(&mut v, name.as_slice());
        push_all(&mut v, lt.as_slice());
        assert(v@ =~= h + fish_lines(nv.take(i + 1)));
        i = i + 1;
    }
    assert(nv.take(names@.len() as int) =~= nv);
    string_of(v.as_slice())
}

/// The zsh script for some names is the script for no names with the names
/// put into its empty list `  templates=()`, which starts right after
/// `ZSH_SCRIPT_HEAD`.
pub proof fn law_zsh_script_fills_the_empty_list(templates: Seq<char>)
    ensures
        zsh_script(seq![]).subrange(ZSH_SCRIPT_HEAD@.len() as int, ZSH_SCRIPT_HEAD@.len() as int + 14)
            == "  templates=()"@,
        zsh_script(templates) == zsh_script(seq![]).take(ZSH_SCRIPT_HEAD@.len() as int) + "  templates=("@ + templates
            + ")"@ + zsh_script(seq![]).skip(ZSH_SCRIPT_HEAD@.len() as int + 14),
{
    reveal_strlit("  templates=(");
    reveal_strlit(")");
    reveal_strlit("  templates=()");
    let h = ZSH_SCRIPT_HEAD@;
    let empty = zsh_script(seq![]);
    assert(ZSH_LIST_OPEN@ =~= "  templates=("@);
    assert(ZSH_LIST_CLOSE@ =~= ")"@);
    assert(empty =~= h + ("  templates=("@ + ")"@) + ZSH_SCRIPT_TAIL@);
    assert(empty.subrange(h.len() as int, h.len() as int + 14) =~= "  templates=()"@);
    assert(empty.take(h.len() as int) =~= h);
    assert(empty.skip(h.len() as int + 14) =~= ZSH_SCRIPT_TAIL@);
    assert(zsh_script(templates) =~= h + "  templates=("@ + templates + ")"@ + ZSH_SCRIPT_TAIL@);
}

} // verus!
