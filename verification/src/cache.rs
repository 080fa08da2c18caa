//! Where the local cache of template names lives.

use vstd::prelude::*;
use crate::catalog::concat_str;

verus! {

/// `base` with `component` appended as one more path component, as
/// `Path::join` does for a relative component with `/` as the separator:
/// a separator goes between them unless `base` is empty or already ends with one.
pub open spec fn path_join(base: Seq<char>, component: Seq<char>) -> Seq<char> {
    if base.len() == 0 || base.last() == '/' {
        base + component
    } else {
        base + "/"@ + component
    }
}

/// `base` joined with the relative `component`.
pub fn join_path(base: &str, component: &str) -> (r: String)
    ensures
        r@ == path_join(base@, component@),
{
    let n: usize = base.unicode_len();
    if n == 0 || base.get_char(n - 1) == '/' {
        concat_str(base, component)
    } else {
        let with_sep = concat_str(base, "/");
        concat_str(with_sep.as_str(), component)
    }
}

/// The directory of this tool's cache inside the user's cache directory `cache_root`.
pub fn cache_dir_path(cache_root: &str) -> (r: String)
    ensures
        r@ == path_join(cache_root@, "git-ignore"@),
{
    join_path(cache_root, "git-ignore")
}

/// The file that caches the template names, inside the user's cache directory `cache_root`.
pub fn get_cache_path(cache_root: &str) -> (r: String)
    ensures
        r@ == path_join(path_join(cache_root@, "git-ignore"@), "templates.txt"@),
{
    let dir = cache_dir_path(cache_root);
    join_path(dir.as_str(), "templates.txt")
}

} // verus!
