//! Link construction: resolve a repository's source-browser URL from its
//! configured templates, the acting revision, a file path, and optionally a
//! line number for a deep-link anchor.

use vstd::prelude::*;

use crate::results::{RepoConfig, RepoConfigV};
use crate::text::{replace_all, replace_chars, str_chars, chars_to_string, dec_rep, u64_digits};

verus! {

/// The browse link for a file: `{url}`, `{rev}` and `{path}` substituted into
/// the base template; `{anchor}` replaced by the anchor template with
/// `{line}` substituted when a line number is given, and by nothing when not.
pub open spec fn build_url_spec(
    cfg: RepoConfigV,
    rev: Seq<char>,
    path: Seq<char>,
    lineno: Option<u32>,
) -> Seq<char> {
    let anchor = match lineno {
        Some(n) => replace_all(cfg.url_pattern.anchor, "{line}"@, dec_rep(n as nat)),
        None => Seq::<char>::empty(),
    };
    replace_all(
        replace_all(
            replace_all(replace_all(cfg.url_pattern.base_url, "{url}"@, cfg.url), "{rev}"@, rev),
            "{path}"@,
            path,
        ),
        "{anchor}"@,
        anchor,
    )
}

/// Build the browse link for `path` at `rev` under the repository's
/// configured templates, deep-linking to `lineno` when one is given.
pub fn build_url(cfg: &RepoConfig, rev: &str, path: &str, lineno: Option<u32>) -> (r: String)
    ensures
        r@ == build_url_spec(cfg@, rev@, path@, lineno),
{
    proof {
        reveal_strlit("{url}");
        reveal_strlit("{rev}");
        reveal_strlit("{path}");
        reveal_strlit("{anchor}");
        reveal_strlit("{line}");
    }
    let anchor: Vec<char> = match lineno {
        Some(n) => {
            let tmpl = str_chars(cfg.url_pattern.anchor.as_str());
            let pat = str_chars("{line}");
            let num = u64_digits(n as u64);
            replace_chars(&tmpl, &pat, &num)
        },
        None => Vec::new(),
    };
    proof {
        assert(anchor@ == (match lineno {
            Some(n) => replace_all(cfg@.url_pattern.anchor, "{line}"@, dec_rep(n as nat)),
            None => Seq::<char>::empty(),
        }));
    }
    let base = str_chars(cfg.url_pattern.base_url.as_str());
    let url = str_chars(cfg.url.as_str());
    let rev_chars = str_chars(rev);
    let path_chars = str_chars(path);
    let pat_url = str_chars("{url}");
    let pat_rev = str_chars("{rev}");
    let pat_path = str_chars("{path}");
    let pat_anchor = str_chars("{anchor}");
    let step1 = replace_chars(&base, &pat_url, &url);
    let step2 = replace_chars(&step1, &pat_rev, &rev_chars);
    let step3 = replace_chars(&step2, &pat_path, &path_chars);
    let step4 = replace_chars(&step3, &pat_anchor, &anchor);
    chars_to_string(&step4)
}

} // verus!
