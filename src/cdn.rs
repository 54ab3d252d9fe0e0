//! Addresses and script tags for libraries on the cdnjs host.

use vstd::prelude::*;

use crate::text::{owned, push_str};
use vstd::string::StrSliceExecFns;

verus! {

/// `suffix` without one leading `/`.
pub open spec fn strip_slash(suffix: Seq<char>) -> Seq<char> {
    if suffix.len() > 0 && suffix[0] == '/' {
        suffix.drop_first()
    } else {
        suffix
    }
}

/// The address of `suffix` on the cdnjs library host.
pub open spec fn cdnjs_url(suffix: Seq<char>) -> Seq<char> {
    "https://cdnjs.cloudflare.com/ajax/libs/"@ + strip_slash(suffix)
}

/// A script tag that loads `suffix` from the cdnjs library host.
pub open spec fn cdnjs_tag(suffix: Seq<char>) -> Seq<char> {
    "<script src=\""@ + cdnjs_url(suffix)
        + "\" crossorigin=\"anonymous\" referrerpolicy=\"no-referrer\"></script>"@
}

/// The address of `suffix` on the cdnjs library host; one leading `/` of the
/// suffix is dropped.
pub fn cdnjs_src(suffix: &str) -> (r: String)
    ensures
        r@ == cdnjs_url(suffix@),
{
    let n = suffix.unicode_len();
    let rest = if n > 0 && suffix.get_char(0) == '/' {
        suffix.substring_char(1, n)
    } else {
        suffix
    };
    assert(suffix@.drop_first() =~= suffix@.subrange(1, n as int));
    let mut r = owned("https://cdnjs.cloudflare.com/ajax/libs/");
    push_str(&mut r, rest);
    r
}

/// A script tag that loads `suffix` from the cdnjs library host anonymously and
/// sends no referrer.
pub fn cdnjs_script(suffix: &str) -> (r: String)
    ensures
        r@ == cdnjs_tag(suffix@),
{
    let src = cdnjs_src(suffix);
    let mut r = owned("<script src=\"");
    push_str(&mut r, src.as_str());
    push_str(&mut r, "\" crossorigin=\"anonymous\" referrerpolicy=\"no-referrer\"></script>");
    r
}

} // verus!
