//! Expanding template directives into the page of a session.

use vstd::prelude::*;

use crate::cdn::{cdnjs_script, cdnjs_tag};
use crate::html::{HtmlPart, HtmlPartView};
use crate::text::{owned, push_str};

verus! {

/// Why a template's directives could not be expanded.
#[derive(Clone, Debug, PartialEq, Eq)]
pub enum DirectiveError {
    /// `inject!(editors.x)` names no known editor `x`.
    UnknownEditor(String),
    /// `inject!(x...)` starts with no known command `x`.
    UnknownCommand(String),
    /// `inject!()` names nothing.
    Empty,
}

/// The mathematical form of a [`DirectiveError`].
pub enum DirectiveErrorView {
    UnknownEditor(Seq<char>),
    UnknownCommand(Seq<char>),
    Empty,
}

impl View for DirectiveError {
    type V = DirectiveErrorView;

    open spec fn view(&self) -> DirectiveErrorView {
        match self {
            DirectiveError::UnknownEditor(s) => DirectiveErrorView::UnknownEditor(s@),
            DirectiveError::UnknownCommand(s) => DirectiveErrorView::UnknownCommand(s@),
            DirectiveError::Empty => DirectiveErrorView::Empty,
        }
    }
}

impl DirectiveError {
    /// What went wrong, in words.
    pub fn message(&self) -> (r: String)
        ensures
            r@ == match self@ {
                DirectiveErrorView::UnknownEditor(s) => "Unexpected second segment in inject(urls."@
                    + s + ")"@,
                DirectiveErrorView::UnknownCommand(s) => "Unexpected command: inject!("@ + s
                    + ", …)"@,
                DirectiveErrorView::Empty => "Unexpected empty inject!()"@,
            },
    {
        match self {
            DirectiveError::UnknownEditor(s) => {
                let mut r = owned("Unexpected second segment in inject(urls.");
                push_str(&mut r, s.as_str());
                push_str(&mut r, ")");
                r
            },
            DirectiveError::UnknownCommand(s) => {
                let mut r = owned("Unexpected command: inject!(");
                push_str(&mut r, s.as_str());
                push_str(&mut r, ", …)");
                r
            },
            DirectiveError::Empty => owned("Unexpected empty inject!()"),
        }
    }
}

/// The address under which the session `id` serves the page file `suffix`.
pub open spec fn page_url(id: Seq<char>, suffix: Seq<char>) -> Seq<char> {
    "/api/session/"@ + id + "/page"@ + suffix
}

/// A script tag that loads the bundled file `path`.
pub open spec fn public_script(path: Seq<char>) -> Seq<char> {
    "<script src=\"/dist/"@ + path + "\"></script>"@
}

/// What the directive naming `p` stands for in the page of session `id`.
pub open spec fn directive_text(id: Seq<char>, p: Seq<Seq<char>>) -> Result<
    Seq<char>,
    DirectiveErrorView,
> {
    if p == seq!["console"@] {
        Ok(public_script("console.bundle.js"@))
    } else if p == seq!["editors"@, "js"@] || p == seq!["editors"@, "js"@, "url"@] {
        Ok(page_url(id, ".js"@))
    } else if p == seq!["editors"@, "js"@, "raw"@] || p == seq![
        "editors"@,
        "js"@,
        "raw"@,
        "url"@,
    ] {
        Ok(page_url(id, ".js.raw"@))
    } else if p == seq!["editors"@, "css"@] || p == seq!["editors"@, "css"@, "url"@] || p == seq![
        "editors"@,
        "css"@,
        "raw"@,
    ] || p == seq!["editors"@, "css"@, "url"@, "raw"@] {
        Ok(page_url(id, ".css"@))
    } else if p == seq!["deps"@, "react"@] {
        Ok(cdnjs_tag("react/17.0.2/umd/react.development.min.js"@) + cdnjs_tag(
            "react-dom/17.0.2/umd/react-dom.development.min.js"@,
        ))
    } else if p == seq!["deps"@, "jquery"@] {
        Ok(cdnjs_tag("jquery/3.6.0/jquery.min.js"@))
    } else if p.len() >= 2 && p[0] == "editors"@ {
        Err(DirectiveErrorView::UnknownEditor(p[1]))
    } else if p.len() >= 1 {
        Err(DirectiveErrorView::UnknownCommand(p[0]))
    } else {
        Err(DirectiveErrorView::Empty)
    }
}

/// What a template part stands for in the page of session `id`.
pub open spec fn part_text(id: Seq<char>, part: HtmlPartView) -> Result<Seq<char>, DirectiveErrorView> {
    match part {
        HtmlPartView::Literal(s) => Ok(s),
        HtmlPartView::IncludePath(p) => directive_text(id, p),
    }
}

/// The page of session `id` built from `parts`, or the first directive that
/// cannot be expanded.
pub open spec fn page_text(id: Seq<char>, parts: Seq<HtmlPartView>) -> Result<
    Seq<char>,
    DirectiveErrorView,
>
    decreases parts.len(),
{
    if parts.len() == 0 {
        Ok(Seq::empty())
    } else {
        match page_text(id, parts.drop_last()) {
            Err(e) => Err(e),
            Ok(s) => match part_text(id, parts.last()) {
                Ok(t) => Ok(s + t),
                Err(e) => Err(e),
            },
        }
    }
}

/// The characters of each string of `v`.
pub open spec fn strings(v: Seq<String>) -> Seq<Seq<char>> {
    v.map_values(|x: String| x@)
}

/// The characters of each word of `w`.
pub open spec fn words(w: Seq<&str>) -> Seq<Seq<char>> {
    w.map_values(|x: &str| x@)
}

/// Whether the path `p` is exactly the words `w`.
fn path_is(p: &Vec<String>, w: &Vec<&str>) -> (r: bool)
    ensures
        r == (strings(p@) == words(w@)),
{
    if p.len() != w.len() {
        assert(strings(p@).len() != words(w@).len());
        return false;
    }
    let mut k: usize = 0;
    while k < p.len()
        invariant
            k <= p@.len(),
            p@.len() == w@.len(),
            forall|j: int| 0 <= j < k ==> p@[j]@ == w@[j]@,
        decreases p@.len() - k,
    {
        let word = owned(w[k]);
        if p[k] != word {
            assert(strings(p@)[k as int] != words(w@)[k as int]);
            return false;
        }
        k = k + 1;
    }
    assert(strings(p@) =~= words(w@));
    true
}

/// Whether `s` is the word `w`.
fn word_is(s: &String, w: &str) -> (r: bool)
    ensures
        r == (s@ == w@),
{
    let word = owned(w);
    *s == word
}

/// What the directive naming `p` stands for in the page of session `id`.
pub fn expand_directive(id: &str, p: &Vec<String>) -> (r: Result<String, DirectiveError>)
    ensures
        match r {
            Ok(s) => directive_text(id@, strings(p@)) == Ok::<Seq<char>, DirectiveErrorView>(s@),
            Err(e) => directive_text(id@, strings(p@)) == Err::<Seq<char>, DirectiveErrorView>(e@),
        },
{
    let ghost sp = strings(p@);
    let page = |suffix: &str| -> (r: String)
        ensures
            r@ == page_url(id@, suffix@),
        {
            let mut r = owned("/api/session/");
            push_str(&mut r, id);
            push_str(&mut r, "/page");
            push_str(&mut r, suffix);
            r
        };
    let console = vec!["console"];
    let js = vec!["editors", "js"];
    let js_url = vec!["editors", "js", "url"];
    let js_raw = vec!["editors", "js", "raw"];
    let js_raw_url = vec!["editors", "js", "raw", "url"];
    let css = vec!["editors", "css"];
    let css_url = vec!["editors", "css", "url"];
    let css_raw = vec!["editors", "css", "raw"];
    let css_url_raw = vec!["editors", "css", "url", "raw"];
    let react = vec!["deps", "react"];
    let jquery = vec!["deps", "jquery"];
    proof {
        assert(words(console@) =~= seq!["console"@]);
        assert(words(js@) =~= seq!["editors"@, "js"@]);
        assert(words(js_url@) =~= seq!["editors"@, "js"@, "url"@]);
        assert(words(js_raw@) =~= seq!["editors"@, "js"@, "raw"@]);
        assert(words(js_raw_url@) =~= seq!["editors"@, "js"@, "raw"@, "url"@]);
        assert(words(css@) =~= seq!["editors"@, "css"@]);
        assert(words(css_url@) =~= seq!["editors"@, "css"@, "url"@]);
        assert(words(css_raw@) =~= seq!["editors"@, "css"@, "raw"@]);
        assert(words(css_url_raw@) =~= seq!["editors"@, "css"@, "url"@, "raw"@]);
        assert(words(react@) =~= seq!["deps"@, "react"@]);
        assert(words(jquery@) =~= seq!["deps"@, "jquery"@]);
    }
    if path_is(p, &console) {
        let mut r = owned("<script src=\"/dist/");
        push_str(&mut r, "console.bundle.js");
        push_str(&mut r, "\"></script>");
        Ok(r)
    } else if path_is(p, &js) || path_is(p, &js_url) {
        Ok(page(".js"))
    } else if path_is(p, &js_raw) || path_is(p, &js_raw_url) {
        Ok(page(".js.raw"))
    } else if path_is(p, &css) || path_is(p, &css_url) || path_is(p, &css_raw) || path_is(
        p,
        &css_url_raw,
    ) {
        Ok(page(".css"))
    } else if path_is(p, &react) {
        let mut r = cdnjs_script("react/17.0.2/umd/react.development.min.js");
        let dom = cdnjs_script("react-dom/17.0.2/umd/react-dom.development.min.js");
        push_str(&mut r, dom.as_str());
        Ok(r)
    } else if path_is(p, &jquery) {
        Ok(cdnjs_script("jquery/3.6.0/jquery.min.js"))
    } else if p.len() >= 2 && word_is(&p[0], "editors") {
        assert(sp[0] == p@[0]@ && sp[1] == p@[1]@);
        Err(DirectiveError::UnknownEditor(p[1].clone()))
    } else if p.len() >= 1 {
        assert(sp[0] == p@[0]@);
        Err(DirectiveError::UnknownCommand(p[0].clone()))
    } else {
        Err(DirectiveError::Empty)
    }
}

/// Builds the page of session `id` from the parts of its template: text is
/// copied and each directive expanded; the first directive that cannot be
/// expanded is the error.
pub fn render_page(id: &str, parts: &Vec<HtmlPart>) -> (r: Result<String, DirectiveError>)
    ensures
        match r {
            Ok(s) => page_text(id@, parts@.map_values(|x: HtmlPart| x@)) == Ok::<
                Seq<char>,
                DirectiveErrorView,
            >(s@),
            Err(e) => page_text(id@, parts@.map_values(|x: HtmlPart| x@)) == Err::<
                Seq<char>,
                DirectiveErrorView,
            >(e@),
        },
{
    let ghost pv = parts@.map_values(|x: HtmlPart| x@);
    let mut out = String::new();
    let mut i: usize = 0;
    assert(pv.subrange(0, 0) =~= Seq::<HtmlPartView>::empty());
    while i < parts.len()
        invariant
            i <= parts@.len(),
            pv == parts@.map_values(|x: HtmlPart| x@),
            page_text(id@, pv.subrange(0, i as int)) == Ok::<Seq<char>, DirectiveErrorView>(out@),
        decreases parts@.len() - i,
    {
        let ghost t = pv.subrange(0, i + 1);
        assert(t.drop_last() =~= pv.subrange(0, i as int));
        assert(t.last() == parts@[i as int]@);
        match &parts[i] {
            HtmlPart::Literal(s) => {
                push_str(&mut out, s.as_str());
            },
            HtmlPart::IncludePath(p) => {
                match expand_directive(id, p) {
                    Ok(s) => {
                        push_str(&mut out, s.as_str());
                    },
                    Err(e) => {
                        proof {
                            lemma_error_stays(id@, pv, i + 1, e@);
                        }
                        return Err(e);
                    },
                }
            },
        }
        i = i + 1;
    }
    assert(pv.subrange(0, i as int) =~= pv);
    Ok(out)
}

/// Once a prefix of the parts fails, every longer prefix fails the same way.
proof fn lemma_error_stays(id: Seq<char>, pv: Seq<HtmlPartView>, k: int, e: DirectiveErrorView)
    requires
        0 <= k <= pv.len(),
        page_text(id, pv.subrange(0, k)) == Err::<Seq<char>, DirectiveErrorView>(e),
    ensures
        page_text(id, pv) == Err::<Seq<char>, DirectiveErrorView>(e),
    decreases pv.len() - k,
{
    if k == pv.len() {
        assert(pv.subrange(0, k) =~= pv);
    } else {
        let t = pv.subrange(0, k + 1);
        assert(t.drop_last() =~= pv.subrange(0, k));
        lemma_error_stays(id, pv, k + 1, e);
    }
}

} // verus!
