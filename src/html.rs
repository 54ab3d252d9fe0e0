//! Splitting HTML templates into text and `inject!(...)` directives.

use vstd::prelude::*;

use crate::text::{chars_of, is_whitespace, string_of, whitespace_char};
use vstd::slice::slice_subrange;

verus! {

/// A piece of an HTML template.
#[derive(Clone, Debug, PartialEq, Eq)]
pub enum HtmlPart {
    /// Text to copy as it is.
    Literal(String),
    /// An `inject!(a.b.c)` directive: the dotted path it names.
    IncludePath(Vec<String>),
}

/// The mathematical form of an [`HtmlPart`].
pub enum HtmlPartView {
    Literal(Seq<char>),
    IncludePath(Seq<Seq<char>>),
}

impl View for HtmlPart {
    type V = HtmlPartView;

    open spec fn view(&self) -> HtmlPartView {
        match self {
            HtmlPart::Literal(s) => HtmlPartView::Literal(s@),
            HtmlPart::IncludePath(v) => HtmlPartView::IncludePath(v@.map_values(|x: String| x@)),
        }
    }
}

/// The views of a sequence of parts.
pub open spec fn part_views(parts: Seq<HtmlPart>) -> Seq<HtmlPartView> {
    parts.map_values(|p: HtmlPart| p@)
}

/// Why a template could not be split.
#[derive(Clone, Copy, Debug, PartialEq, Eq, Structural)]
pub enum HtmlError {
    /// A directive's `)` comes only after the end of its line.
    NotClosedOnLine,
    /// A directive has no `)` after it.
    NotClosed,
}

impl HtmlError {
    /// What went wrong, in words.
    pub fn message(&self) -> (r: &'static str)
        ensures
            *self == HtmlError::NotClosedOnLine ==> r@ == "inject! calls must be closed on the same line"@,
            *self == HtmlError::NotClosed ==> r@ == "inject! calls must be closed (on the same line)"@,
    {
        match self {
            HtmlError::NotClosedOnLine => "inject! calls must be closed on the same line",
            HtmlError::NotClosed => "inject! calls must be closed (on the same line)",
        }
    }
}

/// `s` without its leading white space.
pub open spec fn trim_start(s: Seq<char>) -> Seq<char>
    decreases s.len(),
{
    if s.len() > 0 && whitespace_char(s[0]) {
        trim_start(s.drop_first())
    } else {
        s
    }
}

/// `s` without its trailing white space.
pub open spec fn trim_end(s: Seq<char>) -> Seq<char>
    decreases s.len(),
{
    if s.len() > 0 && whitespace_char(s.last()) {
        trim_end(s.drop_last())
    } else {
        s
    }
}

/// `s` without leading or trailing white space.
pub open spec fn trim(s: Seq<char>) -> Seq<char> {
    trim_end(trim_start(s))
}

/// The first index from `from` on where `s` holds `c`, or -1.
pub open spec fn find_char(s: Seq<char>, c: char, from: int) -> int
    decreases s.len() - from,
{
    if from < 0 || from >= s.len() {
        -1
    } else if s[from] == c {
        from
    } else {
        find_char(s, c, from + 1)
    }
}

/// The first index from `from` on where `pat` starts in `s`, or -1.
pub open spec fn find_pat(s: Seq<char>, pat: Seq<char>, from: int) -> int
    decreases s.len() - from,
{
    if from < 0 || from + pat.len() > s.len() {
        -1
    } else if s.subrange(from, from + pat.len()) == pat {
        from
    } else if from >= s.len() {
        -1
    } else {
        find_pat(s, pat, from + 1)
    }
}

/// The pieces of `s` from `from` on, cut at each `c`.
pub open spec fn split_on(s: Seq<char>, c: char, from: int) -> Seq<Seq<char>>
    decreases s.len() - from,
{
    let d = find_char(s, c, from);
    if d < from || d >= s.len() {
        seq![s.subrange(from, s.len() as int)]
    } else {
        seq![s.subrange(from, d)] + split_on(s, c, d + 1)
    }
}

/// The dotted path that a directive holds: its pieces, each trimmed.
pub open spec fn path_of(contents: Seq<char>) -> Seq<Seq<char>> {
    split_on(contents, '.', 0).map_values(|p: Seq<char>| trim(p))
}

/// The opening of a directive.
pub open spec fn directive() -> Seq<char> {
    "inject!("@
}

/// The parts of `s` from `from` on: text, and the path of each directive,
/// which must close on its own line.
pub open spec fn parse_from(s: Seq<char>, from: int) -> Result<Seq<HtmlPartView>, HtmlError>
    decreases s.len() - from,
{
    let st = find_pat(s, directive(), from);
    if st < from {
        Ok(seq![HtmlPartView::Literal(s.subrange(from, s.len() as int))])
    } else {
        let e = find_char(s, ')', st);
        let nl = find_char(s, '\n', st);
        if e < st || e >= s.len() {
            Err(HtmlError::NotClosed)
        } else if st <= nl && nl < e {
            Err(HtmlError::NotClosedOnLine)
        } else {
            match parse_from(s, e + 1) {
                Ok(rest) => Ok(
                    seq![
                        HtmlPartView::Literal(s.subrange(from, st)),
                        HtmlPartView::IncludePath(path_of(trim(s.subrange(st + 8, e)))),
                    ] + rest,
                ),
                Err(x) => Err(x),
            }
        }
    }
}

/// The first index from `from` on where `v` holds `c`, or `None`.
fn find_char_exec(v: &Vec<char>, c: char, from: usize) -> (r: Option<usize>)
    requires
        from <= v@.len(),
    ensures
        match r {
            Some(i) => i == find_char(v@, c, from as int),
            None => find_char(v@, c, from as int) == -1,
        },
        r matches Some(i) ==> from <= i < v@.len() && v@[i as int] == c,
{
    let mut i = from;
    while i < v.len()
        invariant
            from <= i <= v@.len(),
            find_char(v@, c, from as int) == find_char(v@, c, i as int),
        decreases v@.len() - i,
    {
        if v[i] == c {
            return Some(i);
        }
        i = i + 1;
    }
    None
}

/// Whether `pat` stands in `v` at `i`.
fn matches_at(v: &Vec<char>, pat: &Vec<char>, i: usize) -> (r: bool)
    requires
        i + pat@.len() <= v@.len(),
    ensures
        r == (v@.subrange(i as int, i + pat@.len()) == pat@),
{
    let n = v.len();
    let mut k: usize = 0;
    while k < pat.len()
        invariant
            k <= pat@.len(),
            n == v@.len(),
            i + pat@.len() <= v@.len(),
            forall|j: int| 0 <= j < k ==> v@[i + j] == pat@[j],
        decreases pat@.len() - k,
    {
        if v[i + k] != pat[k] {
            assert(v@.subrange(i as int, i + pat@.len())[k as int] != pat@[k as int]);
            return false;
        }
        k = k + 1;
    }
    assert(v@.subrange(i as int, i + pat@.len()) =~= pat@);
    true
}

/// The first index from `from` on where `pat` starts in `v`, or `None`.
fn find_pat_exec(v: &Vec<char>, pat: &Vec<char>, from: usize) -> (r: Option<usize>)
    requires
        from <= v@.len(),
        pat@.len() > 0,
    ensures
        match r {
            Some(i) => i == find_pat(v@, pat@, from as int),
            None => find_pat(v@, pat@, from as int) == -1,
        },
        r matches Some(i) ==> from <= i && i + pat@.len() <= v@.len() && v@.subrange(
            i as int,
            i + pat@.len(),
        ) == pat@,
{
    let mut i = from;
    while i < v.len() && pat.len() <= v.len() - i
        invariant
            from <= i <= v@.len(),
            find_pat(v@, pat@, from as int) == find_pat(v@, pat@, i as int),
        decreases v@.len() - i,
    {
        if matches_at(v, pat, i) {
            return Some(i);
        }
        i = i + 1;
    }
    None
}

/// The indices that bound `v[a..b]` without leading or trailing white space.
fn trim_range(v: &Vec<char>, a: usize, b: usize) -> (r: (usize, usize))
    requires
        a <= b <= v@.len(),
    ensures
        a <= r.0 <= r.1 <= b,
        v@.subrange(r.0 as int, r.1 as int) == trim(v@.subrange(a as int, b as int)),
{
    let mut lo = a;
    while lo < b && is_whitespace(v[lo])
        invariant
            a <= lo <= b <= v@.len(),
            trim_start(v@.subrange(a as int, b as int)) == trim_start(v@.subrange(lo as int, b as int)),
        decreases b - lo,
    {
        assert(v@.subrange(lo as int, b as int).drop_first() =~= v@.subrange(lo + 1, b as int));
        lo = lo + 1;
    }
    let mut hi = b;
    while hi > lo && is_whitespace(v[hi - 1])
        invariant
            a <= lo <= hi <= b <= v@.len(),
            trim_end(v@.subrange(lo as int, b as int)) == trim_end(v@.subrange(lo as int, hi as int)),
        decreases hi - lo,
    {
        assert(v@.subrange(lo as int, hi as int).drop_last() =~= v@.subrange(lo as int, hi - 1));
        hi = hi - 1;
    }
    (lo, hi)
}

/// The string `v[a..b]`.
fn piece(v: &Vec<char>, a: usize, b: usize) -> (r: String)
    requires
        a <= b <= v@.len(),
    ensures
        r@ == v@.subrange(a as int, b as int),
{
    string_of(slice_subrange(v.as_slice(), a, b))
}

/// The trimmed pieces of `v[a..b]`, cut at each `.`.
fn split_path(v: &Vec<char>, a: usize, b: usize) -> (r: Vec<String>)
    requires
        a <= b <= v@.len(),
    ensures
        r@.map_values(|x: String| x@) == path_of(v@.subrange(a as int, b as int)),
{
    let ghost c = v@.subrange(a as int, b as int);
    let mut out: Vec<String> = Vec::new();
    let mut from = a;
    loop
        invariant
            a <= from <= b <= v@.len(),
            c == v@.subrange(a as int, b as int),
            split_on(c, '.', 0).map_values(|p: Seq<char>| trim(p)) == out@.map_values(|x: String| x@)
                + split_on(c, '.', from - a).map_values(|p: Seq<char>| trim(p)),
        decreases b - from,
    {
        let mut d = from;
        while d < b && v[d] != '.'
            invariant
                a <= from <= d <= b <= v@.len(),
                c == v@.subrange(a as int, b as int),
                find_char(c, '.', from - a) == find_char(c, '.', d - a),
            decreases b - d,
        {
            assert(c[d - a] == v@[d as int]);
            d = d + 1;
        }
        let (lo, hi) = trim_range(v, from, d);
        let s = piece(v, lo, hi);
        let ghost before = out@.map_values(|x: String| x@);
        out.push(s);
        assert(out@.map_values(|x: String| x@) =~= before.push(s@));
        assert(c.subrange(from - a, d - a) =~= v@.subrange(from as int, d as int));
        if d == b {
            proof {
                assert(split_on(c, '.', from - a) == seq![c.subrange(from - a, c.len() as int)]);
                assert(seq![c.subrange(from - a, c.len() as int)].map_values(|p: Seq<char>| trim(p))
                    =~= seq![trim(c.subrange(from - a, c.len() as int))]);
                assert(out@.map_values(|x: String| x@) =~= before + seq![trim(c.subrange(from - a, c.len() as int))]);
            }
            return out;
        }
        proof {
            let rest = split_on(c, '.', d + 1 - a);
            assert(split_on(c, '.', from - a) == seq![c.subrange(from - a, d - a)] + rest);
            assert((seq![c.subrange(from - a, d - a)] + rest).map_values(|p: Seq<char>| trim(p))
                =~= seq![trim(c.subrange(from - a, d - a))] + rest.map_values(|p: Seq<char>| trim(p)));
            assert(before + (seq![trim(c.subrange(from - a, d - a))] + rest.map_values(|p: Seq<char>| trim(p)))
                =~= before.push(s@) + rest.map_values(|p: Seq<char>| trim(p)));
        }
        from = d + 1;
    }
}

/// Splits an HTML template into literal text and `inject!(a.b)` directives,
/// each of which must close with `)` on its own line.
pub fn parse_html(html_orig: &str) -> (r: Result<Vec<HtmlPart>, HtmlError>)
    ensures
        match r {
            Ok(parts) => parse_from(html_orig@, 0) == Ok::<Seq<HtmlPartView>, HtmlError>(
                part_views(parts@),
            ),
            Err(e) => parse_from(html_orig@, 0) == Err::<Seq<HtmlPartView>, HtmlError>(e),
        },
{
    let v = chars_of(html_orig);
    let pat = chars_of("inject!(");
    proof {
        reveal_strlit("inject!(");
    }
    assert(pat@ == directive());
    let n = v.len();
    let mut parts: Vec<HtmlPart> = Vec::new();
    let mut from: usize = 0;
    loop
        invariant
            from <= v@.len(),
            n == v@.len(),
            v@ == html_orig@,
            pat@ == directive(),
            pat@.len() == 8,
            forall|j: int| 0 <= j < 8 ==> pat@[j] != ')',
            parse_from(v@, 0) == match parse_from(v@, from as int) {
                Ok(rest) => Ok(part_views(parts@) + rest),
                Err(x) => Err::<Seq<HtmlPartView>, HtmlError>(x),
            },
        decreases v@.len() - from,
    {
        let ghost before = part_views(parts@);
        match find_pat_exec(&v, &pat, from) {
            None => {
                parts.push(HtmlPart::Literal(piece(&v, from, v.len())));
                assert(part_views(parts@) =~= before + seq![
                    HtmlPartView::Literal(v@.subrange(from as int, v@.len() as int)),
                ]);
                return Ok(parts);
            },
            Some(st) => {
                let end = find_char_exec(&v, ')', st);
                let newline = find_char_exec(&v, '\n', st);
                let e = match end {
                    None => {
                        return Err(HtmlError::NotClosed);
                    },
                    Some(e) => e,
                };
                match newline {
                    Some(nl) => {
                        if nl < e {
                            return Err(HtmlError::NotClosedOnLine);
                        }
                    },
                    None => {},
                }
                if e < st + 8 {
                    assert(v@.subrange(st as int, st + 8)[e - st] == pat@[e - st]);
                    assert(false);
                }
                parts.push(HtmlPart::Literal(piece(&v, from, st)));
                let (lo, hi) = trim_range(&v, st + 8, e);
                parts.push(HtmlPart::IncludePath(split_path(&v, lo, hi)));
                let ghost two = seq![
                    HtmlPartView::Literal(v@.subrange(from as int, st as int)),
                    HtmlPartView::IncludePath(path_of(trim(v@.subrange(st + 8, e as int)))),
                ];
                assert(part_views(parts@) =~= before + two);
                proof {
                    match parse_from(v@, e + 1) {
                        Ok(rest) => {
                            assert(parse_from(v@, from as int) == Ok::<Seq<HtmlPartView>, HtmlError>(two + rest));
                            assert(before + (two + rest) =~= (before + two) + rest);
                        },
                        Err(x) => {
                            assert(parse_from(v@, from as int) == Err::<Seq<HtmlPartView>, HtmlError>(x));
                        },
                    }
                }
                from = e + 1;
            },
        }
    }
}

} // verus!
