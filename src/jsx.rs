//! The markup tree handed over by the parser, and the rewrite operations
//! that each element yields.

use vstd::prelude::*;

use crate::op::{views, ActionView, Op, OpView};
use crate::patch::{
    flat_from, lemma_put_collapse_put, lemma_put_put, lemma_side_by_side, patched, push_all, push_range,
    side_by_side,
};
use crate::span::{slice_of, Span};
use vstd::string::StringSliceAdditionalSpecFns;

verus! {

/// Whether `c` has the Unicode `Lowercase` property.
pub uninterp spec fn lowercase_char(c: char) -> bool;

/// Relies on `char::is_lowercase`: whether `c` has the Unicode `Lowercase`
/// property, which among ASCII characters holds of `'a'..='z'` alone.
#[verifier::external_body]
fn is_lowercase(c: char) -> (r: bool)
    ensures
        r == lowercase_char(c),
        (c as u32) < 128 ==> (r <==> 'a' <= c <= 'z'),
{
    c.is_lowercase()
}

/// The name of a markup element, as the parser found it.
#[derive(Clone, Copy, Debug)]
pub enum ElementName {
    /// A plain identifier, with its first character if it has one.
    Ident { span: Span, first: Option<char> },
    /// A member access such as `a.b`.
    Member { span: Span },
    /// A namespaced name such as `a:b`.
    Namespaced { span: Span },
}

/// The value of a named attribute.
#[derive(Clone, Copy, Debug)]
pub enum AttrValue {
    /// A literal such as `"x"`.
    Lit { span: Span },
    /// An expression between braces: `span` covers the braces, `expr` what
    /// they hold.
    Container { span: Span, expr: Span },
    /// A markup element, whose own operations come from its own entry.
    Element { span: Span },
    /// No value: the attribute stands for `true`.
    Absent,
}

/// An attribute of an opening tag.
#[derive(Clone, Copy, Debug)]
pub enum Attr {
    /// `name` or `name=value`.
    Named { name: Span, value: AttrValue },
    /// `{...expr}`: `span` covers the braces, `expr` the spread expression.
    Spread { span: Span, expr: Span },
}

/// A markup element: its opening tag with name and attributes, and the span of
/// its closing tag if it has one.
///
/// An element with children becomes a call whose last arguments are what
/// stands between its tags: elements there are rewritten through their own
/// entries, and other text is kept as it is. No separator is put between
/// children, so only an element with at most one child element and no other
/// text between its tags gives a well-formed call; children are otherwise left
/// to the caller.
#[derive(Clone, Debug)]
pub struct Element {
    pub opening: Span,
    pub name: ElementName,
    pub attrs: Vec<Attr>,
    pub self_closing: bool,
    pub closing: Option<Span>,
}

/// Whether a name starting with `c` names a native element: `c` is lower case,
/// which among ASCII characters means `'a'..='z'`.
pub open spec fn native_first(c: char) -> bool {
    if (c as u32) < 128 {
        'a' <= c <= 'z'
    } else {
        lowercase_char(c)
    }
}

/// The span of an element's name, and whether the element is native (named as
/// a string) rather than a component (named by an expression).
pub open spec fn name_info(n: ElementName) -> (Span, bool) {
    match n {
        ElementName::Ident { span, first } => (
            span,
            match first {
                Some(c) => native_first(c),
                None => true,
            },
        ),
        ElementName::Member { span } => (span, false),
        ElementName::Namespaced { span } => (span, false),
    }
}

/// The text that opens the call for an element named `name`.
pub open spec fn call_head(name: Seq<u8>, native: bool) -> Seq<u8> {
    let q = if native {
        "\"".spec_bytes()
    } else {
        Seq::empty()
    };
    "React.createElement(".spec_bytes() + q + name + q + ", {".spec_bytes()
}

/// The text that stands for an attribute's name and the `=` after it.
pub open spec fn key_text(name: Seq<u8>) -> Seq<u8> {
    "\"".spec_bytes() + name + "\": ".spec_bytes()
}

/// An operation that puts `t` in place of `s`.
pub open spec fn put(s: Span, t: Seq<u8>) -> OpView {
    OpView { action: ActionView::Replace(t), span: s }
}

/// An operation that puts the rewritten `inner` in place of `s`.
pub open spec fn fold_in(s: Span, inner: Span) -> OpView {
    OpView { action: ActionView::Collapse(inner), span: s }
}

/// Where the attribute ends in the source.
pub open spec fn attr_end(a: Attr) -> usize {
    match a {
        Attr::Named { name, value } => match value {
            AttrValue::Lit { span } => span.hi,
            AttrValue::Container { span, .. } => span.hi,
            AttrValue::Element { span } => span.hi,
            AttrValue::Absent => name.hi,
        },
        Attr::Spread { span, .. } => span.hi,
    }
}

/// The operations for one attribute: its key, its value, and a comma after it.
pub open spec fn attr_ops(src: Seq<u8>, a: Attr) -> Seq<OpView> {
    match a {
        Attr::Named { name, value } => {
            let key = slice_of(src, name);
            match value {
                AttrValue::Lit { span } => seq![
                    put(Span { lo: name.lo, hi: span.lo }, key_text(key)),
                    fold_in(span, span),
                    put(Span { lo: span.hi, hi: span.hi }, ",".spec_bytes()),
                ],
                AttrValue::Container { span, expr } => seq![
                    put(Span { lo: name.lo, hi: span.lo }, key_text(key)),
                    fold_in(span, expr),
                    put(Span { lo: span.hi, hi: span.hi }, ",".spec_bytes()),
                ],
                AttrValue::Element { span } => seq![
                    put(Span { lo: name.lo, hi: span.lo }, key_text(key)),
                    fold_in(span, span),
                    put(Span { lo: span.hi, hi: span.hi }, ",".spec_bytes()),
                ],
                AttrValue::Absent => seq![
                    put(Span { lo: name.lo, hi: name.hi }, key_text(key)),
                    put(Span { lo: name.hi, hi: name.hi }, "true".spec_bytes()),
                    put(Span { lo: name.hi, hi: name.hi }, ",".spec_bytes()),
                ],
            }
        },
        Attr::Spread { span, expr } => seq![
            put(Span { lo: span.lo, hi: span.lo }, "...(".spec_bytes()),
            fold_in(span, expr),
            put(Span { lo: span.hi, hi: span.hi }, "),".spec_bytes()),
        ],
    }
}

/// The operations for a sequence of attributes, in order.
pub open spec fn attrs_ops(src: Seq<u8>, attrs: Seq<Attr>) -> Seq<OpView>
    decreases attrs.len(),
{
    if attrs.len() == 0 {
        Seq::empty()
    } else {
        attrs_ops(src, attrs.drop_last()) + attr_ops(src, attrs.last())
    }
}

/// The operations that close the element: the end of the opening tag, and the
/// closing tag if there is one.
pub open spec fn close_ops(el: Element, end: usize) -> Seq<OpView> {
    let has = el.attrs@.len() > 0;
    let tail = Span { lo: end, hi: el.opening.hi };
    if el.self_closing {
        seq![
            put(
                tail,
                if has {
                    " })".spec_bytes()
                } else {
                    "})".spec_bytes()
                },
            ),
        ]
    } else {
        let open_end = put(
            tail,
            if has {
                " }, ".spec_bytes()
            } else {
                "}, ".spec_bytes()
            },
        );
        match el.closing {
            Some(c) => seq![open_end, put(c, ")".spec_bytes())],
            None => seq![open_end],
        }
    }
}

/// The operations that turn one element into a call: the opening `<` and name,
/// each attribute, and the end of the tag.
pub open spec fn element_ops(src: Seq<u8>, el: Element) -> Seq<OpView> {
    let (n, native) = name_info(el.name);
    let attrs = el.attrs@;
    let end = if attrs.len() == 0 {
        n.hi
    } else {
        attr_end(attrs.last())
    };
    seq![put(Span { lo: el.opening.lo, hi: n.hi }, call_head(slice_of(src, n), native))]
        + attrs_ops(src, attrs) + close_ops(el, end)
}

/// The operations of all elements, each element's before the next one's.
pub open spec fn collect_ops(src: Seq<u8>, els: Seq<Element>) -> Seq<OpView>
    decreases els.len(),
{
    if els.len() == 0 {
        Seq::empty()
    } else {
        collect_ops(src, els.drop_last()) + element_ops(src, els.last())
    }
}

/// The source text that an element's rendering reads lies inside the source:
/// its name and the names of its attributes.
pub open spec fn names_fit(len: int, el: Element) -> bool {
    &&& name_info(el.name).0.fits(len)
    &&& forall|k: int|
        0 <= k < el.attrs@.len() ==> match #[trigger] el.attrs@[k] {
            Attr::Named { name, .. } => name.fits(len),
            Attr::Spread { .. } => true,
        }
}

/// A lone self-closing native element without attributes, `<tag />`, becomes
/// a call naming `"tag"` with an empty attribute object, and nothing else
/// changes.
pub proof fn lemma_lone_native_element(src: Seq<u8>, el: Element)
    requires
        el.attrs@.len() == 0,
        el.self_closing,
        name_info(el.name).1,
        el.opening.lo <= name_info(el.name).0.hi <= el.opening.hi <= src.len(),
    ensures
        patched(src, collect_ops(src, seq![el])) == (true, src.subrange(0, el.opening.lo as int)
            + call_head(slice_of(src, name_info(el.name).0), true) + "})".spec_bytes()
            + src.subrange(el.opening.hi as int, src.len() as int)),
{
    let n = name_info(el.name).0;
    let els = seq![el];
    assert(els.drop_last() == Seq::<Element>::empty());
    assert(els.last() == el);
    assert(collect_ops(src, Seq::<Element>::empty()) == Seq::<OpView>::empty());
    assert(collect_ops(src, els) == Seq::<OpView>::empty() + element_ops(src, el));
    assert(attrs_ops(src, el.attrs@) == Seq::<OpView>::empty());
    let head = put(Span { lo: el.opening.lo, hi: n.hi }, call_head(slice_of(src, n), true));
    let tail = put(Span { lo: n.hi, hi: el.opening.hi }, "})".spec_bytes());
    assert(element_ops(src, el) =~= seq![head, tail]);
    assert(Seq::<OpView>::empty() + element_ops(src, el) == element_ops(src, el));
    lemma_put_put(
        src,
        Span { lo: el.opening.lo, hi: n.hi },
        call_head(slice_of(src, n), true),
        Span { lo: n.hi, hi: el.opening.hi },
        "})".spec_bytes(),
    );
}

/// The operations of a lone self-closing element with one attribute, in order.
proof fn lemma_one_attribute_ops(src: Seq<u8>, el: Element) -> (ops: Seq<OpView>)
    requires
        el.self_closing,
        el.attrs@.len() == 1,
    ensures
        collect_ops(src, seq![el]) == ops,
        ops == seq![
            put(
                Span { lo: el.opening.lo, hi: name_info(el.name).0.hi },
                call_head(slice_of(src, name_info(el.name).0), name_info(el.name).1),
            ),
        ] + attr_ops(src, el.attrs@[0]) + seq![
            put(Span { lo: attr_end(el.attrs@[0]), hi: el.opening.hi }, " })".spec_bytes()),
        ],
{
    let els = seq![el];
    assert(els.drop_last() == Seq::<Element>::empty());
    assert(els.last() == el);
    assert(collect_ops(src, Seq::<Element>::empty()) == Seq::<OpView>::empty());
    assert(collect_ops(src, els) == Seq::<OpView>::empty() + element_ops(src, el));
    assert(Seq::<OpView>::empty() + element_ops(src, el) == element_ops(src, el));
    assert(el.attrs@.drop_last() =~= Seq::<Attr>::empty());
    assert(el.attrs@.last() == el.attrs@[0]);
    assert(attrs_ops(src, Seq::<Attr>::empty()) == Seq::<OpView>::empty());
    assert(attrs_ops(src, el.attrs@) =~= Seq::<OpView>::empty() + attr_ops(src, el.attrs@[0]));
    element_ops(src, el)
}

/// A lone self-closing element whose one attribute has an expression between
/// braces as its value: the whole rewrite is the call's head, the bytes between
/// name and attribute, `"name": ` followed by the expression alone and a comma,
/// and the end of the call; the source around the element is kept.
pub proof fn lemma_element_with_container(src: Seq<u8>, el: Element, name: Span, span: Span, expr: Span)
    requires
        el.self_closing,
        el.attrs@ == seq![Attr::Named { name, value: AttrValue::Container { span, expr } }],
        el.opening.lo <= name_info(el.name).0.hi <= name.lo <= name.hi <= span.lo,
        span.lo < span.hi <= el.opening.hi <= src.len(),
        span.lo <= expr.lo <= expr.hi <= span.hi,
    ensures
        patched(src, collect_ops(src, seq![el])) == (true, src.subrange(0, el.opening.lo as int)
            + call_head(slice_of(src, name_info(el.name).0), name_info(el.name).1) + src.subrange(
            name_info(el.name).0.hi as int,
            name.lo as int,
        ) + key_text(slice_of(src, name)) + slice_of(src, expr) + ",".spec_bytes()
            + " })".spec_bytes() + src.subrange(el.opening.hi as int, src.len() as int)),
{
    let ops = lemma_one_attribute_ops(src, el);
    let n = name_info(el.name).0;
    let o = el.opening;
    let len = src.len() as int;
    let t1 = call_head(slice_of(src, n), name_info(el.name).1);
    let t2 = key_text(slice_of(src, name));
    assert(ops =~= seq![
        put(Span { lo: o.lo, hi: n.hi }, t1),
        put(Span { lo: name.lo, hi: span.lo }, t2),
        fold_in(span, expr),
        put(Span { lo: span.hi, hi: span.hi }, ",".spec_bytes()),
        put(Span { lo: span.hi, hi: o.hi }, " })".spec_bytes()),
    ]);
    assert(side_by_side(ops, len));
    lemma_side_by_side(src, ops);
    let e = Seq::<u8>::empty();
    assert(flat_from(src, ops, 5, o.hi as int) == src.subrange(o.hi as int, len));
    assert(src.subrange(span.hi as int, span.hi as int) == e);
    assert(flat_from(src, ops, 4, span.hi as int) == e + " })".spec_bytes() + flat_from(src, ops, 5, o.hi as int));
    assert(flat_from(src, ops, 3, span.hi as int) == e + ",".spec_bytes() + flat_from(src, ops, 4, span.hi as int));
    assert(src.subrange(span.lo as int, span.lo as int) == e);
    assert(flat_from(src, ops, 2, span.lo as int) == e + slice_of(src, expr) + flat_from(src, ops, 3, span.hi as int));
    assert(flat_from(src, ops, 1, n.hi as int) == src.subrange(n.hi as int, name.lo as int) + t2 + flat_from(src, ops, 2, span.lo as int));
    assert(flat_from(src, ops, 0, 0) == src.subrange(0, o.lo as int) + t1 + flat_from(src, ops, 1, n.hi as int));
    assert(flat_from(src, ops, 0, 0) =~= src.subrange(0, o.lo as int) + t1 + src.subrange(
        n.hi as int,
        name.lo as int,
    ) + t2 + slice_of(src, expr) + ",".spec_bytes() + " })".spec_bytes() + src.subrange(o.hi as int, len));
}

/// A lone self-closing element whose one attribute is a spread `{...expr}`: the
/// whole rewrite is the call's head, the bytes between name and attribute,
/// `...(expr),`, and the end of the call; the source around the element is kept.
#[verifier::rlimit(60)]
pub proof fn lemma_element_with_spread(src: Seq<u8>, el: Element, span: Span, expr: Span)
    requires
        el.self_closing,
        el.attrs@ == seq![Attr::Spread { span, expr }],
        el.opening.lo <= name_info(el.name).0.hi <= span.lo,
        span.lo < span.hi <= el.opening.hi <= src.len(),
        span.lo <= expr.lo <= expr.hi <= span.hi,
    ensures
        patched(src, collect_ops(src, seq![el])) == (true, src.subrange(0, el.opening.lo as int)
            + call_head(slice_of(src, name_info(el.name).0), name_info(el.name).1) + src.subrange(
            name_info(el.name).0.hi as int,
            span.lo as int,
        ) + "...(".spec_bytes() + slice_of(src, expr) + "),".spec_bytes() + " })".spec_bytes()
            + src.subrange(el.opening.hi as int, src.len() as int)),
{
    let ops = lemma_one_attribute_ops(src, el);
    let n = name_info(el.name).0;
    let o = el.opening;
    let len = src.len() as int;
    let t1 = call_head(slice_of(src, n), name_info(el.name).1);
    assert(ops =~= seq![
        put(Span { lo: o.lo, hi: n.hi }, t1),
        put(Span { lo: span.lo, hi: span.lo }, "...(".spec_bytes()),
        fold_in(span, expr),
        put(Span { lo: span.hi, hi: span.hi }, "),".spec_bytes()),
        put(Span { lo: span.hi, hi: o.hi }, " })".spec_bytes()),
    ]);
    assert(side_by_side(ops, len));
    lemma_side_by_side(src, ops);
    let e = Seq::<u8>::empty();
    assert(flat_from(src, ops, 5, o.hi as int) == src.subrange(o.hi as int, len));
    assert(src.subrange(span.hi as int, span.hi as int) == e);
    assert(flat_from(src, ops, 4, span.hi as int) == e + " })".spec_bytes() + flat_from(src, ops, 5, o.hi as int));
    assert(flat_from(src, ops, 3, span.hi as int) == e + "),".spec_bytes() + flat_from(src, ops, 4, span.hi as int));
    assert(src.subrange(span.lo as int, span.lo as int) == e);
    assert(flat_from(src, ops, 2, span.lo as int) == e + slice_of(src, expr) + flat_from(src, ops, 3, span.hi as int));
    assert(flat_from(src, ops, 1, n.hi as int) == src.subrange(n.hi as int, span.lo as int) + "...(".spec_bytes() + flat_from(src, ops, 2, span.lo as int));
    assert(flat_from(src, ops, 0, 0) == src.subrange(0, o.lo as int) + t1 + flat_from(src, ops, 1, n.hi as int));
    assert(flat_from(src, ops, 0, 0) =~= src.subrange(0, o.lo as int) + t1 + src.subrange(
        n.hi as int,
        span.lo as int,
    ) + "...(".spec_bytes() + slice_of(src, expr) + "),".spec_bytes() + " })".spec_bytes()
        + src.subrange(o.hi as int, len));
}

/// An attribute whose value is an expression between braces becomes
/// `"name": ` followed by the expression alone and a comma; the source around
/// it is kept.
pub proof fn lemma_container_attribute(src: Seq<u8>, name: Span, span: Span, expr: Span)
    requires
        name.lo <= name.hi <= span.lo,
        span.lo < span.hi <= src.len(),
        span.lo <= expr.lo <= expr.hi <= span.hi,
    ensures
        patched(src, attr_ops(src, Attr::Named { name, value: AttrValue::Container { span, expr } }))
            == (true, src.subrange(0, name.lo as int) + key_text(slice_of(src, name)) + slice_of(
            src,
            expr,
        ) + ",".spec_bytes() + src.subrange(span.hi as int, src.len() as int)),
{
    lemma_put_collapse_put(
        src,
        Span { lo: name.lo, hi: span.lo },
        key_text(slice_of(src, name)),
        span,
        expr,
        ",".spec_bytes(),
    );
}

/// A spread attribute `{...expr}` becomes `...(expr),`; the source around it is
/// kept.
pub proof fn lemma_spread_attribute(src: Seq<u8>, span: Span, expr: Span)
    requires
        span.lo < span.hi <= src.len(),
        span.lo <= expr.lo <= expr.hi <= span.hi,
    ensures
        patched(src, attr_ops(src, Attr::Spread { span, expr })) == (true, src.subrange(
            0,
            span.lo as int,
        ) + "...(".spec_bytes() + slice_of(src, expr) + "),".spec_bytes() + src.subrange(
            span.hi as int,
            src.len() as int,
        )),
{
    lemma_put_collapse_put(
        src,
        Span { lo: span.lo, hi: span.lo },
        "...(".spec_bytes(),
        span,
        expr,
        "),".spec_bytes(),
    );
}

/// The last index before `i` where `s` holds `c`, or -1.
pub open spec fn last_before(s: Seq<u8>, c: u8, i: int) -> int
    decreases i,
{
    if i <= 0 || i > s.len() {
        -1
    } else if s[i - 1] == c {
        i - 1
    } else {
        last_before(s, c, i - 1)
    }
}

/// The first index from `i` on where `s` holds `c`, or -1.
pub open spec fn first_from(s: Seq<u8>, c: u8, i: int) -> int
    decreases s.len() - i,
{
    if i < 0 || i >= s.len() {
        -1
    } else if s[i] == c {
        i
    } else {
        first_from(s, c, i + 1)
    }
}

/// A spread `...expr` widened to the braces around it: from the last `{` before
/// it to just past the first `}` at or after its end; an end without a brace
/// stays where it is, and so does a span that does not fit the source.
pub open spec fn braced(s: Seq<u8>, spread: Span) -> Span {
    if spread.fits(s.len() as int) {
        let a = last_before(s, 123, spread.lo as int);
        let b = first_from(s, 125, spread.hi as int);
        Span {
            lo: if a >= 0 {
                a as usize
            } else {
                spread.lo
            },
            hi: if b >= 0 {
                (b + 1) as usize
            } else {
                spread.hi
            },
        }
    } else {
        spread
    }
}

/// The span of a spread attribute with its braces, given the span of `...expr`
/// that parsers report.
pub fn braced_span(src: &[u8], spread: Span) -> (r: Span)
    ensures
        r == braced(src@, spread),
{
    if !spread.fits_in(src.len()) {
        return spread;
    }
    let mut a = spread.lo;
    while a > 0 && src[a - 1] != 123
        invariant
            a <= spread.lo <= src@.len(),
            last_before(src@, 123, spread.lo as int) == last_before(src@, 123, a as int),
        decreases a,
    {
        a = a - 1;
    }
    let lo = if a > 0 {
        a - 1
    } else {
        spread.lo
    };
    let mut b = spread.hi;
    while b < src.len() && src[b] != 125
        invariant
            spread.hi <= b <= src@.len(),
            first_from(src@, 125, spread.hi as int) == first_from(src@, 125, b as int),
        decreases src@.len() - b,
    {
        b = b + 1;
    }
    let hi = if b < src.len() {
        b + 1
    } else {
        spread.hi
    };
    Span { lo, hi }
}

/// The bytes of `s`.
fn bytes(s: &str) -> (r: Vec<u8>)
    ensures
        r@ == s.spec_bytes(),
{
    let mut v: Vec<u8> = Vec::new();
    push_all(&mut v, s.as_bytes());
    v
}

/// Appends `op` to `ops`.
fn push_op(ops: &mut Vec<Op>, op: Op)
    ensures
        views(final(ops)@) == views(old(ops)@).push(op@),
{
    ops.push(op);
    assert(views(ops@) =~= views(old(ops)@).push(op@));
}

impl ElementName {
    /// The span of the name.
    pub fn span(&self) -> (r: Span)
        ensures
            r == name_info(*self).0,
    {
        match self {
            ElementName::Ident { span, .. } => *span,
            ElementName::Member { span } => *span,
            ElementName::Namespaced { span } => *span,
        }
    }

    /// Whether the name stands for a native element: an identifier whose first
    /// character is lower case, or that has none.
    pub fn is_native(&self) -> (r: bool)
        ensures
            r == name_info(*self).1,
    {
        match self {
            ElementName::Ident { first, .. } => match first {
                Some(c) => is_lowercase(*c),
                None => true,
            },
            _ => false,
        }
    }
}

/// The text that opens the call for the element named by `name` in `src`.
fn call_head_exec(src: &[u8], name: Span, native: bool) -> (r: Vec<u8>)
    requires
        name.fits(src@.len() as int),
    ensures
        r@ == call_head(slice_of(src@, name), native),
{
    let mut t = bytes("React.createElement(");
    if native {
        push_all(&mut t, "\"".as_bytes());
    }
    push_range(&mut t, src, name.lo, name.hi);
    if native {
        push_all(&mut t, "\"".as_bytes());
    }
    push_all(&mut t, ", {".as_bytes());
    t
}

/// The text for the attribute named by `name` in `src`.
fn key_text_exec(src: &[u8], name: Span) -> (r: Vec<u8>)
    requires
        name.fits(src@.len() as int),
    ensures
        r@ == key_text(slice_of(src@, name)),
{
    let mut t = bytes("\"");
    push_range(&mut t, src, name.lo, name.hi);
    push_all(&mut t, "\": ".as_bytes());
    t
}

/// Appends the operations of one attribute.
fn push_attr_ops(src: &[u8], a: Attr, ops: &mut Vec<Op>)
    requires
        match a {
            Attr::Named { name, .. } => name.fits(src@.len() as int),
            Attr::Spread { .. } => true,
        },
    ensures
        views(final(ops)@) == views(old(ops)@) + attr_ops(src@, a),
{
    let ghost start = views(ops@);
    match a {
        Attr::Named { name, value } => {
            let key = key_text_exec(src, name);
            match value {
                AttrValue::Lit { span } => {
                    push_op(ops, Op::replace(Span::new(name.lo, span.lo), key));
                    push_op(ops, Op::collapse(span, span));
                    push_op(ops, Op::replace(Span::at(span.hi), bytes(",")));
                },
                AttrValue::Container { span, expr } => {
                    push_op(ops, Op::replace(Span::new(name.lo, span.lo), key));
                    push_op(ops, Op::collapse(span, expr));
                    push_op(ops, Op::replace(Span::at(span.hi), bytes(",")));
                },
                AttrValue::Element { span } => {
                    push_op(ops, Op::replace(Span::new(name.lo, span.lo), key));
                    push_op(ops, Op::collapse(span, span));
                    push_op(ops, Op::replace(Span::at(span.hi), bytes(",")));
                },
                AttrValue::Absent => {
                    push_op(ops, Op::replace(name, key));
                    push_op(ops, Op::replace(Span::at(name.hi), bytes("true")));
                    push_op(ops, Op::replace(Span::at(name.hi), bytes(",")));
                },
            }
        },
        Attr::Spread { span, expr } => {
            push_op(ops, Op::replace(Span::at(span.lo), bytes("...(")));
            push_op(ops, Op::collapse(span, expr));
            push_op(ops, Op::replace(Span::at(span.hi), bytes("),")));
        },
    }
    assert(views(ops@) =~= start + attr_ops(src@, a));
}

/// Appends the operations that turn `el` into a call expression.
pub fn push_element_ops(src: &[u8], el: &Element, ops: &mut Vec<Op>)
    requires
        names_fit(src@.len() as int, *el),
    ensures
        views(final(ops)@) == views(old(ops)@) + element_ops(src@, *el),
{
    let ghost start = views(ops@);
    let n = el.name.span();
    let native = el.name.is_native();
    let head = call_head_exec(src, n, native);
    push_op(ops, Op::replace(Span::new(el.opening.lo, n.hi), head));
    let mut end = n.hi;
    let mut k: usize = 0;
    assert(el.attrs@.subrange(0, 0) =~= Seq::<Attr>::empty());
    while k < el.attrs.len()
        invariant
            names_fit(src@.len() as int, *el),
            k <= el.attrs@.len(),
            views(ops@) == start + seq![
                put(Span { lo: el.opening.lo, hi: n.hi }, call_head(slice_of(src@, n), native)),
            ] + attrs_ops(src@, el.attrs@.subrange(0, k as int)),
            n == name_info(el.name).0,
            native == name_info(el.name).1,
            k == 0 ==> end == n.hi,
            k > 0 ==> end == attr_end(el.attrs@[k - 1]),
        decreases el.attrs@.len() - k,
    {
        let a = el.attrs[k];
        assert(el.attrs@[k as int] == a);
        push_attr_ops(src, a, ops);
        end = match a {
            Attr::Named { name, value } => match value {
                AttrValue::Lit { span } => span.hi,
                AttrValue::Container { span, .. } => span.hi,
                AttrValue::Element { span } => span.hi,
                AttrValue::Absent => name.hi,
            },
            Attr::Spread { span, .. } => span.hi,
        };
        proof {
            let t = el.attrs@.subrange(0, k + 1);
            assert(t.drop_last() =~= el.attrs@.subrange(0, k as int));
            assert(t.last() == a);
        }
        k = k + 1;
    }
    assert(el.attrs@.subrange(0, k as int) =~= el.attrs@);
    let has = el.attrs.len() > 0;
    let tail = Span::new(end, el.opening.hi);
    if el.self_closing {
        let t = if has {
            bytes(" })")
        } else {
            bytes("})")
        };
        push_op(ops, Op::replace(tail, t));
    } else {
        let t = if has {
            bytes(" }, ")
        } else {
            bytes("}, ")
        };
        push_op(ops, Op::replace(tail, t));
        match el.closing {
            Some(c) => {
                push_op(ops, Op::replace(c, bytes(")")));
            },
            None => {},
        }
    }
    assert(views(ops@) =~= start + element_ops(src@, *el));
}

} // verus!
