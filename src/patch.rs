//! Replaying ordered rewrite operations over a source.

use vstd::prelude::*;

use crate::op::{
    before, in_order, lemma_sort_by, lemma_sort_swap, nesting_order, sort_by, sort_ops, sort_ops_by,
    sorted_ops, views, Action, ActionView, Op, OpView,
};
use crate::span::{nested_in, slice_of, Span};

verus! {

/// Why a list of operations could not be replayed over a source.
#[derive(Clone, Copy, Debug, PartialEq, Eq, Structural)]
pub enum PatchError {
    /// Some span, or a collapse's inner span, is reversed or lies outside the
    /// source, or two operations' spans overlap without one holding the other.
    BadSpans,
}

/// The operation's span, and a collapse's inner span, are ordered and lie in a
/// source of `len` bytes.
pub open spec fn op_fits(o: OpView, len: int) -> bool {
    o.span.fits(len) && match o.action {
        ActionView::Collapse(inner) => inner.fits(len),
        _ => true,
    }
}

/// `a` and `b` are disjoint, or one holds the other.
pub open spec fn compatible(a: Span, b: Span) -> bool {
    a.hi <= b.lo || b.hi <= a.lo || (a.lo <= b.lo && b.hi <= a.hi) || (b.lo <= a.lo && a.hi <= b.hi)
}

/// Every operation of `s` fits a source of `len` bytes, and any two of their
/// spans are disjoint or nested.
pub open spec fn valid_ops(s: Seq<OpView>, len: int) -> bool {
    &&& forall|x: OpView| #[trigger] s.contains(x) ==> op_fits(x, len)
    &&& forall|x: OpView, y: OpView|
        #![trigger s.contains(x), s.contains(y)]
        s.contains(x) && s.contains(y) ==> compatible(x.span, y.span)
}

/// `s` lies inside `[cur, hi)` and is ordered.
pub open spec fn within(s: Span, cur: int, hi: int) -> bool {
    cur <= s.lo && s.lo <= s.hi && s.hi <= hi
}

/// The index just past the run of operations after `j - 1` that are nested in
/// `ops[i]`: the operations that `ops[i]` governs.
pub open spec fn children_end(ops: Seq<OpView>, i: int, j: int) -> int
    decreases ops.len() - j,
{
    if 0 <= j < ops.len() && nested_in(ops[j].span, ops[i].span) {
        children_end(ops, i, j + 1)
    } else {
        j
    }
}

/// The end, before `lim`, of the operations that `ops[k]` governs.
pub open spec fn governed_end(ops: Seq<OpView>, k: int, lim: int) -> int {
    let c = children_end(ops, k, k + 1);
    if c <= k {
        k + 1
    } else if c > lim {
        lim
    } else {
        c
    }
}

/// Replays `ops`, each of which comes before those nested in it, from index
/// `k` and before index `lim`, over the range `[cur, hi)` of `src`.
///
/// Bytes between operations are copied; each operation that lies in the range
/// after the bytes already used gives way to its action's text. A `Collapse`
/// gives the replay, over its inner span, of the operations nested in its own
/// span. Operations that do not lie in the range, and those nested in a
/// `Replace` or `Remove`, are dropped with the bytes they cover.
pub open spec fn frame(src: Seq<u8>, ops: Seq<OpView>, k: int, lim: int, cur: int, hi: int) -> Seq<u8>
    decreases ops.len() - k,
{
    if 0 <= k < lim && lim <= ops.len() {
        let e = governed_end(ops, k, lim);
        if within(ops[k].span, cur, hi) {
            let body = match ops[k].action {
                ActionView::Replace(t) => t,
                ActionView::Remove => Seq::empty(),
                ActionView::Collapse(inner) => frame(
                    src,
                    ops,
                    k + 1,
                    e,
                    inner.lo as int,
                    inner.hi as int,
                ),
            };
            src.subrange(cur, ops[k].span.lo as int) + body + frame(
                src,
                ops,
                e,
                lim,
                ops[k].span.hi as int,
                hi,
            )
        } else {
            frame(src, ops, e, lim, cur, hi)
        }
    } else {
        src.subrange(cur, hi)
    }
}

/// Replays `ops`, each of which comes before those nested in it, over the
/// whole of `src`.
pub open spec fn replay(src: Seq<u8>, ops: Seq<OpView>) -> Seq<u8> {
    frame(src, ops, 0, ops.len() as int, 0, src.len() as int)
}

/// Whether `ops` can be applied to `src`, and the text they give: the
/// operations are ordered by span start, then end, and each is replayed before
/// those nested in it.
pub open spec fn patched(src: Seq<u8>, ops: Seq<OpView>) -> (bool, Seq<u8>) {
    (valid_ops(ops, src.len() as int), replay(src, nesting_order(sorted_ops(ops))))
}

proof fn lemma_children_end_shift(p: Seq<OpView>, s: Seq<OpView>, q: Seq<OpView>, i: int, j: int)
    requires
        0 <= i < s.len(),
        i < j <= s.len(),
    ensures
        children_end(s, i, j) < s.len() ==> children_end(p + s + q, p.len() + i, p.len() + j)
            == p.len() + children_end(s, i, j),
        children_end(s, i, j) == s.len() ==> children_end(p + s + q, p.len() + i, p.len() + j)
            >= p.len() + s.len(),
        children_end(s, i, j) >= j,
        children_end(s, i, j) <= s.len(),
    decreases s.len() - j,
{
    let f = p + s + q;
    assert(f[p.len() + i] == s[i]);
    if j < s.len() {
        assert(f[p.len() + j] == s[j]);
        if nested_in(s[j].span, s[i].span) {
            lemma_children_end_shift(p, s, q, i, j + 1);
        }
    } else {
        lemma_children_end_ge(f, p.len() + i, p.len() + j);
    }
}

proof fn lemma_children_end_ge(s: Seq<OpView>, i: int, j: int)
    ensures
        children_end(s, i, j) >= j,
    decreases s.len() - j,
{
    if 0 <= j < s.len() && nested_in(s[j].span, s[i].span) {
        lemma_children_end_ge(s, i, j + 1);
    }
}

/// Replaying a stretch of a longer list gives what replaying that stretch on
/// its own gives.
proof fn lemma_frame_shift(
    src: Seq<u8>,
    p: Seq<OpView>,
    s: Seq<OpView>,
    q: Seq<OpView>,
    k: int,
    lim: int,
    cur: int,
    hi: int,
)
    requires
        0 <= k <= lim <= s.len(),
    ensures
        frame(src, p + s + q, p.len() + k, p.len() + lim, cur, hi) == frame(src, s, k, lim, cur, hi),
    decreases s.len() - k,
{
    let f = p + s + q;
    if k < lim {
        assert(f[p.len() + k] == s[k]);
        lemma_children_end_shift(p, s, q, k, k + 1);
        let e = governed_end(s, k, lim);
        assert(governed_end(f, p.len() + k, p.len() + lim) == p.len() + e);
        lemma_frame_shift(src, p, s, q, e, lim, s[k].span.hi as int, hi);
        lemma_frame_shift(src, p, s, q, e, lim, cur, hi);
        match s[k].action {
            ActionView::Collapse(inner) => {
                lemma_frame_shift(src, p, s, q, k + 1, e, inner.lo as int, inner.hi as int);
            },
            _ => {},
        }
    }
}

/// A collapse gives the replay, over its inner span, of exactly the operations
/// nested in it, as if they stood alone; what follows it is replayed from the
/// end of its span. Applied at each level, this resolves nested elements from
/// the inside out, to any depth.
pub proof fn lemma_collapse_alone(
    src: Seq<u8>,
    c: OpView,
    inner_ops: Seq<OpView>,
    rest: Seq<OpView>,
    cur: int,
    hi: int,
)
    requires
        c.action matches ActionView::Collapse(_),
        within(c.span, cur, hi),
        forall|j: int| 0 <= j < inner_ops.len() ==> nested_in(#[trigger] inner_ops[j].span, c.span),
        rest.len() > 0 ==> !nested_in(rest[0].span, c.span),
    ensures
        ({
            let ops = seq![c] + inner_ops + rest;
            let inner = c.action->Collapse_0;
            frame(src, ops, 0, ops.len() as int, cur, hi) == src.subrange(cur, c.span.lo as int)
                + frame(src, inner_ops, 0, inner_ops.len() as int, inner.lo as int, inner.hi as int)
                + frame(src, rest, 0, rest.len() as int, c.span.hi as int, hi)
        }),
{
    let ops = seq![c] + inner_ops + rest;
    let n = inner_ops.len() as int;
    let inner = c.action->Collapse_0;
    assert(ops[0] == c);
    lemma_children_end_run(ops, c, inner_ops, rest, 1);
    lemma_frame_shift(src, seq![c], inner_ops, rest, 0, n, inner.lo as int, inner.hi as int);
    lemma_frame_shift(src, seq![c] + inner_ops, rest, Seq::empty(), 0, rest.len() as int, c.span.hi as int, hi);
    assert(seq![c] + inner_ops + rest + Seq::<OpView>::empty() == ops);
}

proof fn lemma_children_end_run(ops: Seq<OpView>, c: OpView, inner_ops: Seq<OpView>, rest: Seq<OpView>, j: int)
    requires
        ops == seq![c] + inner_ops + rest,
        1 <= j <= inner_ops.len() + 1,
        forall|m: int| 0 <= m < inner_ops.len() ==> nested_in(#[trigger] inner_ops[m].span, c.span),
        rest.len() > 0 ==> !nested_in(rest[0].span, c.span),
    ensures
        children_end(ops, 0, j) == inner_ops.len() + 1,
    decreases inner_ops.len() + 1 - j,
{
    assert(ops[0] == c);
    if j <= inner_ops.len() {
        assert(ops[j] == inner_ops[j - 1]);
        lemma_children_end_run(ops, c, inner_ops, rest, j + 1);
    } else if rest.len() > 0 {
        assert(ops[j] == rest[0]);
    }
}

/// The text that a lone operation leaves in place of its span.
pub open spec fn lone_action_text(src: Seq<u8>, a: ActionView) -> Seq<u8> {
    match a {
        ActionView::Replace(t) => t,
        ActionView::Remove => Seq::empty(),
        ActionView::Collapse(inner) => slice_of(src, inner),
    }
}

/// Sequences with the same operations are valid together.
proof fn lemma_valid_same_ops(s: Seq<OpView>, t: Seq<OpView>, len: int)
    requires
        s.to_multiset() =~= t.to_multiset(),
    ensures
        valid_ops(s, len) == valid_ops(t, len),
{
    broadcast use vstd::seq_lib::to_multiset_contains;

    assert forall|x: OpView| s.contains(x) <==> t.contains(x) by {
        assert(s.to_multiset().count(x) == t.to_multiset().count(x));
    }
}

/// A sequence in the order chosen by `nest` is left as it is by that ordering.
pub proof fn lemma_sorted_stays(s: Seq<OpView>, nest: bool)
    requires
        in_order(s, nest),
    ensures
        sort_by(s, nest) == s,
    decreases s.len(),
{
    if s.len() > 0 {
        let t = s.drop_last();
        assert forall|k: int| 0 < k < t.len() implies before(#[trigger] t[k - 1].span, t[k].span, nest) by {
            assert(t[k - 1] == s[k - 1] && t[k] == s[k]);
        }
        lemma_sorted_stays(t, nest);
        if t.len() > 0 {
            assert(t.last() == s[s.len() - 2]);
            assert(t.push(s.last()) == s);
        } else {
            assert(seq![s.last()] == s);
        }
    }
}

/// With no operations the source comes out unchanged.
pub proof fn lemma_no_ops(src: Seq<u8>)
    ensures
        patched(src, Seq::empty()) == (true, src),
{
    assert(sort_by(Seq::<OpView>::empty(), false) == Seq::<OpView>::empty());
    assert(sort_by(Seq::<OpView>::empty(), true) == Seq::<OpView>::empty());
    assert(src.subrange(0, src.len() as int) == src);
}

/// Two operations with different starts may come in either order, wherever
/// they stand, as long as no operation between them has the span of either:
/// the patched text is the same.
pub proof fn lemma_swap_keeps_output(
    src: Seq<u8>,
    p: Seq<OpView>,
    x: OpView,
    m: Seq<OpView>,
    y: OpView,
    q: Seq<OpView>,
)
    requires
        x.span.lo != y.span.lo,
        forall|k: int| 0 <= k < m.len() ==> #[trigger] m[k].span != x.span && m[k].span != y.span,
    ensures
        patched(src, p + seq![x] + m + seq![y] + q) == patched(src, p + seq![y] + m + seq![x] + q),
{
    let a = p + seq![x] + m + seq![y] + q;
    let b = p + seq![y] + m + seq![x] + q;
    lemma_sort_swap(p, x, m, y, q, false);
    lemma_sort_by(a, false);
    lemma_sort_by(b, false);
    lemma_valid_same_ops(a, b, src.len() as int);
}

/// The text of operations that stand side by side from index `k` on, from
/// byte `cur`: the bytes up to each, its action's text, and the bytes after the
/// last.
pub open spec fn flat_from(src: Seq<u8>, ops: Seq<OpView>, k: int, cur: int) -> Seq<u8>
    decreases ops.len() - k,
{
    if k < 0 || k >= ops.len() {
        src.subrange(cur, src.len() as int)
    } else {
        src.subrange(cur, ops[k].span.lo as int) + lone_action_text(src, ops[k].action) + flat_from(
            src,
            ops,
            k + 1,
            ops[k].span.hi as int,
        )
    }
}

/// Each operation of `ops` fits a source of `len` bytes, and each starts where
/// the one before ends or later.
pub open spec fn side_by_side(ops: Seq<OpView>, len: int) -> bool {
    &&& forall|k: int| 0 <= k < ops.len() ==> op_fits(#[trigger] ops[k], len)
    &&& forall|k: int| 0 < k < ops.len() ==> ops[k - 1].span.hi <= (#[trigger] ops[k]).span.lo
}

proof fn lemma_side_by_side_apart(ops: Seq<OpView>, len: int, i: int, j: int)
    requires
        side_by_side(ops, len),
        0 <= i < j < ops.len(),
    ensures
        ops[i].span.hi <= ops[j].span.lo,
    decreases j - i,
{
    if i + 1 < j {
        lemma_side_by_side_apart(ops, len, i, j - 1);
        assert(op_fits(ops[j - 1], len));
    }
}

proof fn lemma_flat_frame(src: Seq<u8>, ops: Seq<OpView>, k: int, cur: int)
    requires
        side_by_side(ops, src.len() as int),
        0 <= k <= ops.len(),
        0 <= cur,
        k < ops.len() ==> cur <= ops[k].span.lo,
        k == ops.len() ==> cur <= src.len(),
    ensures
        frame(src, ops, k, ops.len() as int, cur, src.len() as int) == flat_from(src, ops, k, cur),
    decreases ops.len() - k,
{
    if k < ops.len() {
        let o = ops[k];
        assert(op_fits(o, src.len() as int));
        if k + 1 < ops.len() {
            assert(ops[k].span.hi <= ops[k + 1].span.lo);
        }
        assert(children_end(ops, k, k + 1) == k + 1);
        match o.action {
            ActionView::Collapse(inner) => {
                assert(frame(src, ops, k + 1, k + 1, inner.lo as int, inner.hi as int) == slice_of(
                    src,
                    inner,
                ));
            },
            _ => {},
        }
        lemma_flat_frame(src, ops, k + 1, o.span.hi as int);
    }
}

/// Operations that stand side by side are valid and replace their spans one
/// after another: the bytes between them are kept.
pub proof fn lemma_side_by_side(src: Seq<u8>, ops: Seq<OpView>)
    requires
        side_by_side(ops, src.len() as int),
    ensures
        patched(src, ops) == (true, flat_from(src, ops, 0, 0)),
{
    let len = src.len() as int;
    assert forall|k: int| 0 < k < ops.len() implies before(#[trigger] ops[k - 1].span, ops[k].span, false)
        && before(ops[k - 1].span, ops[k].span, true) by {
        assert(ops[k - 1].span.hi <= ops[k].span.lo);
        assert(op_fits(ops[k - 1], len));
    }
    lemma_sorted_stays(ops, false);
    lemma_sorted_stays(ops, true);
    assert forall|x: OpView| #[trigger] ops.contains(x) implies op_fits(x, len) by {
        let i = choose|i: int| 0 <= i < ops.len() && ops[i] == x;
        assert(op_fits(ops[i], len));
    }
    assert forall|x: OpView, y: OpView| ops.contains(x) && ops.contains(y) implies compatible(
        x.span,
        y.span,
    ) by {
        let i = choose|i: int| 0 <= i < ops.len() && ops[i] == x;
        let j = choose|j: int| 0 <= j < ops.len() && ops[j] == y;
        if i < j {
            lemma_side_by_side_apart(ops, len, i, j);
        } else if j < i {
            lemma_side_by_side_apart(ops, len, j, i);
        }
    }
    if ops.len() > 0 {
        assert(op_fits(ops[0], len));
    }
    lemma_flat_frame(src, ops, 0, 0);
}

/// An operation whose span is the whole source leaves nothing of the source
/// around its action's text.
pub proof fn lemma_whole_span(src: Seq<u8>, op: OpView)
    requires
        op.span.lo == 0,
        op.span.hi == src.len(),
        op.action matches ActionView::Collapse(inner) ==> inner.fits(src.len() as int),
    ensures
        patched(src, seq![op]) == (true, lone_action_text(src, op.action)),
{
    let ops = seq![op];
    assert(ops[0] == op);
    lemma_side_by_side(src, ops);
    assert(src.subrange(0, 0) =~= Seq::<u8>::empty());
    assert(src.subrange(src.len() as int, src.len() as int) =~= Seq::<u8>::empty());
    assert(flat_from(src, ops, 1, src.len() as int) == Seq::<u8>::empty());
    assert(flat_from(src, ops, 0, 0) =~= lone_action_text(src, op.action));
}

/// Two replacements that meet, with nothing else: the source around them is
/// kept.
pub proof fn lemma_put_put(src: Seq<u8>, a: Span, t1: Seq<u8>, b: Span, t2: Seq<u8>)
    requires
        a.lo <= a.hi,
        a.hi == b.lo,
        b.lo <= b.hi,
        b.hi <= src.len(),
    ensures
        patched(
            src,
            seq![
                OpView { action: ActionView::Replace(t1), span: a },
                OpView { action: ActionView::Replace(t2), span: b },
            ],
        ) == (true, src.subrange(0, a.lo as int) + t1 + t2 + src.subrange(b.hi as int, src.len() as int)),
{
    let ops = seq![
        OpView { action: ActionView::Replace(t1), span: a },
        OpView { action: ActionView::Replace(t2), span: b },
    ];
    lemma_side_by_side(src, ops);
    let n = src.len() as int;
    assert(flat_from(src, ops, 1, a.hi as int) == src.subrange(a.hi as int, b.lo as int) + t2
        + flat_from(src, ops, 2, b.hi as int));
    assert(src.subrange(a.hi as int, b.lo as int) =~= Seq::<u8>::empty());
    assert(flat_from(src, ops, 0, 0) =~= src.subrange(0, a.lo as int) + t1 + t2 + src.subrange(
        b.hi as int,
        n,
    ));
}

/// A replacement that ends where a collapse starts, then a text put right after
/// the collapse, with nothing else: the source around them is kept, and the
/// collapse gives exactly the bytes of its inner span.
pub proof fn lemma_put_collapse_put(
    src: Seq<u8>,
    a: Span,
    t1: Seq<u8>,
    c: Span,
    inner: Span,
    t3: Seq<u8>,
)
    requires
        a.lo <= a.hi,
        a.hi == c.lo,
        c.lo < c.hi,
        c.hi <= src.len(),
        inner.fits(src.len() as int),
    ensures
        patched(
            src,
            seq![
                OpView { action: ActionView::Replace(t1), span: a },
                OpView { action: ActionView::Collapse(inner), span: c },
                OpView { action: ActionView::Replace(t3), span: Span { lo: c.hi, hi: c.hi } },
            ],
        ) == (true, src.subrange(0, a.lo as int) + t1 + slice_of(src, inner) + t3 + src.subrange(
            c.hi as int,
            src.len() as int,
        )),
{
    let ops = seq![
        OpView { action: ActionView::Replace(t1), span: a },
        OpView { action: ActionView::Collapse(inner), span: c },
        OpView { action: ActionView::Replace(t3), span: Span { lo: c.hi, hi: c.hi } },
    ];
    lemma_side_by_side(src, ops);
    let n = src.len() as int;
    let e = Seq::<u8>::empty();
    assert(src.subrange(c.hi as int, c.hi as int) =~= e);
    assert(src.subrange(a.hi as int, c.lo as int) =~= e);
    assert(flat_from(src, ops, 2, c.hi as int) == e + t3 + flat_from(src, ops, 3, c.hi as int));
    assert(flat_from(src, ops, 1, a.hi as int) == e + slice_of(src, inner) + flat_from(src, ops, 2, c.hi as int));
    assert(flat_from(src, ops, 0, 0) =~= src.subrange(0, a.lo as int) + t1 + slice_of(src, inner) + t3
        + src.subrange(c.hi as int, n));
}

/// Appends `src[a..b]` to `out`.
pub(crate) fn push_range(out: &mut Vec<u8>, src: &[u8], a: usize, b: usize)
    requires
        a <= b <= src@.len(),
    ensures
        final(out)@ == old(out)@ + src@.subrange(a as int, b as int),
{
    let mut k: usize = a;
    while k < b
        invariant
            a <= k <= b,
            b <= src@.len(),
            out@ == old(out)@ + src@.subrange(a as int, k as int),
        decreases b - k,
    {
        out.push(src[k]);
        assert(src@.subrange(a as int, k + 1) == src@.subrange(a as int, k as int).push(src@[k as int]));
        k = k + 1;
    }
}

/// Appends all of `t` to `out`.
pub fn push_all(out: &mut Vec<u8>, t: &[u8])
    ensures
        final(out)@ == old(out)@ + t@,
{
    push_range(out, t, 0, t.len());
    assert(t@.subrange(0, t@.len() as int) == t@);
}

/// The end of the run of operations that `ops[i]` governs.
fn children_end_exec(ops: &Vec<Op>, i: usize) -> (e: usize)
    requires
        i < ops.len(),
    ensures
        e == children_end(views(ops@), i as int, i + 1),
        i < e <= views(ops@).len(),
{
    let mut j: usize = i + 1;
    while j < ops.len() && ops[i].span.lo <= ops[j].span.lo && ops[j].span.lo < ops[i].span.hi
        && ops[j].span.hi <= ops[i].span.hi
        invariant
            i < j <= views(ops@).len(),
            children_end(views(ops@), i as int, i + 1) == children_end(views(ops@), i as int, j as int),
        decreases ops@.len() - j,
    {
        j = j + 1;
    }
    j
}

/// Whether every operation fits a source of `len` bytes and any two spans are
/// disjoint or nested.
fn check_ops(ops: &Vec<Op>, len: usize) -> (r: bool)
    ensures
        r == valid_ops(views(ops@), len as int),
{
    let ghost v = views(ops@);
    let n = ops.len();
    let mut i: usize = 0;
    while i < n
        invariant
            n == v.len(),
            v == views(ops@),
            i <= n,
            forall|m: int| 0 <= m < i ==> op_fits(#[trigger] v[m], len as int),
        decreases n - i,
    {
        let s = ops[i].span;
        let ok = s.lo <= s.hi && s.hi <= len && match &ops[i].action {
            Action::Collapse(inner) => inner.lo <= inner.hi && inner.hi <= len,
            _ => true,
        };
        if !ok {
            assert(v.contains(v[i as int]));
            return false;
        }
        i = i + 1;
    }
    let mut i: usize = 0;
    while i < n
        invariant
            n == v.len(),
            v == views(ops@),
            i <= n,
            forall|m: int| 0 <= m < n ==> op_fits(#[trigger] v[m], len as int),
            forall|a: int, b: int|
                0 <= a < i && 0 <= b < n ==> compatible(#[trigger] v[a].span, #[trigger] v[b].span),
        decreases n - i,
    {
        let mut j: usize = 0;
        while j < n
            invariant
                n == v.len(),
                v == views(ops@),
                i < n,
                j <= n,
                forall|m: int| 0 <= m < n ==> op_fits(#[trigger] v[m], len as int),
                forall|a: int, b: int|
                    0 <= a < i && 0 <= b < n ==> compatible(#[trigger] v[a].span, #[trigger] v[b].span),
                forall|b: int| 0 <= b < j ==> compatible(v[i as int].span, #[trigger] v[b].span),
            decreases n - j,
        {
            let a = ops[i].span;
            let b = ops[j].span;
            if !(a.hi <= b.lo || b.hi <= a.lo || (a.lo <= b.lo && b.hi <= a.hi) || (b.lo <= a.lo
                && a.hi <= b.hi)) {
                assert(v.contains(v[i as int]) && v.contains(v[j as int]));
                assert(!compatible(v[i as int].span, v[j as int].span));
                return false;
            }
            j = j + 1;
        }
        i = i + 1;
    }
    assert forall|x: OpView| #[trigger] v.contains(x) implies op_fits(x, len as int) by {
        let m = choose|m: int| 0 <= m < v.len() && v[m] == x;
        assert(op_fits(v[m], len as int));
    }
    assert forall|x: OpView, y: OpView| v.contains(x) && v.contains(y) implies compatible(
        x.span,
        y.span,
    ) by {
        let a = choose|a: int| 0 <= a < v.len() && v[a] == x;
        let b = choose|b: int| 0 <= b < v.len() && v[b] == y;
        assert(compatible(v[a].span, v[b].span));
    }
    true
}

/// Replays `ops`, each of which comes before those nested in it, from index
/// `i` and before index `lim`, over `[cur, hi)` of `src`, appending to `out`.
fn replay_frame(
    src: &[u8],
    ops: &Vec<Op>,
    i: usize,
    lim: usize,
    cur: usize,
    hi: usize,
    out: &mut Vec<u8>,
)
    requires
        cur <= hi <= src@.len(),
        lim <= ops@.len(),
        forall|m: int| 0 <= m < ops@.len() ==> op_fits(#[trigger] views(ops@)[m], src@.len() as int),
    ensures
        final(out)@ == old(out)@ + frame(src@, views(ops@), i as int, lim as int, cur as int, hi as int),
    decreases ops@.len() - i,
{
    let ghost whole = frame(src@, views(ops@), i as int, lim as int, cur as int, hi as int);
    let mut k: usize = i;
    let mut at: usize = cur;
    loop
        invariant
            i <= k,
            lim <= ops@.len(),
            forall|m: int| 0 <= m < ops@.len() ==> op_fits(#[trigger] views(ops@)[m], src@.len() as int),
            whole == frame(src@, views(ops@), i as int, lim as int, cur as int, hi as int),
            at <= hi <= src@.len(),
            old(out)@ + whole == out@ + frame(src@, views(ops@), k as int, lim as int, at as int, hi as int),
        decreases ops@.len() - k,
    {
        if k >= lim {
            push_range(out, src, at, hi);
            return;
        }
        let ghost here = frame(src@, views(ops@), k as int, lim as int, at as int, hi as int);
        let c = children_end_exec(ops, k);
        let e = if c > lim {
            lim
        } else {
            c
        };
        assert(op_fits(views(ops@)[k as int], src@.len() as int));
        if at <= ops[k].span.lo && ops[k].span.lo <= ops[k].span.hi && ops[k].span.hi <= hi {
            let lo = ops[k].span.lo;
            let end = ops[k].span.hi;
            let ghost before = out@;
            push_range(out, src, at, lo);
            match &ops[k].action {
                Action::Replace(t) => {
                    push_all(out, t.as_slice());
                },
                Action::Remove => {},
                Action::Collapse(inner) => {
                    replay_frame(src, ops, k + 1, e, inner.lo, inner.hi, out);
                },
            }
            proof {
                let rest = frame(src@, views(ops@), e as int, lim as int, end as int, hi as int);
                assert(out@ == before + src@.subrange(at as int, lo as int) + (here.subrange(
                    (lo - at) as int,
                    here.len() - rest.len(),
                )));
                assert(here == src@.subrange(at as int, lo as int) + here.subrange(
                    (lo - at) as int,
                    here.len() - rest.len(),
                ) + rest);
            }
            k = e;
            at = end;
        } else {
            k = e;
        }
    }
}

/// Orders `ops` by span start, then end, and replays them over `src`, each
/// before those nested in it: bytes outside every operation are copied, and each
/// operation's span gives way to its action's text. Fails exactly when a span
/// is out of place.
pub fn apply_ops(src: &[u8], ops: Vec<Op>) -> (r: Result<Vec<u8>, PatchError>)
    ensures
        r is Ok <==> patched(src@, views(ops@)).0,
        r is Ok ==> r->Ok_0@ == patched(src@, views(ops@)).1,
{
    let ghost v0 = views(ops@);
    if !check_ops(&ops, src.len()) {
        return Err(PatchError::BadSpans);
    }
    let sorted = sort_ops(ops);
    let ordered = sort_ops_by(sorted, true);
    proof {
        broadcast use vstd::seq_lib::to_multiset_contains;

        lemma_sort_by(v0, false);
        lemma_sort_by(sorted_ops(v0), true);
        let w = views(ordered@);
        assert forall|m: int| 0 <= m < ordered@.len() implies op_fits(
            #[trigger] views(ordered@)[m],
            src@.len() as int,
        ) by {
            assert(w.contains(w[m]));
            assert(w.to_multiset().count(w[m]) > 0);
            assert(v0.to_multiset().count(w[m]) > 0);
        }
    }
    let mut out: Vec<u8> = Vec::with_capacity(src.len());
    replay_frame(src, &ordered, 0, ordered.len(), 0, src.len(), &mut out);
    assert(out@ =~= replay(src@, views(ordered@)));
    Ok(out)
}

} // verus!
