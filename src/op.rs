//! Rewrite operations and their stable ordering by span.

use vstd::prelude::*;

use crate::span::Span;

verus! {

/// What happens to the bytes of an operation's span.
#[derive(Debug)]
pub enum Action {
    /// The bytes are dropped and the given text stands in their place.
    Replace(Vec<u8>),
    /// The bytes are dropped.
    Remove,
    /// The bytes are dropped and the rewritten form of the inner span stands in
    /// their place.
    Collapse(Span),
}

/// One rewrite operation: an action on a span of the source as given.
#[derive(Debug)]
pub struct Op {
    pub action: Action,
    pub span: Span,
}

/// The mathematical form of an [`Action`]: its text as a sequence of bytes.
pub enum ActionView {
    Replace(Seq<u8>),
    Remove,
    Collapse(Span),
}

/// The mathematical form of an [`Op`].
pub struct OpView {
    pub action: ActionView,
    pub span: Span,
}

impl View for Action {
    type V = ActionView;

    open spec fn view(&self) -> ActionView {
        match self {
            Action::Replace(t) => ActionView::Replace(t@),
            Action::Remove => ActionView::Remove,
            Action::Collapse(inner) => ActionView::Collapse(*inner),
        }
    }
}

impl View for Op {
    type V = OpView;

    open spec fn view(&self) -> OpView {
        OpView { action: self.action@, span: self.span }
    }
}

/// The views of a sequence of operations.
pub open spec fn views(s: Seq<Op>) -> Seq<OpView> {
    s.map_values(|o: Op| o@)
}

impl Op {
    /// An operation that puts `text` in place of `span`.
    pub fn replace(span: Span, text: Vec<u8>) -> (r: Op)
        ensures
            r.span == span,
            r@.action == ActionView::Replace(text@),
    {
        Op { action: Action::Replace(text), span }
    }

    /// An operation that drops `span`.
    pub fn remove(span: Span) -> (r: Op)
        ensures
            r.span == span,
            r@.action == ActionView::Remove,
    {
        Op { action: Action::Remove, span }
    }

    /// An operation that puts the rewritten `inner` in place of `span`.
    pub fn collapse(span: Span, inner: Span) -> (r: Op)
        ensures
            r.span == span,
            r@.action == ActionView::Collapse(inner),
    {
        Op { action: Action::Collapse(inner), span }
    }
}

/// `a` may stand before `b` in the order of operations: by start, then by
/// end.
pub open spec fn precedes(a: Span, b: Span) -> bool {
    a.lo < b.lo || (a.lo == b.lo && a.hi <= b.hi)
}

/// `a` may stand before `b` when nesting is resolved: by start; at one start,
/// empty spans (insertions) first, then longer spans before the shorter ones
/// they contain, so that an operation comes before every operation nested in
/// it.
pub open spec fn encloses_first(a: Span, b: Span) -> bool {
    a.lo < b.lo || (a.lo == b.lo && (a.lo == a.hi || (b.lo != b.hi && a.hi >= b.hi)))
}

/// The order chosen by `nest`: [`encloses_first`] if set, else [`precedes`].
pub open spec fn before(a: Span, b: Span, nest: bool) -> bool {
    if nest {
        encloses_first(a, b)
    } else {
        precedes(a, b)
    }
}

/// Executable form of [`before`].
fn before_exec(a: Span, b: Span, nest: bool) -> (r: bool)
    ensures
        r == before(a, b, nest),
{
    if nest {
        a.lo < b.lo || (a.lo == b.lo && (a.lo == a.hi || (b.lo != b.hi && a.hi >= b.hi)))
    } else {
        a.lo < b.lo || (a.lo == b.lo && a.hi <= b.hi)
    }
}

/// `x` inserted into `s`, ordered by `nest`, after every operation that may
/// stand before it, so that operations with equal spans keep the order in which
/// they came.
pub open spec fn insert_by(s: Seq<OpView>, x: OpView, nest: bool) -> Seq<OpView>
    decreases s.len(),
{
    if s.len() == 0 {
        seq![x]
    } else if before(s.last().span, x.span, nest) {
        s.push(x)
    } else {
        insert_by(s.drop_last(), x, nest).push(s.last())
    }
}

/// The stable ordering of `s` by the order chosen by `nest`.
pub open spec fn sort_by(s: Seq<OpView>, nest: bool) -> Seq<OpView>
    decreases s.len(),
{
    if s.len() == 0 {
        s
    } else {
        insert_by(sort_by(s.drop_last(), nest), s.last(), nest)
    }
}

/// The stable ordering of `s` by span start, then span end.
pub open spec fn sorted_ops(s: Seq<OpView>) -> Seq<OpView> {
    sort_by(s, false)
}

/// The stable ordering of `s` in which each operation comes before those
/// nested in it.
pub open spec fn nesting_order(s: Seq<OpView>) -> Seq<OpView> {
    sort_by(s, true)
}

/// `s` is ordered by the order chosen by `nest`.
pub open spec fn in_order(s: Seq<OpView>, nest: bool) -> bool {
    forall|k: int| 0 < k < s.len() ==> before(#[trigger] s[k - 1].span, s[k].span, nest)
}

/// Inserting into an ordered sequence keeps it ordered and adds exactly `x`.
proof fn lemma_insert_by(s: Seq<OpView>, x: OpView, nest: bool)
    requires
        in_order(s, nest),
    ensures
        in_order(insert_by(s, x, nest), nest),
        insert_by(s, x, nest).to_multiset() =~= s.to_multiset().insert(x),
        insert_by(s, x, nest).len() == s.len() + 1,
        insert_by(s, x, nest).last() == x || (s.len() > 0 && insert_by(s, x, nest).last()
            == s.last()),
    decreases s.len(),
{
    broadcast use vstd::seq_lib::to_multiset_build, vstd::multiset::group_multiset_axioms;

    if s.len() == 0 {
        assert(insert_by(s, x, nest) =~= s.push(x));
    } else if before(s.last().span, x.span, nest) {
        let r = s.push(x);
        assert forall|k: int| 0 < k < r.len() implies before(#[trigger] r[k - 1].span, r[k].span, nest) by {
            if k < s.len() {
                assert(r[k - 1] == s[k - 1] && r[k] == s[k]);
            }
        }
    } else {
        let t = s.drop_last();
        let l = s.last();
        assert forall|k: int| 0 < k < t.len() implies before(#[trigger] t[k - 1].span, t[k].span, nest) by {
            assert(t[k - 1] == s[k - 1] && t[k] == s[k]);
        }
        lemma_insert_by(t, x, nest);
        let u = insert_by(t, x, nest);
        let r = u.push(l);
        if t.len() > 0 {
            assert(t.last() == s[s.len() - 2]);
        }
        assert(before(u.last().span, l.span, nest));
        assert forall|k: int| 0 < k < r.len() implies before(#[trigger] r[k - 1].span, r[k].span, nest) by {
            if k < u.len() {
                assert(r[k - 1] == u[k - 1] && r[k] == u[k]);
            }
        }
        assert(s == t.push(l));
    }
}

/// The ordering gives its input in order, with the same operations.
pub proof fn lemma_sort_by(s: Seq<OpView>, nest: bool)
    ensures
        in_order(sort_by(s, nest), nest),
        sort_by(s, nest).to_multiset() =~= s.to_multiset(),
    decreases s.len(),
{
    broadcast use vstd::seq_lib::to_multiset_build;

    if s.len() > 0 {
        lemma_sort_by(s.drop_last(), nest);
        lemma_insert_by(sort_by(s.drop_last(), nest), s.last(), nest);
        assert(s == s.drop_last().push(s.last()));
    }
}

/// `sorted_ops` gives its input ordered by span start, then span end, with the
/// same operations.
pub proof fn lemma_sorted_ops(s: Seq<OpView>)
    ensures
        in_order(sorted_ops(s), false),
        sorted_ops(s).to_multiset() =~= s.to_multiset(),
{
    lemma_sort_by(s, false);
}

/// Inserting two operations with different spans gives the same sequence in
/// either order.
pub proof fn lemma_insert_commutes(s: Seq<OpView>, x: OpView, y: OpView, nest: bool)
    requires
        x.span != y.span,
    ensures
        insert_by(insert_by(s, x, nest), y, nest) == insert_by(insert_by(s, y, nest), x, nest),
    decreases s.len(),
{
    if s.len() == 0 {
        reveal_with_fuel(insert_by, 3);
    } else {
        let l = s.last();
        let t = s.drop_last();
        assert(s == t.push(l));
        if before(l.span, x.span, nest) && before(l.span, y.span, nest) {
            assert(insert_by(s, x, nest) == s.push(x));
            assert(insert_by(s, y, nest) == s.push(y));
            assert(s.push(x).drop_last() == s);
            assert(s.push(y).drop_last() == s);
        } else if before(l.span, x.span, nest) {
            assert(insert_by(s, x, nest) == s.push(x));
            assert(s.push(x).drop_last() == s);
            assert(insert_by(s, y, nest) == insert_by(t, y, nest).push(l));
            assert(insert_by(t, y, nest).push(l).drop_last() == insert_by(t, y, nest));
        } else if before(l.span, y.span, nest) {
            assert(insert_by(s, y, nest) == s.push(y));
            assert(s.push(y).drop_last() == s);
            assert(insert_by(s, x, nest) == insert_by(t, x, nest).push(l));
            assert(insert_by(t, x, nest).push(l).drop_last() == insert_by(t, x, nest));
        } else {
            lemma_insert_commutes(t, x, y, nest);
            assert(insert_by(t, x, nest).push(l).drop_last() == insert_by(t, x, nest));
            assert(insert_by(t, y, nest).push(l).drop_last() == insert_by(t, y, nest));
        }
    }
}

/// Swapping two neighbouring operations with different spans before ordering
/// leaves the ordered sequence unchanged.
pub proof fn lemma_sort_swap_neighbours(
    p: Seq<OpView>,
    x: OpView,
    y: OpView,
    q: Seq<OpView>,
    nest: bool,
)
    requires
        x.span != y.span,
    ensures
        sort_by(p + seq![x, y] + q, nest) == sort_by(p + seq![y, x] + q, nest),
    decreases q.len(),
{
    if q.len() == 0 {
        let a = p + seq![x, y];
        let b = p + seq![y, x];
        assert(p + seq![x, y] + q == a);
        assert(p + seq![y, x] + q == b);
        assert(a.drop_last() == p.push(x));
        assert(b.drop_last() == p.push(y));
        assert(p.push(x).drop_last() == p);
        assert(p.push(y).drop_last() == p);
        assert(sort_by(a, nest) == insert_by(sort_by(p.push(x), nest), y, nest));
        assert(sort_by(b, nest) == insert_by(sort_by(p.push(y), nest), x, nest));
        assert(sort_by(p.push(x), nest) == insert_by(sort_by(p, nest), x, nest));
        assert(sort_by(p.push(y), nest) == insert_by(sort_by(p, nest), y, nest));
        lemma_insert_commutes(sort_by(p, nest), x, y, nest);
    } else {
        let a = p + seq![x, y] + q;
        let b = p + seq![y, x] + q;
        let q2 = q.drop_last();
        assert(a.drop_last() == p + seq![x, y] + q2);
        assert(b.drop_last() == p + seq![y, x] + q2);
        assert(a.last() == b.last());
        lemma_sort_swap_neighbours(p, x, y, q2, nest);
        assert(sort_by(a, nest) == insert_by(sort_by(a.drop_last(), nest), a.last(), nest));
        assert(sort_by(b, nest) == insert_by(sort_by(b.drop_last(), nest), b.last(), nest));
    }
}

/// Swapping two operations with different starts before ordering leaves the
/// ordered sequence unchanged, as long as no operation between them has the
/// span of either.
pub proof fn lemma_sort_swap(
    p: Seq<OpView>,
    x: OpView,
    m: Seq<OpView>,
    y: OpView,
    q: Seq<OpView>,
    nest: bool,
)
    requires
        x.span.lo != y.span.lo,
        forall|k: int| 0 <= k < m.len() ==> #[trigger] m[k].span != x.span && m[k].span != y.span,
    ensures
        sort_by(p + seq![x] + m + seq![y] + q, nest) == sort_by(p + seq![y] + m + seq![x] + q, nest),
    decreases m.len(),
{
    if m.len() == 0 {
        assert(p + seq![x] + m + seq![y] + q =~= p + seq![x, y] + q);
        assert(p + seq![y] + m + seq![x] + q =~= p + seq![y, x] + q);
        lemma_sort_swap_neighbours(p, x, y, q, nest);
    } else {
        let m0 = m[0];
        let rest = m.drop_first();
        assert(m0.span != x.span && m0.span != y.span);
        assert forall|k: int| 0 <= k < rest.len() implies #[trigger] rest[k].span != x.span
            && rest[k].span != y.span by {
            assert(rest[k] == m[k + 1]);
        }
        let tx = rest + seq![y] + q;
        let ty = rest + seq![x] + q;
        assert(p + seq![x] + m + seq![y] + q =~= p + seq![x, m0] + tx);
        lemma_sort_swap_neighbours(p, x, m0, tx, nest);
        assert(p + seq![m0, x] + tx =~= p.push(m0) + seq![x] + rest + seq![y] + q);
        lemma_sort_swap(p.push(m0), x, rest, y, q, nest);
        assert(p.push(m0) + seq![y] + rest + seq![x] + q =~= p + seq![m0, y] + ty);
        lemma_sort_swap_neighbours(p, m0, y, ty, nest);
        assert(p + seq![y, m0] + ty =~= p + seq![y] + m + seq![x] + q);
    }
}

/// Finds where `x` goes in `sorted`, ordered by `nest`, and puts it there.
fn insert_sorted(sorted: &mut Vec<Op>, x: Op, nest: bool)
    ensures
        views(final(sorted)@) == insert_by(views(old(sorted)@), x@, nest),
{
    let ghost s0 = views(sorted@);
    let ghost xv = x@;
    let mut p: usize = sorted.len();
    assert(s0.subrange(0, s0.len() as int) == s0);
    assert(s0.subrange(s0.len() as int, s0.len() as int) == Seq::<OpView>::empty());
    assert(insert_by(s0, xv, nest) + Seq::<OpView>::empty() == insert_by(s0, xv, nest));
    while p > 0 && !before_exec(sorted[p - 1].span, x.span, nest)
        invariant
            views(sorted@) == s0,
            xv == x@,
            p <= s0.len(),
            insert_by(s0, xv, nest) == insert_by(s0.subrange(0, p as int), xv, nest) + s0.subrange(
                p as int,
                s0.len() as int,
            ),
        decreases p,
    {
        let ghost t = s0.subrange(0, p as int);
        assert(s0[p - 1] == sorted@[p - 1]@);
        assert(t.drop_last() == s0.subrange(0, p - 1));
        assert(insert_by(t, xv, nest) == insert_by(t.drop_last(), xv, nest).push(t.last()));
        assert(s0.subrange(p - 1, s0.len() as int) == seq![s0[p - 1]] + s0.subrange(
            p as int,
            s0.len() as int,
        ));
        assert(insert_by(t.drop_last(), xv, nest).push(t.last()) + s0.subrange(
            p as int,
            s0.len() as int,
        ) == insert_by(t.drop_last(), xv, nest) + s0.subrange(p - 1, s0.len() as int));
        p = p - 1;
    }
    proof {
        let t = s0.subrange(0, p as int);
        if p > 0 {
            assert(s0[p - 1] == sorted@[p - 1]@);
            assert(insert_by(t, xv, nest) == t.push(xv));
        } else {
            assert(insert_by(t, xv, nest) == seq![xv]);
        }
        assert(t.push(xv) + s0.subrange(p as int, s0.len() as int) == s0.insert(p as int, xv));
    }
    sorted.insert(p, x);
    assert(views(sorted@) == s0.insert(p as int, xv));
}

/// Orders `ops` by the order chosen by `nest`, keeping the order in which
/// operations with equal spans came.
pub(crate) fn sort_ops_by(ops: Vec<Op>, nest: bool) -> (r: Vec<Op>)
    ensures
        views(r@) == sort_by(views(ops@), nest),
{
    let ghost orig = views(ops@);
    let n = ops.len();
    let mut rest = ops;
    let mut sorted: Vec<Op> = Vec::new();
    let mut i: usize = 0;
    assert(orig.subrange(0, 0) == Seq::<OpView>::empty());
    assert(views(sorted@) == Seq::<OpView>::empty());
    while rest.len() > 0
        invariant
            i <= orig.len(),
            orig.len() == n,
            views(rest@) == orig.subrange(i as int, orig.len() as int),
            views(sorted@) == sort_by(orig.subrange(0, i as int), nest),
        decreases rest.len(),
    {
        let ghost r0 = rest@;
        let x = rest.remove(0);
        proof {
            assert(views(r0).len() == r0.len());
            assert(i < orig.len());
            let t = orig.subrange(0, i + 1);
            assert(views(r0)[0] == x@);
            assert(orig[i as int] == views(r0)[0]);
            assert(t.drop_last() == orig.subrange(0, i as int));
            assert(t.last() == x@);
            assert(views(rest@) == views(r0).subrange(1, r0.len() as int));
            assert(views(rest@) == orig.subrange(i + 1, orig.len() as int));
        }
        insert_sorted(&mut sorted, x, nest);
        i = i + 1;
    }
    assert(orig.subrange(0, orig.len() as int) == orig);
    sorted
}

/// Orders `ops` by span start, then span end, keeping the order in which
/// operations with equal spans came.
pub fn sort_ops(ops: Vec<Op>) -> (r: Vec<Op>)
    ensures
        views(r@) == sorted_ops(views(ops@)),
{
    sort_ops_by(ops, false)
}

} // verus!
