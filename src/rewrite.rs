//! The whole rewrite: checking names, collecting operations, replaying them.

use vstd::prelude::*;

use crate::jsx::{collect_ops, names_fit, push_element_ops, Attr, Element};
use crate::op::{views, Op, OpView};
use crate::patch::{apply_ops, lemma_no_ops, patched};

verus! {

/// Why a source could not be rewritten.
#[derive(Clone, Copy, Debug, PartialEq, Eq, Structural)]
pub enum RewriteError {
    /// The name of an element or attribute lies outside the source.
    NameOutOfBounds,
    /// Some operation's span, or a collapse's inner span, is reversed or outside
    /// the source, or two operations' spans overlap without one holding the
    /// other.
    BadSpans,
}

/// Every element's names lie inside a source of `len` bytes.
pub open spec fn all_names_fit(len: int, els: Seq<Element>) -> bool {
    forall|i: int| 0 <= i < els.len() ==> names_fit(len, #[trigger] els[i])
}

/// Whether the names of `el` lie inside a source of `len` bytes.
pub fn element_names_fit(el: &Element, len: usize) -> (r: bool)
    ensures
        r == names_fit(len as int, *el),
{
    if !el.name.span().fits_in(len) {
        return false;
    }
    let mut k: usize = 0;
    while k < el.attrs.len()
        invariant
            k <= el.attrs@.len(),
            forall|j: int|
                0 <= j < k ==> match #[trigger] el.attrs@[j] {
                    Attr::Named { name, .. } => name.fits(len as int),
                    Attr::Spread { .. } => true,
                },
        decreases el.attrs@.len() - k,
    {
        match el.attrs[k] {
            Attr::Named { name, .. } => {
                if !name.fits_in(len) {
                    return false;
                }
            },
            Attr::Spread { .. } => {},
        }
        k = k + 1;
    }
    true
}

/// The operations of all elements of `els`, each element's before the next
/// one's.
pub fn collect(src: &[u8], els: &Vec<Element>) -> (r: Vec<Op>)
    requires
        all_names_fit(src@.len() as int, els@),
    ensures
        views(r@) == collect_ops(src@, els@),
{
    let mut ops: Vec<Op> = Vec::new();
    let mut i: usize = 0;
    assert(els@.subrange(0, 0) =~= Seq::<Element>::empty());
    assert(views(ops@) =~= Seq::<OpView>::empty());
    while i < els.len()
        invariant
            i <= els@.len(),
            all_names_fit(src@.len() as int, els@),
            views(ops@) == collect_ops(src@, els@.subrange(0, i as int)),
        decreases els@.len() - i,
    {
        assert(names_fit(src@.len() as int, els@[i as int]));
        push_element_ops(src, &els[i], &mut ops);
        proof {
            let t = els@.subrange(0, i + 1);
            assert(t.drop_last() =~= els@.subrange(0, i as int));
            assert(t.last() == els@[i as int]);
        }
        i = i + 1;
    }
    assert(els@.subrange(0, i as int) =~= els@);
    ops
}

/// Rewrites every markup element of `src` into a call expression. `els` holds
/// every element of the source, each before those nested in it.
pub fn rewrite(src: &[u8], els: &Vec<Element>) -> (r: Result<Vec<u8>, RewriteError>)
    ensures
        !all_names_fit(src@.len() as int, els@) ==> r == Err::<Vec<u8>, RewriteError>(
            RewriteError::NameOutOfBounds,
        ),
        all_names_fit(src@.len() as int, els@) ==> {
            let p = patched(src@, collect_ops(src@, els@));
            &&& r is Ok <==> p.0
            &&& r is Ok ==> r->Ok_0@ == p.1
            &&& r is Err ==> r->Err_0 == RewriteError::BadSpans
        },
{
    let mut i: usize = 0;
    while i < els.len()
        invariant
            i <= els@.len(),
            forall|j: int| 0 <= j < i ==> names_fit(src@.len() as int, #[trigger] els@[j]),
        decreases els@.len() - i,
    {
        if !element_names_fit(&els[i], src.len()) {
            return Err(RewriteError::NameOutOfBounds);
        }
        i = i + 1;
    }
    let ops = collect(src, els);
    match apply_ops(src, ops) {
        Ok(out) => Ok(out),
        Err(_) => Err(RewriteError::BadSpans),
    }
}

/// A source without markup comes out of the rewrite unchanged: there are no
/// operations to apply.
pub proof fn lemma_no_markup(src: Seq<u8>)
    ensures
        all_names_fit(src.len() as int, Seq::empty()),
        collect_ops(src, Seq::empty()) == Seq::<OpView>::empty(),
        patched(src, collect_ops(src, Seq::empty())) == (true, src),
{
    lemma_no_ops(src);
}

} // verus!
