//! Line and byte positions of spans in a text.

use vstd::prelude::*;

use crate::span::Span;
use vstd::string::StringSliceAdditionalSpecFns;

verus! {

/// A place in a text: a line number, from 1, and a byte offset.
#[derive(Clone, Copy, Debug, PartialEq, Eq, Structural)]
pub struct Position {
    pub line: usize,
    pub char: usize,
}

/// Where a span of a text starts and ends, at character boundaries.
#[derive(Clone, Copy, Debug, PartialEq, Eq, Structural)]
pub struct CodeSpan {
    pub start: Position,
    pub end: Position,
}

/// Byte `i` of the UTF-8 text `s` starts a character.
pub open spec fn char_start(s: Seq<u8>, i: int) -> bool {
    0 <= i < s.len() && (s[i] < 0x80 || s[i] >= 0xC0)
}

/// The first character start at or after `from`, or -1.
pub open spec fn next_start(s: Seq<u8>, from: int) -> int
    decreases s.len() - from,
{
    if from < 0 || from >= s.len() {
        -1
    } else if char_start(s, from) {
        from
    } else {
        next_start(s, from + 1)
    }
}

/// The number of line feeds among the first `i` bytes of `s`.
pub open spec fn newlines_before(s: Seq<u8>, i: int) -> int
    decreases i,
{
    if i <= 0 {
        0
    } else {
        newlines_before(s, i - 1) + if s[i - 1] == 10 {
            1int
        } else {
            0int
        }
    }
}

/// The position of byte `i` of `s`.
pub open spec fn position_at(s: Seq<u8>, i: int) -> Position {
    Position { line: (1 + newlines_before(s, i)) as usize, char: i as usize }
}

/// Where `span` starts and ends in `s`: the first character at or after its
/// start, and the first character after that one at or after its end; `None`
/// where either is missing.
pub open spec fn code_span(s: Seq<u8>, span: Span) -> Option<CodeSpan> {
    let a = next_start(s, span.lo as int);
    let b = next_start(s, if span.hi > a + 1 {
        span.hi as int
    } else {
        a + 1
    });
    if a < 0 || b < 0 {
        None
    } else {
        Some(CodeSpan { start: position_at(s, a), end: position_at(s, b) })
    }
}

/// Where `span` starts and ends in `code`, with line numbers: the first
/// character at or after its start, and the first character after that one at
/// or after its end; `None` where the text ends before either.
pub fn span_str(code: &str, span: Span) -> (r: Option<CodeSpan>)
    ensures
        r == code_span(code.spec_bytes(), span),
{
    let s = code.as_bytes();
    let ghost v = s@;
    let n = s.len();
    let mut start: Option<usize> = None;
    let mut start_newlines: usize = 0;
    let mut newlines: usize = 0;
    let mut i: usize = 0;
    while i < n
        invariant
            v == s@,
            v == code.spec_bytes(),
            n == v.len(),
            i <= n,
            newlines == newlines_before(v, i as int),
            newlines <= i,
            match start {
                None => (i as int) <= span.lo || next_start(v, span.lo as int) == next_start(v, i as int),
                Some(a) => {
                    &&& a == next_start(v, span.lo as int)
                    &&& a < i
                    &&& start_newlines == newlines_before(v, a as int)
                    &&& start_newlines <= a
                    &&& next_start(v, if span.hi > a + 1 { span.hi as int } else { a + 1 })
                        == next_start(v, if span.hi > i { span.hi as int } else { i as int })
                },
            },
        decreases n - i,
    {
        let b = s[i];
        if b < 0x80 || b >= 0xC0 {
            match start {
                None => {
                    if i >= span.lo {
                        start = Some(i);
                        start_newlines = newlines;
                    }
                },
                Some(a) => {
                    if i >= span.hi {
                        assert(next_start(v, i as int) == i);
                        let r = CodeSpan {
                            start: Position { line: start_newlines + 1, char: a },
                            end: Position { line: newlines + 1, char: i },
                        };
                        assert(r.start == position_at(v, a as int));
                        assert(r.end == position_at(v, i as int));
                        assert(code_span(v, span) == Some(r));
                        return Some(r);
                    }
                },
            }
        }
        if b == 10 {
            newlines = newlines + 1;
        }
        i = i + 1;
    }
    None
}

} // verus!
