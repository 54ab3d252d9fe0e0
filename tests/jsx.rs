use ject::jsx::{braced_span, Attr, AttrValue, Element, ElementName};
use ject::op::{sort_ops, Op};
use ject::patch::{apply_ops, PatchError};
use ject::rewrite::{collect, rewrite, RewriteError};
use ject::span::Span;

fn sp(lo: usize, hi: usize) -> Span {
    Span::new(lo, hi)
}

fn ident(lo: usize, hi: usize, first: char) -> ElementName {
    ElementName::Ident {
        span: sp(lo, hi),
        first: Some(first),
    }
}

fn self_closing(opening: Span, name: ElementName, attrs: Vec<Attr>) -> Element {
    Element {
        opening,
        name,
        attrs,
        self_closing: true,
        closing: None,
    }
}

fn run(src: &str, els: Vec<Element>) -> String {
    let out = rewrite(src.as_bytes(), &els).unwrap();
    String::from_utf8(out).unwrap()
}

#[test]
fn simple_jsx() {
    let code = r#"const el = <aaaa />;"#;
    let els = vec![self_closing(sp(11, 19), ident(12, 16, 'a'), vec![])];
    assert_eq!(run(code, els), r#"const el = React.createElement("aaaa", {});"#);
}

#[test]
fn nested_jsx_in_prop() {
    let code = r#"const el = <aaaa bbbb={<cccc />} />;"#;
    let outer = self_closing(
        sp(11, 35),
        ident(12, 16, 'a'),
        vec![Attr::Named {
            name: sp(17, 21),
            value: AttrValue::Container {
                span: sp(22, 32),
                expr: sp(23, 31),
            },
        }],
    );
    let inner = self_closing(sp(23, 31), ident(24, 28, 'c'), vec![]);
    assert_eq!(
        run(code, vec![outer, inner]),
        r#"const el = React.createElement("aaaa", { "bbbb": React.createElement("cccc", {}), });"#
    );
}

fn depth_two() -> Vec<Element> {
    let outer = self_closing(
        sp(11, 51),
        ident(12, 16, 'a'),
        vec![Attr::Named {
            name: sp(17, 21),
            value: AttrValue::Container {
                span: sp(22, 48),
                expr: sp(23, 47),
            },
        }],
    );
    let middle = self_closing(
        sp(23, 47),
        ident(24, 28, 'c'),
        vec![Attr::Named {
            name: sp(29, 33),
            value: AttrValue::Container {
                span: sp(34, 44),
                expr: sp(35, 43),
            },
        }],
    );
    let inner = self_closing(sp(35, 43), ident(36, 40, 'e'), vec![]);
    vec![outer, middle, inner]
}

#[test]
fn nested_jsx_in_prop_2() {
    let code = r#"const el = <aaaa bbbb={<cccc dddd={<eeee />} />} />;"#;
    assert_eq!(
        run(code, depth_two()),
        r#"const el = React.createElement("aaaa", { "bbbb": React.createElement("cccc", { "dddd": React.createElement("eeee", {}), }), });"#
    );
}

#[test]
fn nesting_resolves_whatever_the_element_order() {
    let code = r#"const el = <aaaa bbbb={<cccc dddd={<eeee />} />} />;"#;
    let mut els = depth_two();
    els.reverse();
    assert_eq!(
        run(code, els),
        r#"const el = React.createElement("aaaa", { "bbbb": React.createElement("cccc", { "dddd": React.createElement("eeee", {}), }), });"#
    );
}

#[test]
fn text_without_markup_is_unchanged() {
    let code = "let a = 1 < 2 && 3 > 2; // <b>\n";
    assert_eq!(run(code, vec![]), code);
    assert!(collect(code.as_bytes(), &vec![]).is_empty());
}

#[test]
fn empty_source_is_unchanged() {
    assert_eq!(run("", vec![]), "");
}

#[test]
fn container_attribute_collapses_to_expression() {
    let code = "<a b={x + 1} />";
    let el = self_closing(
        sp(0, 15),
        ident(1, 2, 'a'),
        vec![Attr::Named {
            name: sp(3, 4),
            value: AttrValue::Container {
                span: sp(5, 12),
                expr: sp(6, 11),
            },
        }],
    );
    assert_eq!(run(code, vec![el]), r#"React.createElement("a", { "b": x + 1, })"#);
}

#[test]
fn literal_attribute_keeps_its_quotes() {
    let code = r#"<a href="x.html" />"#;
    let el = self_closing(
        sp(0, 19),
        ident(1, 2, 'a'),
        vec![Attr::Named {
            name: sp(3, 7),
            value: AttrValue::Lit { span: sp(8, 16) },
        }],
    );
    assert_eq!(run(code, vec![el]), r#"React.createElement("a", { "href": "x.html", })"#);
}

#[test]
fn attribute_without_value_is_true() {
    let code = "<input disabled />";
    let el = self_closing(
        sp(0, 18),
        ident(1, 6, 'i'),
        vec![Attr::Named {
            name: sp(7, 15),
            value: AttrValue::Absent,
        }],
    );
    assert_eq!(run(code, vec![el]), r#"React.createElement("input", { "disabled": true, })"#);
}

#[test]
fn spread_attribute_is_spread() {
    let code = "const x = <a {...props} />;";
    let el = self_closing(
        sp(10, 26),
        ident(11, 12, 'a'),
        vec![Attr::Spread {
            span: sp(13, 23),
            expr: sp(17, 22),
        }],
    );
    assert_eq!(run(code, vec![el]), r#"const x = React.createElement("a", { ...(props), });"#);
}

#[test]
fn two_attributes_are_separated() {
    let code = r#"<a b="1" c={2} />"#;
    let el = self_closing(
        sp(0, 17),
        ident(1, 2, 'a'),
        vec![
            Attr::Named {
                name: sp(3, 4),
                value: AttrValue::Lit { span: sp(5, 8) },
            },
            Attr::Named {
                name: sp(9, 10),
                value: AttrValue::Container {
                    span: sp(11, 14),
                    expr: sp(12, 13),
                },
            },
        ],
    );
    assert_eq!(run(code, vec![el]), r#"React.createElement("a", { "b": "1", "c": 2, })"#);
}

#[test]
fn component_name_is_an_identifier() {
    let code = "<App />";
    let el = self_closing(sp(0, 7), ident(1, 4, 'A'), vec![]);
    assert_eq!(run(code, vec![el]), "React.createElement(App, {})");
}

#[test]
fn member_name_is_an_expression() {
    let code = "<ui.Button />";
    let el = self_closing(sp(0, 13), ElementName::Member { span: sp(1, 10) }, vec![]);
    assert_eq!(run(code, vec![el]), "React.createElement(ui.Button, {})");
}

#[test]
fn empty_identifier_is_native() {
    let code = "<x />";
    let name = ElementName::Ident {
        span: sp(1, 2),
        first: None,
    };
    let el = self_closing(sp(0, 5), name, vec![]);
    assert_eq!(run(code, vec![el]), r#"React.createElement("x", {})"#);
}

#[test]
fn element_with_children_closes_the_call() {
    let code = "<div><br /></div>";
    let div = Element {
        opening: sp(0, 5),
        name: ident(1, 4, 'd'),
        attrs: vec![],
        self_closing: false,
        closing: Some(sp(11, 17)),
    };
    let br = self_closing(sp(5, 11), ident(6, 8, 'b'), vec![]);
    assert_eq!(
        run(code, vec![div, br]),
        r#"React.createElement("div", {}, React.createElement("br", {}))"#
    );
}

#[test]
fn name_outside_source_is_rejected() {
    let code = "<a />";
    let el = self_closing(sp(0, 5), ident(1, 9, 'a'), vec![]);
    assert_eq!(rewrite(code.as_bytes(), &vec![el]), Err(RewriteError::NameOutOfBounds));
}

#[test]
fn attribute_name_outside_source_is_rejected() {
    let code = "<a />";
    let el = self_closing(
        sp(0, 5),
        ident(1, 2, 'a'),
        vec![Attr::Named {
            name: sp(3, 40),
            value: AttrValue::Absent,
        }],
    );
    assert_eq!(rewrite(code.as_bytes(), &vec![el]), Err(RewriteError::NameOutOfBounds));
}

#[test]
fn opening_past_the_end_is_rejected() {
    let code = "<a />";
    let el = self_closing(sp(0, 50), ident(1, 2, 'a'), vec![]);
    assert_eq!(rewrite(code.as_bytes(), &vec![el]), Err(RewriteError::BadSpans));
}

fn text(s: &str) -> Vec<u8> {
    s.as_bytes().to_vec()
}

#[test]
fn overlapping_spans_are_rejected() {
    let ops = vec![
        Op::replace(sp(0, 3), text("x")),
        Op::replace(sp(2, 5), text("y")),
    ];
    assert_eq!(apply_ops(b"abcdef", ops), Err(PatchError::BadSpans));
}

#[test]
fn reversed_span_is_rejected() {
    let ops = vec![Op::remove(sp(4, 2))];
    assert_eq!(apply_ops(b"abcdef", ops), Err(PatchError::BadSpans));
}

#[test]
fn collapse_outside_source_is_rejected() {
    let ops = vec![Op::collapse(sp(0, 2), sp(1, 9))];
    assert_eq!(apply_ops(b"abcdef", ops), Err(PatchError::BadSpans));
}

#[test]
fn whole_span_replace_leaves_only_its_text() {
    let ops = vec![Op::replace(sp(0, 6), text("XY"))];
    assert_eq!(apply_ops(b"abcdef", ops).unwrap(), text("XY"));
}

#[test]
fn whole_span_remove_leaves_nothing() {
    let ops = vec![Op::remove(sp(0, 6))];
    assert_eq!(apply_ops(b"abcdef", ops).unwrap(), text(""));
}

#[test]
fn whole_span_collapse_leaves_only_the_inner_text() {
    let ops = vec![Op::collapse(sp(0, 6), sp(2, 4))];
    assert_eq!(apply_ops(b"abcdef", ops).unwrap(), text("cd"));
}

#[test]
fn swapping_insertion_order_keeps_the_output() {
    let a = || Op::replace(sp(1, 2), text("B"));
    let b = || Op::remove(sp(4, 5));
    let one = apply_ops(b"abcdef", vec![a(), b()]).unwrap();
    let two = apply_ops(b"abcdef", vec![b(), a()]).unwrap();
    assert_eq!(one, text("aBcdf"));
    assert_eq!(one, two);
}

#[test]
fn equal_spans_keep_their_order() {
    let ops = vec![
        Op::replace(sp(2, 2), text("1")),
        Op::replace(sp(2, 2), text("2")),
    ];
    assert_eq!(apply_ops(b"abcd", ops).unwrap(), text("ab12cd"));
}

#[test]
fn collapse_rewrites_what_it_holds() {
    let ops = vec![
        Op::collapse(sp(0, 8), sp(1, 7)),
        Op::replace(sp(3, 5), text("XX")),
    ];
    assert_eq!(apply_ops(b"(abcdef)", ops).unwrap(), text("abXXef"));
}

#[test]
fn replace_drops_what_it_holds() {
    let ops = vec![
        Op::replace(sp(1, 6), text("-")),
        Op::replace(sp(2, 3), text("never")),
    ];
    assert_eq!(apply_ops(b"abcdefg", ops).unwrap(), text("a-g"));
}

#[test]
fn operation_beside_the_inner_span_is_dropped() {
    let ops = vec![Op::collapse(sp(0, 2), sp(0, 1)), Op::remove(sp(1, 2))];
    assert_eq!(apply_ops(b"AB", ops).unwrap(), text("A"));
    let ops = vec![
        Op::collapse(sp(0, 5), sp(2, 3)),
        Op::replace(sp(0, 1), text("x")),
        Op::replace(sp(2, 3), text("Y")),
        Op::replace(sp(4, 5), text("z")),
    ];
    assert_eq!(apply_ops(b"abcde", ops).unwrap(), text("Y"));
}

#[test]
fn inner_span_outside_its_operation_is_replayed() {
    let ops = vec![Op::collapse(sp(1, 1), sp(0, 1))];
    assert_eq!(apply_ops(b"A", ops).unwrap(), text("AA"));
    let ops = vec![Op::collapse(sp(0, 1), sp(5, 6))];
    assert_eq!(apply_ops(b"0123456789", ops).unwrap(), text("5123456789"));
}

#[test]
fn operation_crossing_the_inner_span_is_dropped() {
    let ops = vec![Op::collapse(sp(0, 6), sp(1, 4)), Op::remove(sp(3, 5))];
    assert_eq!(apply_ops(b"abcdef", ops).unwrap(), text("bcd"));
}

#[test]
fn sort_orders_by_start_then_end() {
    let sorted = sort_ops(vec![Op::remove(sp(0, 2)), Op::remove(sp(0, 1))]);
    assert_eq!(sorted[0].span, sp(0, 1));
    assert_eq!(sorted[1].span, sp(0, 2));
}

#[test]
fn longer_span_at_one_start_holds_the_shorter() {
    let ops = vec![Op::replace(sp(0, 1), text("x")), Op::replace(sp(0, 2), text("Y"))];
    assert_eq!(apply_ops(b"abc", ops).unwrap(), text("Yc"));
}

#[test]
fn swapping_distant_operations_keeps_the_output() {
    let a = || Op::replace(sp(0, 1), text("A"));
    let m = || Op::replace(sp(2, 2), text("-"));
    let b = || Op::remove(sp(4, 5));
    let one = apply_ops(b"abcdef", vec![a(), m(), b()]).unwrap();
    let two = apply_ops(b"abcdef", vec![b(), m(), a()]).unwrap();
    assert_eq!(one, text("Ab-cdf"));
    assert_eq!(one, two);
}

#[test]
fn spread_span_takes_in_the_braces() {
    let code = "<a { ...x } />";
    assert_eq!(braced_span(code.as_bytes(), sp(5, 9)), sp(3, 11));
    assert_eq!(braced_span(b"...x", sp(0, 4)), sp(0, 4));
    assert_eq!(braced_span(b"ab", sp(1, 7)), sp(1, 7));
}

#[test]
fn element_attribute_value_is_rewritten_in_place() {
    let code = "<a b=<c /> />";
    let outer = self_closing(
        sp(0, 13),
        ident(1, 2, 'a'),
        vec![Attr::Named {
            name: sp(3, 4),
            value: AttrValue::Element { span: sp(5, 10) },
        }],
    );
    let inner = self_closing(sp(5, 10), ident(6, 7, 'c'), vec![]);
    assert_eq!(
        run(code, vec![outer, inner]),
        r#"React.createElement("a", { "b": React.createElement("c", {}), })"#
    );
}
