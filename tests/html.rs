use ject::html::{parse_html, HtmlError, HtmlPart};
use ject::page::{render_page, DirectiveError};

fn lit(s: &str) -> HtmlPart {
    HtmlPart::Literal(s.to_string())
}

fn path(p: &[&str]) -> HtmlPart {
    HtmlPart::IncludePath(p.iter().map(|s| s.to_string()).collect())
}

#[test]
fn template_without_directives_is_one_literal() {
    assert_eq!(parse_html("<p>hi</p>").unwrap(), vec![lit("<p>hi</p>")]);
    assert_eq!(parse_html("").unwrap(), vec![lit("")]);
}

#[test]
fn directive_splits_the_template() {
    assert_eq!(
        parse_html("<head>inject!(session.js)</head>").unwrap(),
        vec![lit("<head>"), path(&["session", "js"]), lit("</head>")]
    );
}

#[test]
fn directive_pieces_are_trimmed() {
    assert_eq!(
        parse_html("inject!(  a . b\t)").unwrap(),
        vec![lit(""), path(&["a", "b"]), lit("")]
    );
}

#[test]
fn two_directives_in_a_row() {
    assert_eq!(
        parse_html("inject!(a)inject!(b.c)\n").unwrap(),
        vec![lit(""), path(&["a"]), lit(""), path(&["b", "c"]), lit("\n")]
    );
}

#[test]
fn closing_on_a_later_line_is_refused() {
    assert_eq!(parse_html("x inject!(a\n) y").unwrap_err(), HtmlError::NotClosedOnLine);
}

#[test]
fn unclosed_directive_is_refused() {
    assert_eq!(parse_html("inject!(a").unwrap_err(), HtmlError::NotClosed);
    assert_eq!(parse_html("inject!(a\nb").unwrap_err(), HtmlError::NotClosed);
}

#[test]
fn error_messages_name_the_rule() {
    assert_eq!(
        HtmlError::NotClosedOnLine.message(),
        "inject! calls must be closed on the same line"
    );
    assert_eq!(
        HtmlError::NotClosed.message(),
        "inject! calls must be closed (on the same line)"
    );
}

#[test]
fn non_ascii_text_is_kept() {
    assert_eq!(
        parse_html("é inject!( ü ) ß").unwrap(),
        vec![lit("é "), path(&["ü"]), lit(" ß")]
    );
}

#[test]
fn unicode_white_space_is_trimmed() {
    assert_eq!(
        parse_html("inject!(\u{3000}a\u{a0})").unwrap(),
        vec![lit(""), path(&["a"]), lit("")]
    );
}

fn page(template: &str) -> Result<String, DirectiveError> {
    render_page("s1", &parse_html(template).unwrap())
}

#[test]
fn page_copies_text_and_expands_urls() {
    assert_eq!(
        page("<script src=\"inject!(editors.js)\"></script>").unwrap(),
        "<script src=\"/api/session/s1/page.js\"></script>"
    );
    assert_eq!(page("inject!(editors.js.raw.url)").unwrap(), "/api/session/s1/page.js.raw");
    assert_eq!(page("inject!(editors.css.url.raw)").unwrap(), "/api/session/s1/page.css");
    assert_eq!(page("inject!(editors.css.raw)").unwrap(), "/api/session/s1/page.css");
    assert_eq!(page("no directive").unwrap(), "no directive");
}

#[test]
fn page_expands_scripts() {
    assert_eq!(
        page("inject!(console)").unwrap(),
        "<script src=\"/dist/console.bundle.js\"></script>"
    );
    assert_eq!(
        page("inject!(deps.jquery)").unwrap(),
        "<script src=\"https://cdnjs.cloudflare.com/ajax/libs/jquery/3.6.0/jquery.min.js\" crossorigin=\"anonymous\" referrerpolicy=\"no-referrer\"></script>"
    );
    let react = page("inject!(deps.react)").unwrap();
    assert!(react.starts_with(
        "<script src=\"https://cdnjs.cloudflare.com/ajax/libs/react/17.0.2/umd/react.development.min.js\""
    ));
    assert!(react.ends_with("react-dom.development.min.js\" crossorigin=\"anonymous\" referrerpolicy=\"no-referrer\"></script>"));
}

#[test]
fn page_refuses_unknown_directives() {
    let e = page("a inject!(editors.html) b").unwrap_err();
    assert_eq!(e, DirectiveError::UnknownEditor("html".to_string()));
    assert_eq!(e.message(), "Unexpected second segment in inject(urls.html)");
    let e = page("inject!(styles.x)").unwrap_err();
    assert_eq!(e, DirectiveError::UnknownCommand("styles".to_string()));
    assert_eq!(e.message(), "Unexpected command: inject!(styles, …)");
    let empty = render_page("s", &vec![HtmlPart::IncludePath(vec![])]).unwrap_err();
    assert_eq!(empty, DirectiveError::Empty);
    assert_eq!(empty.message(), "Unexpected empty inject!()");
}

#[test]
fn page_stops_at_the_first_bad_directive() {
    let e = page("inject!(x)inject!(editors.y)").unwrap_err();
    assert_eq!(e, DirectiveError::UnknownCommand("x".to_string()));
}

#[test]
fn spaced_directive_keeps_its_words() {
    assert_eq!(
        parse_html("a inject!( x . y ) b").unwrap(),
        vec![lit("a "), path(&["x", "y"]), lit(" b")]
    );
}
