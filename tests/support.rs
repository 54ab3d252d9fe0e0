use ject::cdn::{cdnjs_script, cdnjs_src};
use ject::deploy::bash_write_file;
use ject::http::Host;
use ject::http_error::{ErrorMime, HttpError};
use ject::key::{Key, KeyLike};
use ject::position::{span_str, Position};
use ject::span::Span;
use ject::ssh::{CheckRun, CheckedSsh, SshAs};
use ject::state::{File, FileKind, Session};

#[test]
fn cdnjs_src_drops_one_leading_slash() {
    assert_eq!(
        cdnjs_src("/react/17.0.2/umd/react.js"),
        "https://cdnjs.cloudflare.com/ajax/libs/react/17.0.2/umd/react.js"
    );
    assert_eq!(
        cdnjs_src("react.js"),
        "https://cdnjs.cloudflare.com/ajax/libs/react.js"
    );
    assert_eq!(cdnjs_src("//x"), "https://cdnjs.cloudflare.com/ajax/libs//x");
    assert_eq!(cdnjs_src(""), "https://cdnjs.cloudflare.com/ajax/libs/");
}

#[test]
fn cdnjs_script_wraps_the_address() {
    assert_eq!(
        cdnjs_script("/a.js"),
        "<script src=\"https://cdnjs.cloudflare.com/ajax/libs/a.js\" crossorigin=\"anonymous\" referrerpolicy=\"no-referrer\"></script>"
    );
}

#[test]
fn default_names_follow_the_kind() {
    assert_eq!(FileKind::JavaScript.to_default_name(), "page.js");
    assert_eq!(FileKind::Css.to_default_name(), "page.css");
    assert_eq!(FileKind::Html.to_default_name(), "page.html");
    assert_eq!(FileKind::Text.to_default_name(), "page.txt");
}

#[test]
fn session_kinds_are_distinct_in_first_order() {
    let session = Session {
        files: vec![
            File::new(FileKind::Css, "a".to_string()),
            File::new(FileKind::JavaScript, "b".to_string()),
            File::new(FileKind::Css, "c".to_string()),
            File::new(FileKind::Html, "d".to_string()),
        ],
    };
    assert_eq!(
        session.file_kinds(),
        vec![FileKind::Css, FileKind::JavaScript, FileKind::Html]
    );
    assert!(Session { files: vec![] }.file_kinds().is_empty());
}

#[test]
fn file_new_keeps_its_fields() {
    let f = File::new(FileKind::Text, "hello".to_string());
    assert_eq!(f.kind, FileKind::Text);
    assert_eq!(f.contents, "hello");
}

#[test]
fn keys_render_to_their_bytes() {
    assert_eq!(Key::SessionCounter.render_key(), b"SessionCounter".to_vec());
    assert_eq!(
        Key::SessionIndex { index: 0x01020304 }.render_key(),
        b"SessionIndex::\x01\x02\x03\x04".to_vec()
    );
    assert_eq!(Key::session("abc").render_key(), b"Session::abc".to_vec());
    assert_eq!(Key::file("abc", "page.js").render_key(), b"File::abc::page.js".to_vec());
    assert_eq!(
        Key::Saved { id: "x9".to_string() }.render_key(),
        b"Saved::x9".to_vec()
    );
    assert_eq!(Key::session("é").render_key(), "Session::é".as_bytes().to_vec());
}

#[test]
fn rendered_key_keeps_its_bytes() {
    let k = Key::file("s", "n");
    assert_eq!(k.render().render_key(), k.render_key());
}

#[test]
fn host_matches_ignoring_port_and_case() {
    let h = Host::new(Some("Example.COM:8080".to_string()), None);
    assert!(h.matches("example.com"));
    assert!(!h.matches("example.org"));
    assert!(!h.matches("example.co"));
    assert_eq!(h.normal(), Some("Example.COM:8080"));
    assert_eq!(h.forwarded(), None);
}

#[test]
fn host_without_header_matches_nothing() {
    let h = Host::new(None, Some("1.2.3.4".to_string()));
    assert!(!h.matches(""));
    assert_eq!(h.forwarded(), Some("1.2.3.4"));
}

#[test]
fn host_without_port_matches_whole() {
    let h = Host::new(Some("a.b".to_string()), None);
    assert!(h.matches("A.B"));
    assert!(!Host::new(Some("".to_string()), None).matches("a"));
    assert!(Host::new(Some(":1".to_string()), None).matches(""));
}

#[test]
fn ssh_names_and_checks() {
    assert_eq!(SshAs::User.name(), "User");
    assert_eq!(SshAs::Root.name(), "Root");
    assert_eq!(
        SshAs::Root.check_command(),
        "echo 'Checking connection for SshAs::Root'"
    );
    let ok = CheckRun {
        succeeded: true,
        command: "ssh ject".to_string(),
        status: "exit status: 0".to_string(),
    };
    let bad = CheckRun {
        succeeded: false,
        command: "\"ssh\" \"ject-root\"".to_string(),
        status: "exit status: 255".to_string(),
    };
    assert_eq!(CheckedSsh::acquire(SshAs::User, &ok).unwrap().ssh_as(), SshAs::User);
    assert_eq!(
        CheckedSsh::root(&bad).unwrap_err(),
        "Command \"ssh\" \"ject-root\" failed with status exit status: 255"
    );
    assert_eq!(CheckedSsh::user(&ok).unwrap().ssh_as(), SshAs::User);
    let both = CheckedSsh::both(&ok, &ok).unwrap();
    assert_eq!(both.user.ssh_as(), SshAs::User);
    assert_eq!(both.root.ssh_as(), SshAs::Root);
    assert!(CheckedSsh::both(&bad, &ok).unwrap_err().starts_with("Command "));
    assert!(CheckedSsh::both(&ok, &bad).unwrap_err().contains("failed with status"));
}

#[test]
fn span_positions_count_lines() {
    let r = span_str("ab\ncd", Span::new(3, 4)).unwrap();
    assert_eq!(r.start, Position { line: 2, char: 3 });
    assert_eq!(r.end, Position { line: 2, char: 4 });
}

#[test]
fn span_positions_skip_inside_characters() {
    let r = span_str("xé y", Span::new(2, 3)).unwrap();
    assert_eq!(r.start, Position { line: 1, char: 3 });
    assert_eq!(r.end, Position { line: 1, char: 4 });
}

#[test]
fn span_reaching_the_end_has_no_position() {
    assert_eq!(span_str("a", Span::new(0, 1)), None);
    assert_eq!(span_str("ab", Span::new(1, 1)), None);
    assert_eq!(span_str("", Span::new(0, 0)), None);
}

#[test]
fn empty_span_ends_at_the_next_character() {
    let r = span_str("a\nbc", Span::new(2, 2)).unwrap();
    assert_eq!(r.start, Position { line: 2, char: 2 });
    assert_eq!(r.end, Position { line: 2, char: 3 });
}

#[test]
fn ssh_args_fall_back_to_the_default_login() {
    assert_eq!(SshAs::User.ssh_args(None), vec!["ject".to_string()]);
    assert_eq!(SshAs::Root.ssh_args(None), vec!["ject-root".to_string()]);
    assert_eq!(SshAs::Root.ssh_args(Some(" \t\n")), vec!["ject-root".to_string()]);
    assert_eq!(SshAs::User.ssh_args(Some("")), vec!["ject".to_string()]);
}

#[test]
fn ssh_args_split_the_configured_login() {
    assert_eq!(
        SshAs::User.ssh_args(Some("  me@host -p 2222\n")),
        vec!["me@host".to_string(), "-p".to_string(), "2222".to_string()]
    );
    assert_eq!(SshAs::User.env_key(), "JECT_SSH_USER");
    assert_eq!(SshAs::Root.env_key(), "JECT_SSH_ROOT");
}

#[test]
fn write_file_command_quotes_each_line() {
    assert_eq!(
        bash_write_file("/etc/x.conf", "a=1\nb=2"),
        "printf \"%s\n%s\" 'a=1' 'b=2'  > /etc/x.conf"
    );
}

#[test]
fn write_file_command_for_one_and_empty_lines() {
    assert_eq!(bash_write_file("f", "only"), "printf \"%s\" 'only'  > f");
    assert_eq!(bash_write_file("f", ""), "printf \"%s\" ''  > f");
    assert_eq!(
        bash_write_file("f", "x\n"),
        "printf \"%s\n%s\" 'x' ''  > f"
    );
}

#[test]
fn missing_session_is_404_only_for_the_page() {
    let e = HttpError::session_not_found(ErrorMime::Html);
    assert_eq!(e.status, 404);
    assert_eq!(e.title, "Unknown session");
    assert_eq!(e.message, "Please try reloading the page");
    assert_eq!(e.code, "inject_session_not_found");
    assert_eq!(e.mime, None);
    assert_eq!(HttpError::session_not_found(ErrorMime::Css).status, 200);
}

#[test]
fn missing_file_names_its_kind() {
    let e = HttpError::file_not_found(ErrorMime::JavaScript);
    assert_eq!(e.title, "No JavaScript file found");
    assert_eq!(e.status, 200);
    assert_eq!(e.code, "inject_missing_file");
    assert_eq!(HttpError::file_not_found(ErrorMime::Html).status, 422);
    assert_eq!(HttpError::file_not_found(ErrorMime::Json).title, "No JSON file found");
    assert_eq!(HttpError::file_not_found(ErrorMime::Css).title, "No CSS file found");
}

#[test]
fn error_messages_carry_the_reason() {
    let e = HttpError::invalid_html("bad");
    assert_eq!(e.message, "Invalid HTML Provided\n\nReason:\nbad");
    assert_eq!(e.status, 422);
    let e = HttpError::generate_html_fail("x");
    assert_eq!(
        e.message,
        "Error encountered in HTML transform/generation.\n\nReason:\nx"
    );
    assert_eq!(e.code, "inject_failed_html_generation");
    let e = HttpError::js_compile_fail("y");
    assert_eq!(e.message, "Reason:\ny");
    assert_eq!(e.status, 200);
    assert_eq!(e.with_mime(ErrorMime::JavaScript).mime, Some(ErrorMime::JavaScript));
}
