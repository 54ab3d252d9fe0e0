//! Errors shown in place of a page or one of its resources.

use vstd::prelude::*;

use crate::text::{owned, push_str};

verus! {

/// The kind of resource that an error page stands in for.
#[derive(Clone, Copy, Debug, PartialEq, Eq, Structural)]
pub enum ErrorMime {
    Json,
    Html,
    JavaScript,
    Css,
}

/// An error to show in place of a page or one of its resources.
#[derive(Clone, Debug)]
pub struct HttpError {
    /// A heading for the error.
    pub title: String,
    /// What went wrong.
    pub message: String,
    /// The HTTP status to answer with.
    pub status: u16,
    /// A short name of the error, for code and bug reports.
    pub code: String,
    /// The kind of resource to answer with, once chosen.
    pub mime: Option<ErrorMime>,
}

/// The status for an error on a resource of kind `mime`: `on_page` for the
/// page itself, and 200 for scripts, styles and data, which would otherwise
/// show strangely.
pub open spec fn status_for(mime: ErrorMime, on_page: u16) -> u16 {
    if mime == ErrorMime::Html {
        on_page
    } else {
        200
    }
}

/// `error` after a heading.
pub open spec fn reason(head: Seq<char>, error: Seq<char>) -> Seq<char> {
    head + "Reason:\n"@ + error
}

impl HttpError {
    fn make(title: &str, message: String, code: &str, status: u16) -> (r: HttpError)
        ensures
            r.title@ == title@,
            r.message@ == message@,
            r.code@ == code@,
            r.status == status,
            r.mime is None,
    {
        HttpError { title: owned(title), message, status, code: owned(code), mime: None }
    }

    /// The session is unknown.
    pub fn session_not_found(mime: ErrorMime) -> (r: HttpError)
        ensures
            r.title@ == "Unknown session"@,
            r.message@ == "Please try reloading the page"@,
            r.code@ == "inject_session_not_found"@,
            r.status == status_for(mime, 404),
            r.mime is None,
    {
        let status: u16 = if mime == ErrorMime::Html {
            404
        } else {
            200
        };
        Self::make(
            "Unknown session",
            owned("Please try reloading the page"),
            "inject_session_not_found",
            status,
        )
    }

    /// The session lacks the file of kind `mime`.
    pub fn file_not_found(mime: ErrorMime) -> (r: HttpError)
        ensures
            r.title@ == match mime {
                ErrorMime::Json => "No JSON file found"@,
                ErrorMime::Html => "No HTML file found"@,
                ErrorMime::JavaScript => "No JavaScript file found"@,
                ErrorMime::Css => "No CSS file found"@,
            },
            r.message@ == "The session appears to be missing an essential file"@,
            r.code@ == "inject_missing_file"@,
            r.status == status_for(mime, 422),
            r.mime is None,
    {
        let title = match mime {
            ErrorMime::Json => "No JSON file found",
            ErrorMime::Html => "No HTML file found",
            ErrorMime::JavaScript => "No JavaScript file found",
            ErrorMime::Css => "No CSS file found",
        };
        let status: u16 = if mime == ErrorMime::Html {
            422
        } else {
            200
        };
        Self::make(
            title,
            owned("The session appears to be missing an essential file"),
            "inject_missing_file",
            status,
        )
    }

    /// The session's HTML could not be read; `error` says why.
    pub fn invalid_html(error: &str) -> (r: HttpError)
        ensures
            r.title@ == "Invalid HTML Provided"@,
            r.message@ == reason("Invalid HTML Provided\n\n"@, error@),
            r.code@ == "inject_invalid_html"@,
            r.status == 422,
            r.mime is None,
    {
        let mut message = owned("Invalid HTML Provided\n\n");
        push_str(&mut message, "Reason:\n");
        push_str(&mut message, error);
        Self::make("Invalid HTML Provided", message, "inject_invalid_html", 422)
    }

    /// The page could not be built from the session's HTML; `error` says why.
    pub fn generate_html_fail(error: &str) -> (r: HttpError)
        ensures
            r.title@ == "Unable to Generate HTML"@,
            r.message@ == reason(
                "Error encountered in HTML transform/generation.\n\n"@,
                error@,
            ),
            r.code@ == "inject_failed_html_generation"@,
            r.status == 422,
            r.mime is None,
    {
        let mut message = owned("Error encountered in HTML transform/generation.\n\n");
        push_str(&mut message, "Reason:\n");
        push_str(&mut message, error);
        Self::make("Unable to Generate HTML", message, "inject_failed_html_generation", 422)
    }

    /// The session's script could not be parsed or compiled; `error` says why.
    pub fn js_compile_fail(error: &str) -> (r: HttpError)
        ensures
            r.title@ == "JS Parse/Compile Failed"@,
            r.message@ == reason(Seq::empty(), error@),
            r.code@ == "js_compile_fail"@,
            r.status == 200,
            r.mime is None,
    {
        let mut message = owned("Reason:\n");
        push_str(&mut message, error);
        assert(reason(Seq::empty(), error@) =~= "Reason:\n"@ + error@);
        Self::make("JS Parse/Compile Failed", message, "js_compile_fail", 200)
    }

    /// The same error, to be answered as a resource of kind `mime`.
    pub fn with_mime(self, mime: ErrorMime) -> (r: HttpError)
        ensures
            r.title@ == self.title@,
            r.message@ == self.message@,
            r.code@ == self.code@,
            r.status == self.status,
            r.mime == Some(mime),
    {
        let mut e = self;
        e.mime = Some(mime);
        e
    }
}

} // verus!
