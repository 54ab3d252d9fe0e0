//! Sessions, their files and the requests that carry them.

use vstd::prelude::*;

verus! {

/// The kind of a file in a session.
#[derive(Clone, Copy, Debug, PartialEq, Eq, Structural)]
pub enum FileKind {
    JavaScript,
    Css,
    Html,
    Text,
}

/// The name under which a file of kind `k` is stored.
pub open spec fn default_name(k: FileKind) -> Seq<char> {
    match k {
        FileKind::JavaScript => "page.js"@,
        FileKind::Css => "page.css"@,
        FileKind::Html => "page.html"@,
        FileKind::Text => "page.txt"@,
    }
}

impl FileKind {
    /// The name under which a file of this kind is stored.
    pub fn to_default_name(self) -> (r: &'static str)
        ensures
            r@ == default_name(self),
    {
        match self {
            FileKind::JavaScript => "page.js",
            FileKind::Css => "page.css",
            FileKind::Html => "page.html",
            FileKind::Text => "page.txt",
        }
    }
}

/// What is stored about a session besides its files: the kinds it holds.
#[derive(Clone, Debug)]
pub struct SessionMeta {
    pub file_kinds: Vec<FileKind>,
}

/// One file of a session.
#[derive(Clone, Debug)]
pub struct File {
    pub kind: FileKind,
    pub contents: String,
}

impl File {
    /// A file of kind `kind` holding `contents`.
    pub fn new(kind: FileKind, contents: String) -> (r: File)
        ensures
            r.kind == kind,
            r.contents@ == contents@,
    {
        File { kind, contents }
    }
}

/// The files of a session, in order.
#[derive(Clone, Debug)]
pub struct Session {
    pub files: Vec<File>,
}

/// A request to save a session.
#[derive(Clone, Debug)]
pub struct Save {
    pub session: Session,
}

/// A request to start a session.
#[derive(Clone, Debug)]
pub struct SessionNew {
    pub session: Session,
}

/// A request to store new contents for a session.
#[derive(Clone, Debug)]
pub struct SessionUpdate {
    pub session_id: String,
    pub session: Session,
}

/// The kinds of `files`, each once, in the order in which they first appear.
pub open spec fn distinct_kinds(files: Seq<File>) -> Seq<FileKind>
    decreases files.len(),
{
    if files.len() == 0 {
        Seq::empty()
    } else {
        let before = distinct_kinds(files.drop_last());
        if before.contains(files.last().kind) {
            before
        } else {
            before.push(files.last().kind)
        }
    }
}

impl Session {
    /// The kinds of the session's files, each once, in the order in which they
    /// first appear.
    pub fn file_kinds(&self) -> (r: Vec<FileKind>)
        ensures
            r@ == distinct_kinds(self.files@),
            r@.no_duplicates(),
    {
        let mut kinds: Vec<FileKind> = Vec::new();
        let mut i: usize = 0;
        assert(self.files@.subrange(0, 0) =~= Seq::<File>::empty());
        while i < self.files.len()
            invariant
                i <= self.files@.len(),
                kinds@ == distinct_kinds(self.files@.subrange(0, i as int)),
                kinds@.no_duplicates(),
            decreases self.files@.len() - i,
        {
            let k = self.files[i].kind;
            let mut seen = false;
            let mut j: usize = 0;
            while j < kinds.len()
                invariant
                    j <= kinds@.len(),
                    seen <==> exists|m: int| 0 <= m < j && kinds@[m] == k,
                decreases kinds@.len() - j,
            {
                if kinds[j] == k {
                    seen = true;
                }
                j = j + 1;
            }
            proof {
                let t = self.files@.subrange(0, i + 1);
                assert(t.drop_last() =~= self.files@.subrange(0, i as int));
                assert(t.last().kind == k);
                if seen {
                    let m = choose|m: int| 0 <= m < j && kinds@[m] == k;
                    assert(kinds@.contains(k));
                } else {
                    assert(!kinds@.contains(k));
                }
            }
            if !seen {
                kinds.push(k);
            }
            i = i + 1;
        }
        assert(self.files@.subrange(0, i as int) =~= self.files@);
        kinds
    }
}

} // verus!
