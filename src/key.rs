//! Keys of the session store and their byte form.

use vstd::prelude::*;

use crate::patch::push_all;
use vstd::string::StringSliceAdditionalSpecFns;
use vstd::utf8::encode_utf8;

verus! {

/// A key of the session store.
#[derive(Clone, Debug)]
pub enum Key {
    /// The single cursor into the ring of current sessions.
    SessionCounter,
    /// A slot in the ring of current sessions; its value is a session id.
    SessionIndex { index: u32 },
    /// A session with all its data.
    Session { session_id: String },
    /// A file of a session or of a saved snapshot.
    File { session_or_saved_id: String, name: String },
    /// A saved snapshot of a session.
    Saved { id: String },
}

/// The four bytes of `n`, most significant first.
pub open spec fn be_bytes(n: u32) -> Seq<u8> {
    seq![
        (n / 0x1000000) as u8,
        ((n / 0x10000) % 0x100) as u8,
        ((n / 0x100) % 0x100) as u8,
        (n % 0x100) as u8,
    ]
}

/// The bytes under which `k` is stored.
pub open spec fn key_bytes(k: Key) -> Seq<u8> {
    match k {
        Key::SessionCounter => "SessionCounter".spec_bytes(),
        Key::SessionIndex { index } => "SessionIndex::".spec_bytes() + be_bytes(index),
        Key::Session { session_id } => "Session::".spec_bytes() + encode_utf8(session_id@),
        Key::File { session_or_saved_id, name } => "File::".spec_bytes() + encode_utf8(
            session_or_saved_id@,
        ) + "::".spec_bytes() + encode_utf8(name@),
        Key::Saved { id } => "Saved::".spec_bytes() + encode_utf8(id@),
    }
}

/// A value that can be stored under a key.
pub trait KeyLike {
    /// The bytes of the key.
    spec fn key_spec(&self) -> Seq<u8>;

    /// The bytes of the key.
    fn render_key(&self) -> (r: Vec<u8>)
        ensures
            r@ == self.key_spec(),
    ;
}

/// A key already turned into its bytes.
#[derive(Clone, Debug)]
pub struct KeyRendered {
    json: Vec<u8>,
}

impl KeyRendered {
    /// The stored bytes.
    pub closed spec fn bytes(&self) -> Seq<u8> {
        self.json@
    }
}

/// Appends the bytes of `s` to `out`.
fn push_string(out: &mut Vec<u8>, s: &String)
    ensures
        final(out)@ == old(out)@ + encode_utf8(s@),
{
    push_all(out, s.as_str().as_bytes());
}

impl Key {
    /// The key of the session `session_id`.
    pub fn session(session_id: &str) -> (r: Key)
        ensures
            r matches Key::Session { session_id: s } && s@ == session_id@,
    {
        Key::Session { session_id: session_id.to_owned() }
    }

    /// The key of the file `name` of the session or snapshot `id`.
    pub fn file(id: &str, name: &str) -> (r: Key)
        ensures
            r matches Key::File { session_or_saved_id: s, name: n } && s@ == id@ && n@ == name@,
    {
        Key::File { session_or_saved_id: id.to_owned(), name: name.to_owned() }
    }

    /// The key with its bytes computed once.
    pub fn render(&self) -> (r: KeyRendered)
        ensures
            r.bytes() == key_bytes(*self),
    {
        KeyRendered { json: self.render_key() }
    }
}

impl KeyLike for Key {
    open spec fn key_spec(&self) -> Seq<u8> {
        key_bytes(*self)
    }

    fn render_key(&self) -> (r: Vec<u8>) {
        let mut out: Vec<u8> = Vec::new();
        match self {
            Key::SessionCounter => {
                push_all(&mut out, "SessionCounter".as_bytes());
            },
            Key::SessionIndex { index } => {
                push_all(&mut out, "SessionIndex::".as_bytes());
                let n = *index;
                out.push((n / 0x1000000) as u8);
                out.push(((n / 0x10000) % 0x100) as u8);
                out.push(((n / 0x100) % 0x100) as u8);
                out.push((n % 0x100) as u8);
            },
            Key::Session { session_id } => {
                push_all(&mut out, "Session::".as_bytes());
                push_string(&mut out, session_id);
            },
            Key::File { session_or_saved_id, name } => {
                push_all(&mut out, "File::".as_bytes());
                push_string(&mut out, session_or_saved_id);
                push_all(&mut out, "::".as_bytes());
                push_string(&mut out, name);
            },
            Key::Saved { id } => {
                push_all(&mut out, "Saved::".as_bytes());
                push_string(&mut out, id);
            },
        }
        assert(out@ =~= key_bytes(*self));
        out
    }
}

impl KeyLike for KeyRendered {
    open spec fn key_spec(&self) -> Seq<u8> {
        self.bytes()
    }

    fn render_key(&self) -> (r: Vec<u8>) {
        let mut out: Vec<u8> = Vec::new();
        push_all(&mut out, self.json.as_slice());
        out
    }
}

} // verus!
