//! The host headers of a request and matching them against a domain.

use vstd::prelude::*;

use vstd::string::StrSliceExecFns;

verus! {

/// The host headers of a request.
#[derive(Clone, Debug)]
pub struct Host {
    normal: Option<String>,
    forwarded: Option<String>,
}

/// The characters of an optional string.
pub open spec fn opt_chars(o: Option<String>) -> Option<Seq<char>> {
    match o {
        Some(s) => Some(s@),
        None => None,
    }
}

/// The characters of an optional string slice.
pub open spec fn opt_str_chars(o: Option<&str>) -> Option<Seq<char>> {
    match o {
        Some(s) => Some(s@),
        None => None,
    }
}

/// The code of `c` with an ASCII capital made small; of any other character,
/// its own code.
pub open spec fn ascii_lower(c: char) -> u32 {
    if 'A' <= c <= 'Z' {
        ((c as u32) + 32) as u32
    } else {
        c as u32
    }
}

/// `a` and `b` are equal when ASCII capitals are taken as small letters.
pub open spec fn eq_ignore_ascii_case(a: Seq<char>, b: Seq<char>) -> bool {
    a.len() == b.len() && forall|i: int| 0 <= i < a.len() ==> ascii_lower(#[trigger] a[i])
        == ascii_lower(b[i])
}

/// The part of `s` before its first `:`, or all of it.
pub open spec fn before_colon(s: Seq<char>) -> Seq<char> {
    if exists|i: int| 0 <= i < s.len() && s[i] == ':' {
        let i = choose|i: int|
            0 <= i < s.len() && s[i] == ':' && forall|j: int| 0 <= j < i ==> s[j] != ':';
        s.subrange(0, i)
    } else {
        s
    }
}

/// Whether the host header names `domain`, its port left aside and case aside.
pub open spec fn host_matches(normal: Option<Seq<char>>, domain: Seq<char>) -> bool {
    match normal {
        Some(h) => eq_ignore_ascii_case(before_colon(h), domain),
        None => false,
    }
}

/// The code of `c` with an ASCII capital made small.
fn lower(c: char) -> (r: u32)
    ensures
        r == ascii_lower(c),
{
    if 'A' <= c && c <= 'Z' {
        c as u32 + 32
    } else {
        c as u32
    }
}

impl Host {
    /// The headers `host` and `x-forwarded-for` of a request.
    pub fn new(normal: Option<String>, forwarded: Option<String>) -> (r: Host)
        ensures
            r.normal_spec() == opt_chars(normal),
            r.forwarded_spec() == opt_chars(forwarded),
    {
        Host { normal, forwarded }
    }

    /// The `host` header.
    pub closed spec fn normal_spec(&self) -> Option<Seq<char>> {
        opt_chars(self.normal)
    }

    /// The `x-forwarded-for` header.
    pub closed spec fn forwarded_spec(&self) -> Option<Seq<char>> {
        opt_chars(self.forwarded)
    }

    /// The `host` header.
    pub fn normal(&self) -> (r: Option<&str>)
        ensures
            opt_str_chars(r) == self.normal_spec(),
    {
        match &self.normal {
            Some(s) => Some(s.as_str()),
            None => None,
        }
    }

    /// The `x-forwarded-for` header.
    pub fn forwarded(&self) -> (r: Option<&str>)
        ensures
            opt_str_chars(r) == self.forwarded_spec(),
    {
        match &self.forwarded {
            Some(s) => Some(s.as_str()),
            None => None,
        }
    }

    /// Whether the `host` header, without its port, is `domain` up to ASCII
    /// case.
    pub fn matches(&self, domain: &str) -> (r: bool)
        ensures
            r == host_matches(self.normal_spec(), domain@),
    {
        let h = match self.normal() {
            Some(h) => h,
            None => return false,
        };
        let n = h.unicode_len();
        let mut end: usize = 0;
        while end < n && h.get_char(end) != ':'
            invariant
                end <= n,
                n == h@.len(),
                forall|j: int| 0 <= j < end ==> h@[j] != ':',
            decreases n - end,
        {
            end = end + 1;
        }
        proof {
            if end < n {
                assert(h@[end as int] == ':');
                let i = choose|i: int|
                    0 <= i < h@.len() && h@[i] == ':' && forall|j: int| 0 <= j < i ==> h@[j] != ':';
                assert(i == end) by {
                    if i < end {
                        assert(h@[i] != ':');
                    } else if i > end {
                        assert(h@[end as int] != ':');
                    }
                }
            } else {
                assert(h@.subrange(0, n as int) =~= h@);
            }
            assert(before_colon(h@) == h@.subrange(0, end as int));
        }
        let host = h.substring_char(0, end);
        let m = domain.unicode_len();
        if end != m {
            return false;
        }
        let mut k: usize = 0;
        while k < m
            invariant
                k <= m,
                m == end,
                host@ == before_colon(h@),
                self.normal_spec() == Some(h@),
                host@.len() == m,
                domain@.len() == m,
                forall|i: int| 0 <= i < k ==> ascii_lower(#[trigger] host@[i]) == ascii_lower(domain@[i]),
            decreases m - k,
        {
            if lower(host.get_char(k)) != lower(domain.get_char(k)) {
                assert(ascii_lower(host@[k as int]) != ascii_lower(domain@[k as int]));
                return false;
            }
            k = k + 1;
        }
        true
    }
}

} // verus!
