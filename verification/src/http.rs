//! The enumerated wire tokens of the protocol: request method, protocol
//! version and content type, together with the functions that read them from
//! a token and write them back out.
//!
//! Method and version tokens are matched ASCII-case-insensitively; a token
//! that matches nothing maps to the explicit `UNINITIALIZED` sentinel rather
//! than failing, so that the dispatcher can reject it later with a proper
//! status.

use vstd::prelude::*;

verus! {

/// An HTTP request method, or `UNINITIALIZED` for an unrecognized token.
#[derive(Clone, Copy, PartialEq, Eq, Structural, Debug)]
pub enum HttpMethod {
    GET,
    POST,
    PUT,
    DELETE,
    HEAD,
    CONNECT,
    OPTIONS,
    TRACE,
    PATCH,
    UNINITIALIZED,
}

/// An HTTP protocol version, or `UNINITIALIZED` for an unrecognized token.
#[derive(Clone, Copy, PartialEq, Eq, Structural, Debug)]
pub enum HttpVersion {
    HTTP10,
    HTTP11,
    HTTP20,
    UNINITIALIZED,
}

/// The content types the static-file fallback can label, or `UNINITIALIZED`.
#[derive(Clone, Copy, PartialEq, Eq, Structural, Debug)]
pub enum ContentType {
    HTML,
    CSS,
    JS,
    UNINITIALIZED,
}

/// The scalar value of `c` with ASCII lower-case letters folded to upper case.
pub open spec fn upper32(c: char) -> u32 {
    if 97 <= c as u32 && c as u32 <= 122 {
        ((c as u32) - 32) as u32
    } else {
        c as u32
    }
}

/// ASCII-case-insensitive equality of two character sequences.
pub open spec fn ci_eq(s: Seq<char>, t: Seq<char>) -> bool {
    s.len() == t.len() && forall|i: int|
        0 <= i < s.len() ==> #[trigger] upper32(s[i]) == upper32(t[i])
}

/// The method a first-line token denotes.
pub open spec fn method_of(s: Seq<char>) -> HttpMethod {
    if ci_eq(s, "GET"@) {
        HttpMethod::GET
    } else if ci_eq(s, "POST"@) {
        HttpMethod::POST
    } else if ci_eq(s, "PUT"@) {
        HttpMethod::PUT
    } else if ci_eq(s, "DELETE"@) {
        HttpMethod::DELETE
    } else if ci_eq(s, "HEAD"@) {
        HttpMethod::HEAD
    } else if ci_eq(s, "CONNECT"@) {
        HttpMethod::CONNECT
    } else if ci_eq(s, "OPTIONS"@) {
        HttpMethod::OPTIONS
    } else if ci_eq(s, "TRACE"@) {
        HttpMethod::TRACE
    } else if ci_eq(s, "PATCH"@) {
        HttpMethod::PATCH
    } else {
        HttpMethod::UNINITIALIZED
    }
}

/// The version a first-line token denotes.
pub open spec fn version_of(s: Seq<char>) -> HttpVersion {
    if ci_eq(s, "HTTP/1.0"@) {
        HttpVersion::HTTP10
    } else if ci_eq(s, "HTTP/1.1"@) {
        HttpVersion::HTTP11
    } else if ci_eq(s, "HTTP/2.0"@) {
        HttpVersion::HTTP20
    } else {
        HttpVersion::UNINITIALIZED
    }
}

/// The canonical token a method is written back out as.
pub open spec fn method_str(m: HttpMethod) -> Seq<char> {
    match m {
        HttpMethod::GET => "GET"@,
        HttpMethod::POST => "POST"@,
        HttpMethod::PUT => "PUT"@,
        HttpMethod::DELETE => "DELETE"@,
        HttpMethod::HEAD => "HEAD"@,
        HttpMethod::CONNECT => "CONNECT"@,
        HttpMethod::OPTIONS => "OPTIONS"@,
        HttpMethod::TRACE => "TRACE"@,
        HttpMethod::PATCH => "PATCH"@,
        HttpMethod::UNINITIALIZED => "UNINITIALIZED"@,
    }
}

/// The canonical token a version is written back out as.
pub open spec fn version_str(v: HttpVersion) -> Seq<char> {
    match v {
        HttpVersion::HTTP10 => "HTTP/1.0"@,
        HttpVersion::HTTP11 => "HTTP/1.1"@,
        HttpVersion::HTTP20 => "HTTP/2.0"@,
        HttpVersion::UNINITIALIZED => "UNINITIALIZED"@,
    }
}

/// The header value a content type is written as.
pub open spec fn content_type_str(c: ContentType) -> Seq<char> {
    match c {
        ContentType::HTML => "text/html"@,
        ContentType::CSS => "text/css"@,
        ContentType::JS => "text/javascript"@,
        ContentType::UNINITIALIZED => "UNINITIALIZED"@,
    }
}

/// The scalar value of `c` with an ASCII lower-case letter folded to upper case.
fn char_upper(c: char) -> (u: u32)
    ensures
        u == upper32(c),
{
    let x = c as u32;
    if 97 <= x && x <= 122 {
        x - 32
    } else {
        x
    }
}

/// ASCII-case-insensitive comparison of two strings.
pub fn eq_ignore_ascii_case(s: &str, t: &str) -> (b: bool)
    ensures
        b == ci_eq(s@, t@),
{
    let n = s.unicode_len();
    if n != t.unicode_len() {
        return false;
    }
    let mut i: usize = 0;
    while i < n
        invariant
            i <= n,
            n == s@.len(),
            n == t@.len(),
            forall|j: int| 0 <= j < i ==> #[trigger] upper32(s@[j]) == upper32(t@[j]),
        decreases n - i,
    {
        let a = char_upper(s.get_char(i));
        let b = char_upper(t.get_char(i));
        if a != b {
            return false;
        }
        i += 1;
    }
    true
}

impl HttpMethod {
    /// Reads a method token; unrecognized tokens map to `UNINITIALIZED`.
    pub fn new(s: &str) -> (m: HttpMethod)
        ensures
            m == method_of(s@),
    {
        if eq_ignore_ascii_case(s, "GET") {
            HttpMethod::GET
        } else if eq_ignore_ascii_case(s, "POST") {
            HttpMethod::POST
        } else if eq_ignore_ascii_case(s, "PUT") {
            HttpMethod::PUT
        } else if eq_ignore_ascii_case(s, "DELETE") {
            HttpMethod::DELETE
        } else if eq_ignore_ascii_case(s, "HEAD") {
            HttpMethod::HEAD
        } else if eq_ignore_ascii_case(s, "CONNECT") {
            HttpMethod::CONNECT
        } else if eq_ignore_ascii_case(s, "OPTIONS") {
            HttpMethod::OPTIONS
        } else if eq_ignore_ascii_case(s, "TRACE") {
            HttpMethod::TRACE
        } else if eq_ignore_ascii_case(s, "PATCH") {
            HttpMethod::PATCH
        } else {
            HttpMethod::UNINITIALIZED
        }
    }

    /// The canonical token for this method.
    pub fn to_string(&self) -> (s: String)
        ensures
            s@ == method_str(*self),
    {
        match self {
            HttpMethod::GET => "GET".to_owned(),
            HttpMethod::POST => "POST".to_owned(),
            HttpMethod::PUT => "PUT".to_owned(),
            HttpMethod::DELETE => "DELETE".to_owned(),
            HttpMethod::HEAD => "HEAD".to_owned(),
            HttpMethod::CONNECT => "CONNECT".to_owned(),
            HttpMethod::OPTIONS => "OPTIONS".to_owned(),
            HttpMethod::TRACE => "TRACE".to_owned(),
            HttpMethod::PATCH => "PATCH".to_owned(),
            HttpMethod::UNINITIALIZED => "UNINITIALIZED".to_owned(),
        }
    }
}

impl HttpVersion {
    /// Reads a version token; unrecognized tokens map to `UNINITIALIZED`.
    pub fn new(s: &str) -> (v: HttpVersion)
        ensures
            v == version_of(s@),
    {
        if eq_ignore_ascii_case(s, "HTTP/1.0") {
            HttpVersion::HTTP10
        } else if eq_ignore_ascii_case(s, "HTTP/1.1") {
            HttpVersion::HTTP11
        } else if eq_ignore_ascii_case(s, "HTTP/2.0") {
            HttpVersion::HTTP20
        } else {
            HttpVersion::UNINITIALIZED
        }
    }

    /// The canonical token for this version.
    pub fn to_string(&self) -> (s: String)
        ensures
            s@ == version_str(*self),
    {
        match self {
            HttpVersion::HTTP10 => "HTTP/1.0".to_owned(),
            HttpVersion::HTTP11 => "HTTP/1.1".to_owned(),
            HttpVersion::HTTP20 => "HTTP/2.0".to_owned(),
            HttpVersion::UNINITIALIZED => "UNINITIALIZED".to_owned(),
        }
    }
}

impl ContentType {
    /// The header value for this content type.
    pub fn to_string(&self) -> (s: String)
        ensures
            s@ == content_type_str(*self),
    {
        match self {
            ContentType::HTML => "text/html".to_owned(),
            ContentType::CSS => "text/css".to_owned(),
            ContentType::JS => "text/javascript".to_owned(),
            ContentType::UNINITIALIZED => "UNINITIALIZED".to_owned(),
        }
    }
}

} // verus!
