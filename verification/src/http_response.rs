//! The outbound half of the protocol codec: one response value and its
//! serialization to wire bytes.
//!
//! The wire form is the status line, then the header lines — or the single
//! default `Content-Type: text/html` line when no header was set — then a
//! blank line, then the body if there is one.  No Content-Length is computed
//! and nothing is chunked: the connection closes after one response.

use vstd::prelude::*;

use crate::http::version_str;
use crate::http::HttpVersion;
use crate::text::dec_str;
use crate::text::decimal_string;

verus! {

/// The mathematical value of a response.
#[verifier::ext_equal]
pub ghost struct RespModel {
    pub version: HttpVersion,
    pub status_code: Seq<char>,
    pub status_text: Seq<char>,
    pub headers: Seq<(Seq<char>, Seq<char>)>,
    pub body: Option<Seq<char>>,
}

/// The status line: version, code and reason, CRLF-terminated.
pub open spec fn status_line(m: RespModel) -> Seq<char> {
    version_str(m.version) + " "@ + m.status_code + " "@ + m.status_text + "\r\n"@
}

/// The header lines, one `key: value` line per pair, in order.
pub open spec fn header_block(hs: Seq<(Seq<char>, Seq<char>)>) -> Seq<char>
    decreases hs.len(),
{
    if hs.len() == 0 {
        Seq::<char>::empty()
    } else {
        hs[0].0 + ": "@ + hs[0].1 + "\r\n"@ + header_block(hs.drop_first())
    }
}

/// One more header pair appends one more line.
pub proof fn lemma_header_block_snoc(hs: Seq<(Seq<char>, Seq<char>)>, p: (Seq<char>, Seq<char>))
    ensures
        header_block(hs.push(p)) == header_block(hs) + p.0 + ": "@ + p.1 + "\r\n"@,
    decreases hs.len(),
{
    let q = hs.push(p);
    if hs.len() == 0 {
        assert(q[0] == p);
        assert(q.drop_first() =~= Seq::<(Seq<char>, Seq<char>)>::empty());
        assert(header_block(q.drop_first()) == Seq::<char>::empty());
        assert(header_block(q) =~= header_block(hs) + p.0 + ": "@ + p.1 + "\r\n"@);
    } else {
        lemma_header_block_snoc(hs.drop_first(), p);
        assert(q[0] == hs[0]);
        assert(q.drop_first() =~= hs.drop_first().push(p));
        assert(header_block(q) =~= header_block(hs) + p.0 + ": "@ + p.1 + "\r\n"@);
    }
}

/// The whole wire text of a response: status line, header block (with the
/// default `Content-Type` line when no header is set), blank line, body.
pub open spec fn encode_spec(m: RespModel) -> Seq<char> {
    status_line(m) + (if m.headers.len() == 0 {
        "Content-Type: text/html\r\n"@
    } else {
        header_block(m.headers)
    }) + "\r\n"@ + (match m.body {
        Some(b) => b,
        None => Seq::<char>::empty(),
    })
}

/// The reason phrase of a canned status response.
pub open spec fn reason_of(code: int) -> Seq<char> {
    if code == 403 {
        "Forbidden"@
    } else if code == 404 {
        "Not Found"@
    } else {
        "Unknown"@
    }
}

/// The canned response for a status code: protocol 1.1, no headers, and as
/// body whatever status page the caller could load, if any.
pub open spec fn status_response(code: int, page: Option<Seq<char>>) -> RespModel {
    RespModel {
        version: HttpVersion::HTTP11,
        status_code: dec_str(code),
        status_text: reason_of(code),
        headers: Seq::<(Seq<char>, Seq<char>)>::empty(),
        body: page,
    }
}

/// The successful response that serves a file: the given protocol version,
/// status `200 OK`, one `Content-Type` header and the file text as body.
pub open spec fn content_response(
    version: HttpVersion,
    content_type: Seq<char>,
    body: Seq<char>,
) -> RespModel {
    RespModel {
        version,
        status_code: "200"@,
        status_text: "OK"@,
        headers: seq![("Content-Type"@, content_type)],
        body: Some(body),
    }
}

/// One response, constructed per request and consumed by the byte encoder.
#[derive(Debug)]
pub struct HttpResponse {
    pub version: HttpVersion,
    pub status_code: String,
    pub status_text: String,
    pub headers: Vec<(String, String)>,
    pub body: Option<String>,
}

impl View for HttpResponse {
    type V = RespModel;

    open spec fn view(&self) -> RespModel {
        RespModel {
            version: self.version,
            status_code: self.status_code@,
            status_text: self.status_text@,
            headers: crate::http_request::pair_views(self.headers@),
            body: match self.body {
                Some(ref b) => Some(b@),
                None => None,
            },
        }
    }
}

impl Default for HttpResponse {
    /// The response with nothing set yet.
    fn default() -> (r: HttpResponse)
        ensures
            r@.version == HttpVersion::UNINITIALIZED,
            r@.status_code == Seq::<char>::empty(),
            r@.status_text == Seq::<char>::empty(),
            r@.headers == Seq::<(Seq<char>, Seq<char>)>::empty(),
            r@.body is None,
    {
        let r = HttpResponse {
            version: HttpVersion::UNINITIALIZED,
            status_code: String::new(),
            status_text: String::new(),
            headers: Vec::new(),
            body: None,
        };
        proof {
            assert(crate::http_request::pair_views(r.headers@) =~= Seq::<
                (Seq<char>, Seq<char>),
            >::empty());
        }
        r
    }
}

impl HttpResponse {
    /// The canned response for a status code; the caller passes the text of
    /// the status page it could load, or `None` for an empty body.
    pub fn from_status(status_code: u16, page: Option<String>) -> (r: HttpResponse)
        ensures
            r@ =~= status_response(
                status_code as int,
                match page {
                    Some(p) => Some(p@),
                    None => None,
                },
            ),
    {
        let status_text = if status_code == 403 {
            "Forbidden".to_owned()
        } else if status_code == 404 {
            "Not Found".to_owned()
        } else {
            "Unknown".to_owned()
        };
        let r = HttpResponse {
            version: HttpVersion::HTTP11,
            status_code: decimal_string(status_code),
            status_text,
            headers: Vec::new(),
            body: page,
        };
        proof {
            assert(crate::http_request::pair_views(r.headers@) =~= Seq::<
                (Seq<char>, Seq<char>),
            >::empty());
        }
        r
    }

    /// The response that serves found file text under the given protocol
    /// version and content-type label, status `200 OK`.
    pub fn with_content(version: HttpVersion, content_type: String, contents: String) -> (r:
        HttpResponse)
        ensures
            r@ =~= content_response(version, content_type@, contents@),
    {
        let mut headers: Vec<(String, String)> = Vec::new();
        headers.push(("Content-Type".to_owned(), content_type));
        let r = HttpResponse {
            version,
            status_code: "200".to_owned(),
            status_text: "OK".to_owned(),
            headers,
            body: Some(contents),
        };
        proof {
            assert(crate::http_request::pair_views(r.headers@) =~= r@.headers);
        }
        r
    }

    /// The wire bytes of this response: the UTF-8 encoding of the text that
    /// `encode_spec` describes.
    #[verifier::loop_isolation(false)]
    pub fn as_bytes(&self) -> (r: Vec<u8>)
        ensures
            r@ == vstd::utf8::encode_utf8(encode_spec(self@)),
    {
        let mut out = String::new();
        let version = self.version.to_string();
        out.append(version.as_str());
        out.append(" ");
        out.append(self.status_code.as_str());
        out.append(" ");
        out.append(self.status_text.as_str());
        out.append("\r\n");
        proof {
            assert(out@ == status_line(self@));
        }
        if self.headers.len() > 0 {
            let mut i: usize = 0;
            proof {
                assert(self@.headers.take(0) =~= Seq::<(Seq<char>, Seq<char>)>::empty());
            }
            while i < self.headers.len()
                invariant
                    i <= self.headers@.len(),
                    out@ == status_line(self@) + header_block(self@.headers.take(i as int)),
                decreases self.headers@.len() - i,
            {
                proof {
                    assert(self@.headers[i as int] == (
                        self.headers@[i as int].0@,
                        self.headers@[i as int].1@,
                    ));
                }
                out.append(self.headers[i].0.as_str());
                out.append(": ");
                out.append(self.headers[i].1.as_str());
                out.append("\r\n");
                proof {
                    lemma_header_block_snoc(self@.headers.take(i as int), self@.headers[i as int]);
                    assert(self@.headers.take(i as int).push(self@.headers[i as int]) =~= self@
                        .headers.take(i as int + 1));
                }
                i += 1;
            }
            proof {
                assert(self@.headers.take(self.headers@.len() as int) =~= self@.headers);
            }
        } else {
            out.append("Content-Type: text/html\r\n");
        }
        out.append("\r\n");
        if let Some(body) = &self.body {
            out.append(body.as_str());
        }
        proof {
            assert(out@ =~= encode_spec(self@));
        }
        out.as_str().as_bytes_vec()
    }
}

/// A response with no header set is encoded with exactly one header line,
/// the default `Content-Type: text/html`, between the status line and the
/// blank separator line.
pub proof fn lemma_default_content_type(m: RespModel)
    requires
        m.headers.len() == 0,
    ensures
        encode_spec(m) == status_line(m) + "Content-Type: text/html\r\n"@ + "\r\n"@ + (match m.body {
            Some(b) => b,
            None => Seq::<char>::empty(),
        }),
{
}

/// Encoding starts with the response's own protocol version token: what a
/// handler echoes of the request's version is what goes back on the wire.
pub proof fn lemma_encode_version_prefix(m: RespModel)
    ensures
        encode_spec(m).take(version_str(m.version).len() as int) == version_str(m.version),
{
    assert(encode_spec(m).take(version_str(m.version).len() as int) =~= version_str(m.version));
}

/// Decode then encode preserves the protocol version token: for any text
/// that parses as a request, a response built with the request's version —
/// as the static-file handler builds its `200` — is encoded with exactly
/// that version token at the front of the wire text.
pub proof fn lemma_version_round_trip(s: Seq<char>, ct: Seq<char>, body: Seq<char>)
    requires
        crate::http_request::parse_spec(s) is Ok,
    ensures
        ({
            let m = crate::http_request::parse_spec(s)->Ok_0;
            let wire = encode_spec(content_response(m.version, ct, body));
            wire.take(version_str(m.version).len() as int) == version_str(m.version)
        }),
{
    let m = crate::http_request::parse_spec(s)->Ok_0;
    lemma_encode_version_prefix(content_response(m.version, ct, body));
}

} // verus!
