//! The fallback handler: what the server decides for a request that no
//! registered route matched.
//!
//! Only the decisions live here, as plain functions from request values (and
//! from what the caller observed on disk) to response values; reading the
//! file system itself stays with the caller.  A non-GET request is refused
//! with `501`, a path with a `..` anywhere after its first character with
//! `403`; otherwise the path is resolved under the `public` root, a
//! directory stands for its `index.html`, the extension names the content
//! type, and an unknown extension or unreadable file answers `404`.

use vstd::prelude::*;

use crate::http::ContentType;
use crate::http::HttpMethod;
use crate::http::HttpVersion;
use crate::http_request::HttpRequest;
use crate::http_request::ReqModel;
use crate::http_response::content_response;
use crate::http_response::status_response;
use crate::http_response::HttpResponse;
use crate::http_response::RespModel;
use crate::text::find_char;
use crate::text::find_idx;

verus! {

/// What the fallback handler decides before any file is touched: answer
/// with a canned status, or probe the given path under the public root.
#[derive(Debug)]
pub enum ServePlan {
    /// Answer with this status code and its status page.
    Reject(u16),
    /// Ask the file system about this path and serve what it holds.
    Probe(String),
}

/// Whether the path holds `..` starting anywhere after its first character.
pub open spec fn has_traversal(p: Seq<char>) -> bool {
    exists|i: int| 1 <= i && i + 1 < p.len() && (#[trigger] p[i]) == '.' && p[i + 1] == '.'
}

/// The request path placed under the `public` root, its leading `/` removed.
pub open spec fn public_path(p: Seq<char>) -> Seq<char> {
    "public/"@ + (if p.len() > 0 && p[0] == '/' {
        p.drop_first()
    } else {
        p
    })
}

/// The plan the fallback handler owes a request: `501` for anything but
/// GET, `403` for a traversal attempt, else a probe of the public path.
pub open spec fn plan_ok(m: ReqModel, p: ServePlan) -> bool {
    if m.method != HttpMethod::GET {
        p == ServePlan::Reject(501u16)
    } else if has_traversal(m.path) {
        p == ServePlan::Reject(403u16)
    } else {
        p matches ServePlan::Probe(q) && q@ == public_path(m.path)
    }
}

/// The content type a file path's extension denotes: the text after the
/// first `.` must name one of the three known kinds; no dot, or anything
/// else, stays unclassified.
pub open spec fn classify(f: Seq<char>) -> Option<ContentType> {
    let d = find_idx(f, '.');
    if d == f.len() {
        None
    } else {
        let ext = f.skip(d + 1);
        if ext == "html"@ {
            Some(ContentType::HTML)
        } else if ext == "css"@ {
            Some(ContentType::CSS)
        } else if ext == "js"@ {
            Some(ContentType::JS)
        } else {
            None
        }
    }
}

/// The path a directory resolves to: its `index.html`.
pub open spec fn resolved_path(p: Seq<char>, is_dir: bool) -> Seq<char> {
    if is_dir {
        p + "/index.html"@
    } else {
        p
    }
}

/// The fallback handler for one request.
pub struct HttpRequestHandler {
    pub request: HttpRequest,
}

impl HttpRequestHandler {
    /// Takes charge of one request.
    pub fn new(request: HttpRequest) -> (h: HttpRequestHandler)
        ensures
            h.request@ == request@,
    {
        HttpRequestHandler { request }
    }

    /// Decides the plan this request is owed, as `plan_ok` states it.
    #[verifier::loop_isolation(false)]
    pub fn handle(&self) -> (p: ServePlan)
        ensures
            plan_ok(self.request@, p),
    {
        match self.request.method {
            HttpMethod::GET => {},
            _ => {
                return ServePlan::Reject(501);
            },
        }
        let path = self.request.path.as_str();
        let n = path.unicode_len();
        if n >= 2 {
            let mut i: usize = 1;
            while i < n - 1
                invariant
                    n >= 2,
                    1 <= i <= n - 1,
                    n == path@.len(),
                    forall|j: int|
                        1 <= j && j + 1 < i + 1 ==> !((#[trigger] path@[j]) == '.' && path@[j + 1]
                            == '.'),
                decreases n - i,
            {
                if path.get_char(i) == '.' && path.get_char(i + 1) == '.' {
                    proof {
                        assert(path@[i as int] == '.');
                        assert(path@[i as int + 1] == '.');
                        assert(has_traversal(path@));
                    }
                    return ServePlan::Reject(403);
                }
                i += 1;
            }
        }
        proof {
            assert(!has_traversal(self.request@.path));
        }
        let mut q = "public/".to_owned();
        if n > 0 && path.get_char(0) == '/' {
            q.append(path.substring_char(1, n));
            proof {
                assert(path@.subrange(1, n as int) =~= path@.drop_first());
            }
        } else {
            q.append(path);
        }
        ServePlan::Probe(q)
    }

    /// Labels a file path by its extension, as `classify` states it.
    pub fn get_response_file_content(file: String) -> (r: Option<ContentType>)
        ensures
            r == classify(file@),
    {
        let f = file.as_str();
        let n = f.unicode_len();
        match find_char(f, '.') {
            None => None,
            Some(d) => {
                let ext = f.substring_char(d + 1, n).to_owned();
                proof {
                    assert(ext@ =~= file@.skip(d as int + 1));
                }
                if ext == "html".to_owned() {
                    Some(ContentType::HTML)
                } else if ext == "css".to_owned() {
                    Some(ContentType::CSS)
                } else if ext == "js".to_owned() {
                    Some(ContentType::JS)
                } else {
                    None
                }
            },
        }
    }

    /// The path a probe settles on once the caller knows whether it is a
    /// directory: a directory stands for its `index.html`.
    pub fn resolve_dir(path: String, is_dir: bool) -> (r: String)
        ensures
            r@ == resolved_path(path@, is_dir),
    {
        if is_dir {
            path.concat("/index.html")
        } else {
            path
        }
    }

    /// The response a probed file is owed once the caller has looked at the
    /// disk: the file's text under its content type when both were found,
    /// else the canned `404` with whatever status page the caller loaded.
    pub fn finish_probe(
        version: HttpVersion,
        content_type: Option<ContentType>,
        contents: Option<String>,
        status_page: Option<String>,
    ) -> (r: HttpResponse)
        ensures
            content_type is Some && contents is Some ==> r@ =~= content_response(
                version,
                crate::http::content_type_str(content_type->0),
                contents->0@,
            ),
            content_type is None || contents is None ==> r@ =~= status_response(
                404,
                match status_page {
                    Some(p) => Some(p@),
                    None => None,
                },
            ),
    {
        match (content_type, contents) {
            (Some(ct), Some(text)) => HttpResponse::with_content(version, ct.to_string(), text),
            _ => HttpResponse::from_status(404, status_page),
        }
    }
}

/// A GET request whose path holds no `..` after its first character, probed
/// at a path whose resolved file carries a known extension and readable
/// text, is answered `200 OK` with exactly that content type and text; this
/// is the successful half of the traversal rule, stated over the same spec
/// functions the methods above ensure.
pub proof fn lemma_static_serve_ok(
    m: ReqModel,
    p: ServePlan,
    is_dir: bool,
    ct: ContentType,
    text: Seq<char>,
    r: RespModel,
)
    requires
        m.method == HttpMethod::GET,
        !has_traversal(m.path),
        plan_ok(m, p),
        classify(resolved_path(public_path(m.path), is_dir)) == Some(ct),
        r =~= content_response(m.version, crate::http::content_type_str(ct), text),
    ensures
        p matches ServePlan::Probe(q) && q@ == public_path(m.path),
        r.status_code == "200"@,
        r.headers == seq![("Content-Type"@, crate::http::content_type_str(ct))],
        r.body == Some(text),
        r.version == m.version,
{
}

/// A probe whose resolved file has no known extension, or cannot be read,
/// is answered `404 Not Found`, its body the status page when one could be
/// loaded and absent otherwise.
pub proof fn lemma_static_serve_missing(page: Option<Seq<char>>, r: RespModel)
    requires
        r =~= status_response(404, page),
    ensures
        r.status_code == "404"@,
        r.status_text == "Not Found"@,
        r.headers.len() == 0,
        r.body == page,
{
    assert(crate::text::dec_str(4) =~= seq!['4']);
    assert(crate::text::dec_str(40) =~= seq!['4', '0']);
    assert(crate::text::dec_str(404) =~= seq!['4', '0', '4']);
    reveal_strlit("404");
    assert("404"@ =~= seq!['4', '0', '4']);
}

} // verus!
