//! The inbound half of the protocol codec: reading one request from the text
//! that arrived on a connection.
//!
//! The first line carries method, path-with-optional-query and version
//! tokens; header lines follow up to the first empty line, and the remaining
//! lines, rejoined with CRLF, form the body.  Query and header mappings are
//! kept as key/value pairs in first-insertion order with last-write-wins on a
//! duplicate key.  A missing first-line token, a query pair without `=` or a
//! header line without `:` is a malformed request, reported as an error so
//! the caller can answer with a Bad Request status instead of failing.

use vstd::prelude::*;

use crate::http::method_of;
use crate::http::version_of;
use crate::http::HttpMethod;
use crate::http::HttpVersion;
use crate::text::find_char;
use crate::text::find_idx;
use crate::text::join_crlf;
use crate::text::lemma_join_snoc;
use crate::text::lines_of;
use crate::text::lines_spec;
use crate::text::split_chars;
use crate::text::split_on;
use crate::text::trim_of;
use crate::text::trim_spec;
use crate::text::views_of;
use crate::text::ws_tokens;
use crate::text::ws_tokens_of;

verus! {

/// The ways a request text can be malformed.
#[derive(Clone, Copy, PartialEq, Eq, Structural, Debug)]
pub enum HttpError {
    /// The first line has fewer than three whitespace-separated tokens.
    MissingToken,
    /// A `&`-separated query pair has no `=`.
    MalformedQueryPair,
    /// A header line has no `:`.
    MalformedHeader,
}

/// The mathematical value of a parsed request.
#[verifier::ext_equal]
pub ghost struct ReqModel {
    pub method: HttpMethod,
    pub path: Seq<char>,
    pub query: Seq<(Seq<char>, Seq<char>)>,
    pub version: HttpVersion,
    pub headers: Seq<(Seq<char>, Seq<char>)>,
    pub body: Seq<char>,
}

/// The request all of whose fields are still uninitialized.
pub open spec fn empty_request() -> ReqModel {
    ReqModel {
        method: HttpMethod::UNINITIALIZED,
        path: Seq::<char>::empty(),
        query: Seq::<(Seq<char>, Seq<char>)>::empty(),
        version: HttpVersion::UNINITIALIZED,
        headers: Seq::<(Seq<char>, Seq<char>)>::empty(),
        body: Seq::<char>::empty(),
    }
}

/// The views of a sequence of string pairs.
pub open spec fn pair_views(q: Seq<(String, String)>) -> Seq<(Seq<char>, Seq<char>)> {
    q.map_values(|p: (String, String)| (p.0@, p.1@))
}

/// The index of the first pair keyed `k`, or `ps.len()` if absent.
pub open spec fn key_find(ps: Seq<(Seq<char>, Seq<char>)>, k: Seq<char>) -> int
    decreases ps.len(),
{
    if ps.len() == 0 {
        0
    } else if ps[0].0 == k {
        0
    } else {
        1 + key_find(ps.drop_first(), k)
    }
}

/// A position with no key `k` before it and `k` (or the end) at it is `key_find`.
pub proof fn lemma_key_find_at(ps: Seq<(Seq<char>, Seq<char>)>, k: Seq<char>, j: int)
    requires
        0 <= j <= ps.len(),
        forall|i: int| 0 <= i < j ==> (#[trigger] ps[i]).0 != k,
        j == ps.len() || ps[j].0 == k,
    ensures
        key_find(ps, k) == j,
    decreases ps.len(),
{
    if ps.len() > 0 && ps[0].0 != k {
        assert forall|i: int| 0 <= i < j - 1 implies (#[trigger] ps.drop_first()[i]).0 != k by {
            assert(ps.drop_first()[i] == ps[i + 1]);
        }
        if j < ps.len() {
            assert(ps.drop_first()[j - 1] == ps[j]);
        }
        lemma_key_find_at(ps.drop_first(), k, j - 1);
    }
}

/// Inserting `(k, v)` with last-write-wins: an earlier pair keyed `k` is
/// removed and the new pair goes to the end.
pub open spec fn lww_push_spec(
    ps: Seq<(Seq<char>, Seq<char>)>,
    k: Seq<char>,
    v: Seq<char>,
) -> Seq<(Seq<char>, Seq<char>)> {
    let j = key_find(ps, k);
    if j == ps.len() {
        ps.push((k, v))
    } else {
        ps.remove(j).push((k, v))
    }
}

/// The query mapping a sequence of `&`-separated pieces denotes, inserted in
/// order into `acc`; a piece without `=` is malformed.
pub open spec fn parse_query_spec(
    pieces: Seq<Seq<char>>,
    acc: Seq<(Seq<char>, Seq<char>)>,
) -> Result<Seq<(Seq<char>, Seq<char>)>, HttpError>
    decreases pieces.len(),
{
    if pieces.len() == 0 {
        Ok(acc)
    } else {
        let parts = split_chars(pieces[0], '=');
        if parts.len() < 2 {
            Err(HttpError::MalformedQueryPair)
        } else {
            parse_query_spec(pieces.drop_first(), lww_push_spec(acc, parts[0], parts[1]))
        }
    }
}

/// The header mapping and remaining body lines that the lines after the
/// first denote: headers run to the first empty line, each split at its
/// first `:` with both sides trimmed; a line without `:` is malformed.
pub open spec fn parse_headers_spec(
    ls: Seq<Seq<char>>,
    acc: Seq<(Seq<char>, Seq<char>)>,
) -> Result<(Seq<(Seq<char>, Seq<char>)>, Seq<Seq<char>>), HttpError>
    decreases ls.len(),
{
    if ls.len() == 0 {
        Ok((acc, Seq::<Seq<char>>::empty()))
    } else if ls[0].len() == 0 {
        Ok((acc, ls.drop_first()))
    } else {
        let ci = find_idx(ls[0], ':');
        if ci == ls[0].len() {
            Err(HttpError::MalformedHeader)
        } else {
            parse_headers_spec(
                ls.drop_first(),
                lww_push_spec(acc, trim_spec(ls[0].take(ci)), trim_spec(ls[0].skip(ci + 1))),
            )
        }
    }
}

/// The request a whole text denotes, or the first way in which it is
/// malformed: the query is checked before the headers.
pub open spec fn parse_spec(s: Seq<char>) -> Result<ReqModel, HttpError> {
    let lines = lines_spec(s);
    if lines.len() == 0 {
        Ok(empty_request())
    } else {
        let toks = ws_tokens(lines[0]);
        if toks.len() < 3 {
            Err(HttpError::MissingToken)
        } else {
            let pq = toks[1];
            let qi = find_idx(pq, '?');
            let qres = if qi == pq.len() {
                Ok(Seq::<(Seq<char>, Seq<char>)>::empty())
            } else {
                parse_query_spec(
                    split_chars(pq.skip(qi + 1), '&'),
                    Seq::<(Seq<char>, Seq<char>)>::empty(),
                )
            };
            match qres {
                Err(e) => Err(e),
                Ok(query) => match parse_headers_spec(
                    lines.drop_first(),
                    Seq::<(Seq<char>, Seq<char>)>::empty(),
                ) {
                    Err(e) => Err(e),
                    Ok(hb) => Ok(
                        ReqModel {
                            method: method_of(toks[0]),
                            path: pq.take(qi),
                            query,
                            version: version_of(toks[2]),
                            headers: hb.0,
                            body: join_crlf(hb.1),
                        },
                    ),
                },
            }
        }
    }
}

/// One request as read from a connection: immutable once constructed, owned
/// by the unit of work that processes the connection.
#[derive(Debug)]
pub struct HttpRequest {
    pub method: HttpMethod,
    pub path: String,
    pub query: Vec<(String, String)>,
    pub version: HttpVersion,
    pub headers: Vec<(String, String)>,
    pub body: String,
}

impl View for HttpRequest {
    type V = ReqModel;

    open spec fn view(&self) -> ReqModel {
        ReqModel {
            method: self.method,
            path: self.path@,
            query: pair_views(self.query@),
            version: self.version,
            headers: pair_views(self.headers@),
            body: self.body@,
        }
    }
}

/// Inserts `(key, value)` into the pairs with last-write-wins on the key.
fn lww_push(pairs: &mut Vec<(String, String)>, key: String, value: String)
    ensures
        pair_views(final(pairs)@) == lww_push_spec(pair_views(old(pairs)@), key@, value@),
{
    let ghost pv = pair_views(pairs@);
    let n = pairs.len();
    let mut j: usize = 0;
    while j < n
        invariant
            j <= n == pairs@.len(),
            pairs@ == old(pairs)@,
            pv == pair_views(pairs@),
            forall|i: int| 0 <= i < j ==> (#[trigger] pv[i]).0 != key@,
        decreases n - j,
    {
        proof {
            assert(pv[j as int] == (pairs@[j as int].0@, pairs@[j as int].1@));
        }
        if pairs[j].0 == key {
            proof {
                lemma_key_find_at(pv, key@, j as int);
            }
            let _ = pairs.remove(j);
            proof {
                assert(pair_views(pairs@) =~= pv.remove(j as int));
            }
            pairs.push((key, value));
            proof {
                assert(pair_views(pairs@) =~= pv.remove(j as int).push((key@, value@)));
            }
            return ;
        }
        j += 1;
    }
    proof {
        lemma_key_find_at(pv, key@, n as int);
    }
    pairs.push((key, value));
    proof {
        assert(pair_views(pairs@) =~= pv.push((key@, value@)));
    }
}

impl HttpRequest {
    /// A request with every field still uninitialized.
    pub fn new() -> (r: HttpRequest)
        ensures
            r@ == empty_request(),
    {
        let r = HttpRequest {
            method: HttpMethod::UNINITIALIZED,
            path: String::new(),
            query: Vec::new(),
            version: HttpVersion::UNINITIALIZED,
            headers: Vec::new(),
            body: String::new(),
        };
        proof {
            assert(pair_views(r.query@) =~= Seq::<(Seq<char>, Seq<char>)>::empty());
            assert(pair_views(r.headers@) =~= Seq::<(Seq<char>, Seq<char>)>::empty());
            assert(r@ =~= empty_request());
        }
        r
    }

    /// Reads one request from the text of a connection, exactly as
    /// `parse_spec` describes it, or reports how the text is malformed.
    #[verifier::loop_isolation(false)]
    pub fn from(s: &str) -> (r: Result<HttpRequest, HttpError>)
        ensures
            match r {
                Ok(req) => parse_spec(s@) == Ok::<ReqModel, HttpError>(req@),
                Err(e) => parse_spec(s@) == Err::<ReqModel, HttpError>(e),
            },
    {
        let lines = lines_of(s);
        let ghost lv = views_of(lines@);
        if lines.len() == 0 {
            let req = HttpRequest::new();
            return Ok(req);
        }
        let toks = ws_tokens_of(lines[0].as_str());
        let ghost tv = views_of(toks@);
        proof {
            assert(lv[0] == lines@[0]@);
        }
        if toks.len() < 3 {
            return Err(HttpError::MissingToken);
        }
        proof {
            assert(tv[0] == toks@[0]@);
            assert(tv[1] == toks@[1]@);
            assert(tv[2] == toks@[2]@);
        }
        let method = HttpMethod::new(toks[0].as_str());
        let version = HttpVersion::new(toks[2].as_str());
        let pq: &str = toks[1].as_str();
        let pqn = pq.unicode_len();
        let mut query: Vec<(String, String)> = Vec::new();
        let path: String;
        match find_char(pq, '?') {
            None => {
                path = pq.to_owned();
                proof {
                    assert(tv[1].take(find_idx(tv[1], '?')) =~= tv[1]);
                    assert(pair_views(query@) =~= Seq::<(Seq<char>, Seq<char>)>::empty());
                }
            },
            Some(j) => {
                path = pq.substring_char(0, j).to_owned();
                let qs = pq.substring_char(j + 1, pqn);
                proof {
                    assert(path@ == tv[1].take(find_idx(tv[1], '?')));
                    assert(qs@ =~= tv[1].skip(find_idx(tv[1], '?') + 1));
                }
                let pieces = split_on(qs, '&');
                let ghost pcv = views_of(pieces@);
                proof {
                    assert(pair_views(query@) =~= Seq::<(Seq<char>, Seq<char>)>::empty());
                    assert(pcv.skip(0) =~= pcv);
                }
                let mut pi: usize = 0;
                while pi < pieces.len()
                    invariant
                        pi <= pieces@.len(),
                        parse_query_spec(pcv.skip(pi as int), pair_views(query@))
                            == parse_query_spec(
                            pcv,
                            Seq::<(Seq<char>, Seq<char>)>::empty(),
                        ),
                    decreases pieces@.len() - pi,
                {
                    proof {
                        assert(pcv[pi as int] == pieces@[pi as int]@);
                        assert(pcv.skip(pi as int)[0] == pcv[pi as int]);
                    }
                    let parts = split_on(pieces[pi].as_str(), '=');
                    if parts.len() < 2 {
                        return Err(HttpError::MalformedQueryPair);
                    }
                    proof {
                        assert(views_of(parts@)[0] == parts@[0]@);
                        assert(views_of(parts@)[1] == parts@[1]@);
                    }
                    let k = parts[0].clone();
                    let v = parts[1].clone();
                    lww_push(&mut query, k, v);
                    proof {
                        assert(pcv.skip(pi as int).drop_first() =~= pcv.skip(pi as int + 1));
                    }
                    pi += 1;
                }
                proof {
                    assert(pcv.skip(pieces@.len() as int) =~= Seq::<Seq<char>>::empty());
                }
            },
        }
        let ghost qok = pair_views(query@);
        let mut headers: Vec<(String, String)> = Vec::new();
        let mut li: usize = 1;
        proof {
            assert(pair_views(headers@) =~= Seq::<(Seq<char>, Seq<char>)>::empty());
        }
        while li < lines.len() && !lines[li].as_str().is_empty()
            invariant
                1 <= li <= lines@.len(),
                parse_headers_spec(lv.skip(li as int), pair_views(headers@))
                    == parse_headers_spec(
                    lv.skip(1),
                    Seq::<(Seq<char>, Seq<char>)>::empty(),
                ),
            decreases lines@.len() - li,
        {
            let line = lines[li].as_str();
            proof {
                assert(lv[li as int] == lines@[li as int]@);
                assert(lv.skip(li as int)[0] == lv[li as int]);
            }
            match find_char(line, ':') {
                None => {
                    return Err(HttpError::MalformedHeader);
                },
                Some(ci) => {
                    let ln = line.unicode_len();
                    let k = trim_of(line.substring_char(0, ci));
                    let v = trim_of(line.substring_char(ci + 1, ln));
                    proof {
                        assert(line@.subrange(0, ci as int) =~= lv[li as int].take(ci as int));
                        assert(line@.subrange(ci as int + 1, line@.len() as int) =~= lv[
                            li as int
                        ].skip(ci as int + 1));
                    }
                    lww_push(&mut headers, k, v);
                    proof {
                        assert(lv.skip(li as int).drop_first() =~= lv.skip(li as int + 1));
                    }
                },
            }
            li += 1;
        }
        let ghost hacc = pair_views(headers@);
        let body_start = if li < lines.len() {
            li + 1
        } else {
            li
        };
        proof {
            if li == lines@.len() {
                assert(lv.skip(li as int) =~= Seq::<Seq<char>>::empty());
                assert(parse_headers_spec(lv.skip(li as int), hacc) == Ok::<
                    (Seq<(Seq<char>, Seq<char>)>, Seq<Seq<char>>),
                    HttpError,
                >((hacc, Seq::<Seq<char>>::empty())));
                assert(lv.skip(body_start as int) =~= Seq::<Seq<char>>::empty());
            } else {
                assert(lv.skip(li as int)[0] == lv[li as int]);
                assert(lv[li as int].len() == 0);
                assert(lv.skip(li as int).drop_first() =~= lv.skip(body_start as int));
            }
        }
        let mut body = String::new();
        let mut bi = body_start;
        proof {
            assert(lv.subrange(body_start as int, bi as int) =~= Seq::<Seq<char>>::empty());
        }
        while bi < lines.len()
            invariant
                body_start <= bi <= lines@.len(),
                body@ == join_crlf(lv.subrange(body_start as int, bi as int)),
            decreases lines@.len() - bi,
        {
            proof {
                assert(lv[bi as int] == lines@[bi as int]@);
            }
            if bi > body_start {
                body.append("\r\n");
                proof {
                    lemma_join_snoc(lv.subrange(body_start as int, bi as int), lv[bi as int]);
                }
            }
            body.append(lines[bi].as_str());
            proof {
                assert(lv.subrange(body_start as int, bi as int).push(lv[bi as int]) =~= lv
                    .subrange(body_start as int, bi as int + 1));
                if bi == body_start {
                    assert(lv.subrange(body_start as int, bi as int + 1) =~= seq![lv[bi as int]]);
                }
            }
            bi += 1;
        }
        let req = HttpRequest { method, path, query, version, headers, body };
        proof {
            assert(lv.subrange(body_start as int, lines@.len() as int) =~= lv.skip(
                body_start as int,
            ));
            assert(req@ =~= (match parse_spec(s@) {
                Ok(m) => m,
                Err(_) => empty_request(),
            }));
        }
        Ok(req)
    }
}

} // verus!
