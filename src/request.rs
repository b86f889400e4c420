//! Parsing the raw text of one HTTP request.

use vstd::prelude::*;
use vstd::string::StringSliceAdditionalSpecFns;

use crate::bytes::{bytes_eq, copy_range, find_from, find_from_exec, split_exec, split_seq, views};
use crate::headers::{upsert, HeaderSeq, Headers};

verus! {

/// The line terminator, `"\r\n"`.
pub open spec fn crlf() -> Seq<u8> {
    seq![13u8, 10u8]
}

/// The separator of request-line tokens, `" "`.
pub open spec fn space() -> Seq<u8> {
    seq![32u8]
}

/// The separator of a header's name and value, `": "`.
pub open spec fn colon_space() -> Seq<u8> {
    seq![58u8, 32u8]
}

/// The request method. Only `POST` is told apart; every other method token
/// is taken as `GET`.
#[derive(Clone, Copy, Debug, PartialEq, Eq, Structural)]
pub enum HttpMethod {
    Get,
    Post,
}

/// Why a request text could not be parsed.
#[derive(Clone, Copy, Debug, PartialEq, Eq, Structural)]
pub enum ParseError {
    /// The request line has fewer than two space-separated tokens, or an
    /// empty path.
    MalformedRequestLine,
    /// A header line before the blank line holds no `": "`.
    MalformedHeader,
}

/// A parsed request.
pub struct HttpRequest {
    pub method: HttpMethod,
    pub path: Vec<u8>,
    pub headers: Headers,
    pub body: Vec<u8>,
}

/// What a request holds, as byte sequences.
pub struct RequestView {
    pub method: HttpMethod,
    pub path: Seq<u8>,
    pub headers: HeaderSeq,
    pub body: Seq<u8>,
}

impl View for HttpRequest {
    type V = RequestView;

    open spec fn view(&self) -> RequestView {
        RequestView { method: self.method, path: self.path@, headers: self.headers@, body: self.body@ }
    }
}

/// The method that a request-line token names.
pub open spec fn method_of(tok: Seq<u8>) -> HttpMethod {
    if tok == "POST".spec_bytes() {
        HttpMethod::Post
    } else {
        HttpMethod::Get
    }
}

/// The lines of `ls` run together, without separators.
pub open spec fn join(ls: Seq<Seq<u8>>) -> Seq<u8>
    decreases ls.len(),
{
    if ls.len() == 0 {
        Seq::empty()
    } else {
        join(ls.drop_last()) + ls.last()
    }
}

/// A header line cut at its first `": "`.
pub open spec fn parse_header(line: Seq<u8>) -> Option<(Seq<u8>, Seq<u8>)> {
    let k = find_from(line, colon_space(), 0);
    if k < 0 {
        None
    } else {
        Some((line.subrange(0, k), line.subrange(k + 2, line.len() as int)))
    }
}

/// Header lines up to the first empty line, added to `hs`, then the body:
/// every later line run together.
pub open spec fn parse_rest(lines: Seq<Seq<u8>>, hs: HeaderSeq) -> Result<(HeaderSeq, Seq<u8>), ParseError>
    decreases lines.len(),
{
    if lines.len() == 0 {
        Ok((hs, Seq::empty()))
    } else if lines[0].len() == 0 {
        Ok((hs, join(lines.drop_first())))
    } else {
        match parse_header(lines[0]) {
            None => Err(ParseError::MalformedHeader),
            Some(kv) => parse_rest(lines.drop_first(), upsert(hs, kv.0, kv.1)),
        }
    }
}

/// The request that a text holds: its lines split on `"\r\n"`; the first
/// split on `" "` into method token and path; then headers and body.
pub open spec fn parse_request(text: Seq<u8>) -> Result<RequestView, ParseError> {
    let lines = split_seq(text, crlf());
    let toks = split_seq(lines[0], space());
    if toks.len() < 2 || toks[1].len() == 0 {
        Err(ParseError::MalformedRequestLine)
    } else {
        match parse_rest(lines.drop_first(), Seq::empty()) {
            Err(e) => Err(e),
            Ok(hb) => Ok(
                RequestView { method: method_of(toks[0]), path: toks[1], headers: hb.0, body: hb.1 },
            ),
        }
    }
}

/// The result of parsing `text`, with the request in view form.
pub open spec fn parse_result_matches(r: Result<HttpRequest, ParseError>, text: Seq<u8>) -> bool {
    match r {
        Ok(q) => parse_request(text) == Ok::<RequestView, ParseError>(q@),
        Err(e) => parse_request(text) == Err::<RequestView, ParseError>(e),
    }
}

/// `s` holds no line break or space byte.
pub open spec fn plain_token(s: Seq<u8>) -> bool {
    forall|i: int| 0 <= i < s.len() ==> s[i] != 13u8 && s[i] != 10u8 && s[i] != 32u8
}

/// A request line `<method> <path> <version>` followed by the rest of a
/// request is parsed back to that method and path: the request line is
/// never the reason to fail, and a successful parse recovers both fields.
pub proof fn lemma_request_line_round_trip(m: Seq<u8>, p: Seq<u8>, v: Seq<u8>, rest: Seq<u8>)
    requires
        plain_token(m),
        plain_token(p),
        plain_token(v),
        p.len() > 0,
    ensures
        ({
            let text = m + space() + p + space() + v + crlf() + rest;
            &&& parse_request(text) != Err::<RequestView, ParseError>(ParseError::MalformedRequestLine)
            &&& parse_request(text) is Ok ==> parse_request(text)->Ok_0.method == method_of(m)
                && parse_request(text)->Ok_0.path == p
        }),
{
    let line = m + space() + p + space() + v;
    let text = m + space() + p + space() + v + crlf() + rest;
    assert(text =~= line + crlf() + rest);
    assert forall|j: int| 0 <= j < line.len() implies !crate::bytes::occurs_at(line + crlf() + rest, crlf(), j) by {
        assert((line + crlf() + rest)[j] == line[j]);
        if crate::bytes::occurs_at(line + crlf() + rest, crlf(), j) {
            assert((line + crlf() + rest).subrange(j, j + 2)[0] == 13u8);
        }
    }
    crate::bytes::lemma_split_first(line, crlf(), rest);
    let tail = p + space() + v;
    assert(line =~= m + space() + tail);
    assert forall|j: int| 0 <= j < m.len() implies !crate::bytes::occurs_at(m + space() + tail, space(), j) by {
        assert((m + space() + tail)[j] == m[j]);
        if crate::bytes::occurs_at(m + space() + tail, space(), j) {
            assert((m + space() + tail).subrange(j, j + 1)[0] == 32u8);
        }
    }
    crate::bytes::lemma_split_first(m, space(), tail);
    assert forall|j: int| 0 <= j < p.len() implies !crate::bytes::occurs_at(p + space() + v, space(), j) by {
        assert((p + space() + v)[j] == p[j]);
        if crate::bytes::occurs_at(p + space() + v, space(), j) {
            assert((p + space() + v).subrange(j, j + 1)[0] == 32u8);
        }
    }
    crate::bytes::lemma_split_first(p, space(), v);
    let toks = split_seq(line, space());
    assert(toks[0] == m);
    assert(toks[1] == p);
    assert(toks.len() >= 2);
    assert(split_seq(text, crlf())[0] == line);
    lemma_parse_rest_error(split_seq(text, crlf()).drop_first(), Seq::empty());
}

proof fn lemma_parse_rest_error(lines: Seq<Seq<u8>>, hs: HeaderSeq)
    ensures
        parse_rest(lines, hs) is Err ==> parse_rest(lines, hs) == Err::<(HeaderSeq, Seq<u8>), ParseError>(
            ParseError::MalformedHeader,
        ),
    decreases lines.len(),
{
    if lines.len() > 0 && lines[0].len() != 0 {
        match parse_header(lines[0]) {
            None => {},
            Some(kv) => lemma_parse_rest_error(lines.drop_first(), upsert(hs, kv.0, kv.1)),
        }
    }
}

proof fn lemma_split_nonempty(s: Seq<u8>, p: Seq<u8>)
    ensures
        split_seq(s, p).len() >= 1,
{
}

/// Cuts one header line at its first `": "`.
fn parse_header_exec(line: &[u8]) -> (r: Option<(Vec<u8>, Vec<u8>)>)
    ensures
        match r {
            Some(kv) => parse_header(line@) == Some((kv.0@, kv.1@)),
            None => parse_header(line@) == None::<(Seq<u8>, Seq<u8>)>,
        },
{
    let sep: Vec<u8> = vec![58u8, 32u8];
    assert(sep@ =~= colon_space());
    match find_from_exec(line, sep.as_slice(), 0) {
        None => None,
        Some(k) => {
            proof {
                crate::bytes::lemma_find_from_range(line@, colon_space(), 0);
            }
            let n = line.len();
            let name = copy_range(line, 0, k);
            let value = copy_range(line, k + 2, n);
            Some((name, value))
        },
    }
}

impl HttpRequest {
    /// Parses the full text of one request.
    pub fn from_str(request: &str) -> (r: Result<HttpRequest, ParseError>)
        ensures
            parse_result_matches(r, request.spec_bytes()),
    {
        let text = request.as_bytes();
        let sep: Vec<u8> = vec![13u8, 10u8];
        assert(sep@ =~= crlf());
        let sp: Vec<u8> = vec![32u8];
        assert(sp@ =~= space());
        let lines = split_exec(text, sep.as_slice());
        let ghost ls = views(lines@);
        proof {
            lemma_split_nonempty(text@, crlf());
        }
        let toks = split_exec(lines[0].as_slice(), sp.as_slice());
        proof {
            assert(ls[0] == lines@[0]@);
            assert(ls == split_seq(request.spec_bytes(), crlf()));
        }
        if toks.len() < 2 || toks[1].len() == 0 {
            return Err(ParseError::MalformedRequestLine);
        }
        let method = if bytes_eq(toks[0].as_slice(), "POST".as_bytes()) {
            HttpMethod::Post
        } else {
            HttpMethod::Get
        };
        let path = copy_range(toks[1].as_slice(), 0, toks[1].len());
        assert(toks[1]@.subrange(0, toks[1]@.len() as int) =~= toks[1]@);
        let ghost tv = views(toks@);
        assert(tv[0] == toks@[0]@ && tv[1] == toks@[1]@);
        let mut headers = Headers::new();
        let mut i: usize = 1;
        let mut body: Vec<u8> = Vec::new();
        let mut in_body = false;
        let ghost mut b: int = 0;
        while i < lines.len()
            invariant
                1 <= i <= lines@.len(),
                ls == views(lines@),
                ls == split_seq(request.spec_bytes(), crlf()),
                tv == split_seq(ls[0], space()),
                tv.len() >= 2,
                tv[1].len() > 0,
                method == method_of(tv[0]),
                path@ == tv[1],
                ls.len() == lines@.len(),
                !in_body ==> body@.len() == 0,
                !in_body ==> parse_rest(ls.drop_first(), Seq::empty()) == parse_rest(
                    ls.subrange(i as int, ls.len() as int),
                    headers@,
                ),
                in_body ==> 1 <= b < i && parse_rest(ls.drop_first(), Seq::empty()) == Ok::<
                        (HeaderSeq, Seq<u8>),
                        ParseError,
                    >((headers@, join(ls.subrange(b + 1, ls.len() as int))))
                        && body@ == join(ls.subrange(b + 1, i as int)),
            decreases lines@.len() - i,
        {
            let line = lines[i].as_slice();
            let ghost rest = ls.subrange(i as int, ls.len() as int);
            assert(rest[0] == line@);
            assert(rest.drop_first() =~= ls.subrange(i + 1, ls.len() as int));
            if in_body {
                let ghost before = body@;
                crate::bytes::append_bytes(&mut body, line);
                assert(ls.subrange(b + 1, i + 1).drop_last() =~= ls.subrange(b + 1, i as int));
            } else if line.len() == 0 {
                in_body = true;
                proof {
                    b = i as int;
                }
                assert(ls.subrange(i + 1, i + 1) =~= Seq::<Seq<u8>>::empty());
            } else {
                match parse_header_exec(line) {
                    None => {
                        assert(parse_rest(rest, headers@) == Err::<(HeaderSeq, Seq<u8>), ParseError>(
                            ParseError::MalformedHeader,
                        ));
                        assert(parse_rest(ls.drop_first(), Seq::empty()) == Err::<(HeaderSeq, Seq<u8>), ParseError>(
                            ParseError::MalformedHeader,
                        ));
                        assert(parse_request(request.spec_bytes()) == Err::<RequestView, ParseError>(
                            ParseError::MalformedHeader,
                        ));
                        return Err(ParseError::MalformedHeader);
                    },
                    Some(kv) => {
                        let (k, v) = kv;
                        headers.insert(k, v);
                    },
                }
            }
            i = i + 1;
        }
        proof {
            if !in_body {
                assert(ls.subrange(i as int, ls.len() as int) =~= Seq::<Seq<u8>>::empty());
                assert(body@ =~= Seq::<u8>::empty());
            } else {
                assert(ls.subrange(b + 1, i as int) =~= ls.subrange(b + 1, ls.len() as int));
            }
            assert(parse_rest(ls.drop_first(), Seq::empty()) == Ok::<(HeaderSeq, Seq<u8>), ParseError>(
                (headers@, body@),
            ));

        }
        Ok(HttpRequest { method, path, headers, body })
    }
}

} // verus!
