//! Routing a parsed request to its response, and the per-connection
//! decisions: when a request has been read in full, and when to close.

use vstd::prelude::*;
use vstd::string::StringSliceAdditionalSpecFns;

use crate::bytes::{bytes_eq, copy_range, opt_view, split_exec, split_seq, starts_with, starts_with_exec};
use crate::headers::{lookup, HeaderSeq};
use crate::request::{HttpMethod, HttpRequest, RequestView};
use crate::response::{fresh, wire, Encoding, HttpResponse, ResponseView};

verus! {

/// The size of one read from a connection.
pub const CHUNK_SIZE: usize = 1024;

/// The path prefix of the file routes.
pub open spec fn files_prefix() -> Seq<u8> {
    "/files/".spec_bytes()
}

/// The path prefix of the echo route.
pub open spec fn echo_prefix() -> Seq<u8> {
    "/echo/".spec_bytes()
}

/// `path` with `prefix` removed from its front.
pub open spec fn strip(path: Seq<u8>, prefix: Seq<u8>) -> Seq<u8> {
    path.subrange(prefix.len() as int, path.len() as int)
}

/// The separator of the tokens of `Accept-Encoding`, `", "`.
pub open spec fn comma_space() -> Seq<u8> {
    seq![44u8, 32u8]
}

/// `Accept-Encoding` is present and one of its tokens is `gzip`.
pub open spec fn accepts_gzip(hs: HeaderSeq) -> bool {
    match lookup(hs, "Accept-Encoding".spec_bytes()) {
        Some(v) => split_seq(v, comma_space()).contains("gzip".spec_bytes()),
        None => false,
    }
}

/// The request asks for the connection to be closed after the response.
pub open spec fn wants_close_spec(hs: HeaderSeq) -> bool {
    lookup(hs, "Connection".spec_bytes()) == Some("close".spec_bytes())
}

/// `200 OK`.
pub open spec fn ok() -> ResponseView {
    fresh(200, "OK".spec_bytes())
}

/// `404 Not Found`.
pub open spec fn not_found() -> ResponseView {
    fresh(404, "Not Found".spec_bytes())
}

/// The response to a GET. `file` is what the file that the path names holds,
/// or `None` when it is absent or no directory is configured.
pub open spec fn get_response(q: RequestView, file: Option<Seq<u8>>) -> ResponseView {
    if q.path == "/".spec_bytes() {
        ok()
    } else if q.path == "/user-agent".spec_bytes() {
        match lookup(q.headers, "User-Agent".spec_bytes()) {
            Some(ua) => ok().with_content(ua, "text/plain".spec_bytes()),
            None => fresh(400, "Bad Request".spec_bytes()),
        }
    } else if starts_with(q.path, files_prefix()) {
        match file {
            Some(c) => ok().with_content(c, "application/octet-stream".spec_bytes()),
            None => not_found(),
        }
    } else if starts_with(q.path, echo_prefix()) {
        let r = ok().with_content(strip(q.path, echo_prefix()), "text/plain".spec_bytes());
        if accepts_gzip(q.headers) {
            r.with_encoding(Encoding::Gzip)
        } else {
            r
        }
    } else {
        not_found()
    }
}

/// The response to a POST. `written` says that the body was stored, or
/// that no directory is configured, where the write is skipped.
pub open spec fn post_response(q: RequestView, written: bool) -> ResponseView {
    if starts_with(q.path, files_prefix()) {
        if written {
            fresh(201, "Created".spec_bytes())
        } else {
            fresh(500, "Internal Server Error".spec_bytes())
        }
    } else {
        not_found()
    }
}

/// The response to a request before it is finalized, with `Connection:
/// close` when the request asked for it.
pub open spec fn reply(q: RequestView, file: Option<Seq<u8>>, written: bool) -> ResponseView {
    let base = match q.method {
        HttpMethod::Get => get_response(q, file),
        HttpMethod::Post => post_response(q, written),
    };
    if wants_close_spec(q.headers) {
        base.with_header("Connection".spec_bytes(), "close".spec_bytes())
    } else {
        base
    }
}

/// The response to a request that could not be parsed: `400 Bad Request`,
/// and the connection is closed.
pub open spec fn bad_request_response() -> ResponseView {
    fresh(400, "Bad Request".spec_bytes()).with_header("Connection".spec_bytes(), "close".spec_bytes())
}

/// The name of the file that a `/files/` path names.
pub open spec fn file_target_spec(path: Seq<u8>) -> Option<Seq<u8>> {
    if starts_with(path, files_prefix()) {
        Some(strip(path, files_prefix()))
    } else {
        None
    }
}

/// The file that a request reads or writes: the path after `/files/`.
pub fn file_target(request: &HttpRequest) -> (r: Option<Vec<u8>>)
    ensures
        match r {
            Some(name) => file_target_spec(request.path@) == Some(name@),
            None => file_target_spec(request.path@) == None::<Seq<u8>>,
        },
{
    let prefix = "/files/".as_bytes();
    if starts_with_exec(request.path.as_slice(), prefix) {
        Some(copy_range(request.path.as_slice(), prefix.len(), request.path.len()))
    } else {
        None
    }
}

/// Whether the request carries `Connection: close`.
pub fn wants_close(request: &HttpRequest) -> (r: bool)
    ensures
        r == wants_close_spec(request.headers@),
{
    match request.headers.get("Connection".as_bytes()) {
        Some(v) => bytes_eq(v.as_slice(), "close".as_bytes()),
        None => false,
    }
}

/// Whether the request accepts a gzip body.
fn wants_gzip(request: &HttpRequest) -> (r: bool)
    ensures
        r == accepts_gzip(request.headers@),
{
    match request.headers.get("Accept-Encoding".as_bytes()) {
        None => false,
        Some(v) => {
            let sep: Vec<u8> = vec![44u8, 32u8];
            assert(sep@ =~= comma_space());
            let toks = split_exec(v.as_slice(), sep.as_slice());
            let ghost tv = crate::bytes::views(toks@);
            let gz = "gzip".as_bytes();
            let mut i: usize = 0;
            while i < toks.len()
                invariant
                    i <= toks@.len(),
                    tv == crate::bytes::views(toks@),
                    tv == split_seq(v@, comma_space()),
                    gz@ == "gzip".spec_bytes(),
                    lookup(request.headers@, "Accept-Encoding".spec_bytes()) == Some(v@),
                    forall|t: int| 0 <= t < i ==> tv[t] != gz@,
                decreases toks@.len() - i,
            {
                if bytes_eq(toks[i].as_slice(), gz) {
                    assert(tv[i as int] == gz@);
                    assert(tv.contains("gzip".spec_bytes()));
                    return true;
                }
                i = i + 1;
            }
            false
        },
    }
}

/// The response to a GET. `file` is what the file named by the path
/// holds, or `None` when it is absent or no directory is configured; it is
/// read only on `/files/` paths.
pub fn handle_get(request: &HttpRequest, file: Option<Vec<u8>>) -> (r: HttpResponse)
    ensures
        r@ == get_response(request@, opt_view(file)),
{
    let path = request.path.as_slice();
    if bytes_eq(path, "/".as_bytes()) {
        HttpResponse::new(200, "OK")
    } else if bytes_eq(path, "/user-agent".as_bytes()) {
        match request.headers.get("User-Agent".as_bytes()) {
            Some(ua) => {
                let mut response = HttpResponse::new(200, "OK");
                response.set_content(copy_range(ua.as_slice(), 0, ua.len()), "text/plain");
                assert(ua@.subrange(0, ua@.len() as int) =~= ua@);
                response
            },
            None => HttpResponse::new(400, "Bad Request"),
        }
    } else if starts_with_exec(path, "/files/".as_bytes()) {
        match file {
            Some(content) => {
                let mut response = HttpResponse::new(200, "OK");
                response.set_content(content, "application/octet-stream");
                response
            },
            None => HttpResponse::new(404, "Not Found"),
        }
    } else if starts_with_exec(path, "/echo/".as_bytes()) {
        let prefix = "/echo/".as_bytes();
        let value = copy_range(path, prefix.len(), path.len());
        let mut response = HttpResponse::new(200, "OK");
        response.set_content(value, "text/plain");
        if wants_gzip(request) {
            response.set_encoding(Encoding::Gzip);
        }
        response
    } else {
        HttpResponse::new(404, "Not Found")
    }
}

/// The response to a POST. `written` says that the body was stored under
/// the file the path names, or that no directory is configured.
pub fn handle_post(request: &HttpRequest, written: bool) -> (r: HttpResponse)
    ensures
        r@ == post_response(request@, written),
{
    if starts_with_exec(request.path.as_slice(), "/files/".as_bytes()) {
        if written {
            HttpResponse::new(201, "Created")
        } else {
            HttpResponse::new(500, "Internal Server Error")
        }
    } else {
        HttpResponse::new(404, "Not Found")
    }
}

/// Answers a parsed request: the wire bytes of the response, and whether
/// the connection is to be closed after them.
pub fn respond(request: &HttpRequest, file: Option<Vec<u8>>, written: bool) -> (r: (Vec<u8>, bool))
    ensures
        r.0@ == wire(reply(request@, opt_view(file), written).finalized()),
        r.1 == wants_close_spec(request.headers@),
{
    let mut response = match request.method {
        HttpMethod::Get => handle_get(request, file),
        HttpMethod::Post => handle_post(request, written),
    };
    let close = wants_close(request);
    if close {
        response.add_header("Connection", "close");
    }
    (response.to_bytes(), close)
}

/// The wire bytes sent for a request that could not be parsed.
pub fn bad_request() -> (r: Vec<u8>)
    ensures
        r@ == wire(bad_request_response().finalized()),
{
    let mut response = HttpResponse::new(400, "Bad Request");
    response.add_header("Connection", "close");
    response.to_bytes()
}

/// What to do after one read from a connection.
#[derive(Clone, Copy, Debug, PartialEq, Eq, Structural)]
pub enum ReadStep {
    /// The read filled the buffer: read again.
    More,
    /// The request text is complete.
    Complete,
    /// The peer closed the connection before sending anything.
    Closed,
}

/// The decision after a read of `n` bytes, with `total` bytes gathered so
/// far, this read included: a full chunk asks for more; a short read ends
/// the request, or the connection when nothing was gathered.
pub fn next_read_step(total: usize, n: usize) -> (r: ReadStep)
    ensures
        n == CHUNK_SIZE ==> r == ReadStep::More,
        n != CHUNK_SIZE && total > 0 ==> r == ReadStep::Complete,
        n != CHUNK_SIZE && total == 0 ==> r == ReadStep::Closed,
{
    if n == CHUNK_SIZE {
        ReadStep::More
    } else if total > 0 {
        ReadStep::Complete
    } else {
        ReadStep::Closed
    }
}

} // verus!
