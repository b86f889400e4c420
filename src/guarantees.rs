//! Facts about the server's answers, proved over the routing and
//! response specifications.

use vstd::prelude::*;
use vstd::string::StringSliceAdditionalSpecFns;

use crate::bytes::{lemma_split_first, lemma_split_none, occurs_at, split_seq, starts_with};
use crate::headers::{lemma_lookup_upsert, lookup, HeaderSeq};
use crate::request::{HttpMethod, RequestView};
use crate::response::{ResponseView, content_encoding_name, content_length_name, content_type_name, decimal, gzip_of};
use crate::router::{accepts_gzip, comma_space, echo_prefix, files_prefix, reply, wants_close_spec};

verus! {

/// The bytes of the string literals that routing and framing compare.
proof fn lemma_literal_bytes()
    ensures
        "/".spec_bytes() == seq![47u8],
        "/user-agent".spec_bytes() == seq![47u8, 117u8, 115u8, 101u8, 114u8, 45u8, 97u8, 103u8, 101u8, 110u8, 116u8],
        "/files/".spec_bytes() == seq![47u8, 102u8, 105u8, 108u8, 101u8, 115u8, 47u8],
        "/echo/".spec_bytes() == seq![47u8, 101u8, 99u8, 104u8, 111u8, 47u8],
        "Content-Type".spec_bytes() == seq![67u8, 111u8, 110u8, 116u8, 101u8, 110u8, 116u8, 45u8, 84u8, 121u8, 112u8, 101u8],
        "Content-Length".spec_bytes() == seq![67u8, 111u8, 110u8, 116u8, 101u8, 110u8, 116u8, 45u8, 76u8, 101u8, 110u8, 103u8, 116u8, 104u8],
        "Content-Encoding".spec_bytes() == seq![67u8, 111u8, 110u8, 116u8, 101u8, 110u8, 116u8, 45u8, 69u8, 110u8, 99u8, 111u8, 100u8, 105u8, 110u8, 103u8],
        "gzip".spec_bytes() == seq![103u8, 122u8, 105u8, 112u8],
        "Connection".spec_bytes() == seq![67u8, 111u8, 110u8, 110u8, 101u8, 99u8, 116u8, 105u8, 111u8, 110u8],
{
    broadcast use vstd::string::is_ascii_spec_bytes;

    reveal_strlit("/");
    assert(vstd::string::is_ascii("/"));
    assert("/".spec_bytes() =~= seq![47u8]);
    reveal_strlit("/user-agent");
    assert(vstd::string::is_ascii("/user-agent"));
    assert("/user-agent".spec_bytes() =~= seq![47u8, 117u8, 115u8, 101u8, 114u8, 45u8, 97u8, 103u8, 101u8, 110u8, 116u8]);
    reveal_strlit("/files/");
    assert(vstd::string::is_ascii("/files/"));
    assert("/files/".spec_bytes() =~= seq![47u8, 102u8, 105u8, 108u8, 101u8, 115u8, 47u8]);
    reveal_strlit("/echo/");
    assert(vstd::string::is_ascii("/echo/"));
    assert("/echo/".spec_bytes() =~= seq![47u8, 101u8, 99u8, 104u8, 111u8, 47u8]);
    reveal_strlit("Content-Type");
    assert(vstd::string::is_ascii("Content-Type"));
    assert("Content-Type".spec_bytes() =~= seq![67u8, 111u8, 110u8, 116u8, 101u8, 110u8, 116u8, 45u8, 84u8, 121u8, 112u8, 101u8]);
    reveal_strlit("Content-Length");
    assert(vstd::string::is_ascii("Content-Length"));
    assert("Content-Length".spec_bytes() =~= seq![67u8, 111u8, 110u8, 116u8, 101u8, 110u8, 116u8, 45u8, 76u8, 101u8, 110u8, 103u8, 116u8, 104u8]);
    reveal_strlit("Content-Encoding");
    assert(vstd::string::is_ascii("Content-Encoding"));
    assert("Content-Encoding".spec_bytes() =~= seq![67u8, 111u8, 110u8, 116u8, 101u8, 110u8, 116u8, 45u8, 69u8, 110u8, 99u8, 111u8, 100u8, 105u8, 110u8, 103u8]);
    reveal_strlit("gzip");
    assert(vstd::string::is_ascii("gzip"));
    assert("gzip".spec_bytes() =~= seq![103u8, 122u8, 105u8, 112u8]);
    reveal_strlit("Connection");
    assert(vstd::string::is_ascii("Connection"));
    assert("Connection".spec_bytes() =~= seq![67u8, 111u8, 110u8, 110u8, 101u8, 99u8, 116u8, 105u8, 111u8, 110u8]);
}

/// The header names the framing sets are pairwise distinct.
proof fn lemma_names_distinct()
    ensures
        content_type_name() != content_length_name(),
        content_type_name() != "Connection".spec_bytes(),
        content_length_name() != "Connection".spec_bytes(),
        content_encoding_name() != content_length_name(),
        content_encoding_name() != "Connection".spec_bytes(),
        content_encoding_name() != content_type_name(),
{
    lemma_literal_bytes();
    assert(content_type_name().len() != content_length_name().len());
    assert(content_type_name().len() != "Connection".spec_bytes().len());
    assert(content_length_name().len() != "Connection".spec_bytes().len());
    assert(content_encoding_name().len() != content_length_name().len());
    assert(content_encoding_name().len() != "Connection".spec_bytes().len());
    assert(content_encoding_name().len() != content_type_name().len());
}

/// Once a response is finalized, its `Content-Length` is the length of
/// the body as sent, and finalizing leaves that body as it was.
pub proof fn lemma_finalized_length(r: ResponseView)
    ensures
        r.finalized().final_body() == r.final_body(),
        lookup(r.finalized().headers, content_length_name()) == Some(decimal(r.finalized().final_body().len())),
{
    lemma_lookup_upsert(r.headers, content_length_name(), decimal(r.final_body().len()), content_length_name());
}

/// `gzip` listed after another encoding token (one without a comma), as
/// in `deflate, gzip`, is accepted: tokens are matched one by one, not the
/// whole value.
pub proof fn lemma_gzip_after_other_token(hs: HeaderSeq, t: Seq<u8>)
    requires
        forall|i: int| 0 <= i < t.len() ==> t[i] != 44u8,
        lookup(hs, "Accept-Encoding".spec_bytes()) == Some(t + comma_space() + "gzip".spec_bytes()),
    ensures
        accepts_gzip(hs),
{
    lemma_literal_bytes();
    let gz = "gzip".spec_bytes();
    let v = t + comma_space() + gz;
    assert forall|j: int| 0 <= j < t.len() implies !occurs_at(v, comma_space(), j) by {
        assert(v[j] == t[j]);
        if occurs_at(v, comma_space(), j) {
            assert(v.subrange(j, j + 2)[0] == 44u8);
        }
    }
    lemma_split_first(t, comma_space(), gz);
    assert forall|j: int| 0 <= j <= gz.len() implies !occurs_at(gz, comma_space(), j) by {
        if occurs_at(gz, comma_space(), j) {
            assert(gz.subrange(j, j + 2)[0] == 44u8);
        }
    }
    lemma_split_none(gz, comma_space());
    assert(split_seq(v, comma_space())[1] == gz);
}

/// The paths that the routing table knows for a method.
pub open spec fn routed(q: RequestView) -> bool {
    match q.method {
        HttpMethod::Get => q.path == "/".spec_bytes() || q.path == "/user-agent".spec_bytes()
            || starts_with(q.path, files_prefix()) || starts_with(q.path, echo_prefix()),
        HttpMethod::Post => starts_with(q.path, files_prefix()),
    }
}

/// A path under `/echo/` or `/files/` is neither `/` nor `/user-agent`, and
/// the two prefixes exclude each other.
proof fn lemma_prefixed_paths(path: Seq<u8>)
    ensures
        starts_with(path, echo_prefix()) ==> path != "/".spec_bytes() && path != "/user-agent".spec_bytes()
            && !starts_with(path, files_prefix()),
        starts_with(path, files_prefix()) ==> path != "/".spec_bytes() && path != "/user-agent".spec_bytes(),
{
    lemma_literal_bytes();
    if starts_with(path, echo_prefix()) {
        assert(path[1] == 101u8);
        assert(path.len() >= 6);
    }
    if starts_with(path, files_prefix()) {
        assert(path[1] == 102u8);
        assert(path.len() >= 7);
    }
}

/// A GET of `/` is answered `200` with an empty body, whatever headers the
/// request carries.
pub proof fn lemma_root_ok(q: RequestView, file: Option<Seq<u8>>, written: bool)
    requires
        q.method == HttpMethod::Get,
        q.path == "/".spec_bytes(),
    ensures
        reply(q, file, written).finalized().status_code == 200,
        reply(q, file, written).finalized().final_body() == Seq::<u8>::empty(),
{
}

/// A GET of `/echo/<s>` without gzip among the accepted encodings is
/// answered `200` with `Content-Type: text/plain`, body `s`, and a
/// `Content-Length` of the length of `s`.
pub proof fn lemma_echo_plain(q: RequestView, s: Seq<u8>, file: Option<Seq<u8>>, written: bool)
    requires
        q.method == HttpMethod::Get,
        q.path == echo_prefix() + s,
        !accepts_gzip(q.headers),
    ensures
        ({
            let r = reply(q, file, written).finalized();
            &&& r.status_code == 200
            &&& r.final_body() == s
            &&& lookup(r.headers, content_type_name()) == Some("text/plain".spec_bytes())
            &&& lookup(r.headers, content_length_name()) == Some(decimal(s.len()))
        }),
{
    lemma_echo_common(q, s, file, written);
}

/// A GET of `/echo/<s>` with gzip among the accepted encodings is answered
/// `200` with the gzip stream of `s` as body, `Content-Encoding: gzip`, and
/// a `Content-Length` of the length of the compressed body.
pub proof fn lemma_echo_gzip(q: RequestView, s: Seq<u8>, file: Option<Seq<u8>>, written: bool)
    requires
        q.method == HttpMethod::Get,
        q.path == echo_prefix() + s,
        accepts_gzip(q.headers),
    ensures
        ({
            let r = reply(q, file, written).finalized();
            &&& r.status_code == 200
            &&& r.final_body() == gzip_of(s)
            &&& lookup(r.headers, content_encoding_name()) == Some("gzip".spec_bytes())
            &&& lookup(r.headers, content_length_name()) == Some(decimal(gzip_of(s).len()))
        }),
{
    lemma_echo_common(q, s, file, written);
}

proof fn lemma_echo_common(q: RequestView, s: Seq<u8>, file: Option<Seq<u8>>, written: bool)
    requires
        q.method == HttpMethod::Get,
        q.path == echo_prefix() + s,
    ensures
        ({
            let r = reply(q, file, written).finalized();
            &&& r.status_code == 200
            &&& r.content == s
            &&& lookup(r.headers, content_type_name()) == Some("text/plain".spec_bytes())
            &&& lookup(r.headers, content_length_name()) == Some(decimal(r.final_body().len()))
            &&& accepts_gzip(q.headers) ==> r.encoding == Some(crate::response::Encoding::Gzip)
                && lookup(r.headers, content_encoding_name()) == Some("gzip".spec_bytes())
            &&& !accepts_gzip(q.headers) ==> r.encoding.is_none()
        }),
{
    lemma_names_distinct();
    assert(q.path.subrange(0, echo_prefix().len() as int) =~= echo_prefix());
    lemma_prefixed_paths(q.path);
    assert(crate::router::strip(q.path, echo_prefix()) =~= s);
    let tp = "text/plain".spec_bytes();
    let conn = "Connection".spec_bytes();
    let close = "close".spec_bytes();
    let gz = "gzip".spec_bytes();
    let h0 = Seq::<(Seq<u8>, Seq<u8>)>::empty();
    let h1 = crate::headers::upsert(h0, content_type_name(), tp);
    let h2 = crate::headers::upsert(h1, content_length_name(), decimal(s.len()));
    lemma_lookup_upsert(h0, content_type_name(), tp, content_type_name());
    lemma_lookup_upsert(h1, content_length_name(), decimal(s.len()), content_type_name());
    let h3 = if accepts_gzip(q.headers) {
        crate::headers::upsert(h2, content_encoding_name(), gz)
    } else {
        h2
    };
    lemma_lookup_upsert(h2, content_encoding_name(), gz, content_type_name());
    let h4 = if wants_close_spec(q.headers) {
        crate::headers::upsert(h3, conn, close)
    } else {
        h3
    };
    lemma_lookup_upsert(h3, conn, close, content_type_name());
    lemma_lookup_upsert(h3, conn, close, content_encoding_name());
    let r = reply(q, file, written);
    assert(r.headers == h4);
    lemma_lookup_upsert(h4, content_length_name(), decimal(r.final_body().len()), content_type_name());
    lemma_lookup_upsert(h4, content_length_name(), decimal(r.final_body().len()), content_encoding_name());
    lemma_lookup_upsert(h2, content_encoding_name(), gz, content_encoding_name());
}

/// A GET of a file that is absent, or with no directory configured, is
/// answered `404` with an empty body.
pub proof fn lemma_missing_file(q: RequestView, name: Seq<u8>, written: bool)
    requires
        q.method == HttpMethod::Get,
        q.path == files_prefix() + name,
    ensures
        reply(q, None, written).finalized().status_code == 404,
        reply(q, None, written).finalized().final_body() == Seq::<u8>::empty(),
{
    assert(q.path.subrange(0, files_prefix().len() as int) =~= files_prefix());
    lemma_prefixed_paths(q.path);
}

/// A body stored by a POST to `/files/<name>` and handed back when a GET of
/// the same path reads that file is served unchanged: the POST is answered
/// `201`, the GET `200` with that body as `application/octet-stream`.
pub proof fn lemma_store_then_fetch(
    post: RequestView,
    get: RequestView,
    name: Seq<u8>,
    written_get: bool,
)
    requires
        post.method == HttpMethod::Post,
        get.method == HttpMethod::Get,
        post.path == files_prefix() + name,
        get.path == post.path,
    ensures
        reply(post, None, true).finalized().status_code == 201,
        ({
            let r = reply(get, Some(post.body), written_get).finalized();
            &&& r.status_code == 200
            &&& r.final_body() == post.body
            &&& lookup(r.headers, content_type_name()) == Some("application/octet-stream".spec_bytes())
        }),
{
    lemma_names_distinct();
    assert(post.path.subrange(0, files_prefix().len() as int) =~= files_prefix());
    lemma_prefixed_paths(get.path);
    let oct = "application/octet-stream".spec_bytes();
    let conn = "Connection".spec_bytes();
    let close = "close".spec_bytes();
    let h0 = Seq::<(Seq<u8>, Seq<u8>)>::empty();
    let h1 = crate::headers::upsert(h0, content_type_name(), oct);
    let h2 = crate::headers::upsert(h1, content_length_name(), decimal(post.body.len()));
    lemma_lookup_upsert(h0, content_type_name(), oct, content_type_name());
    lemma_lookup_upsert(h1, content_length_name(), decimal(post.body.len()), content_type_name());
    lemma_lookup_upsert(h2, conn, close, content_type_name());
    let r = reply(get, Some(post.body), written_get);
    lemma_lookup_upsert(r.headers, content_length_name(), decimal(r.final_body().len()), content_type_name());
}

/// A request carrying `Connection: close` gets a response that carries it
/// too.
pub proof fn lemma_close_echoed(q: RequestView, file: Option<Seq<u8>>, written: bool)
    requires
        wants_close_spec(q.headers),
    ensures
        lookup(reply(q, file, written).finalized().headers, "Connection".spec_bytes()) == Some(
            "close".spec_bytes(),
        ),
{
    lemma_names_distinct();
    let r = reply(q, file, written);
    let base = match q.method {
        HttpMethod::Get => crate::router::get_response(q, file),
        HttpMethod::Post => crate::router::post_response(q, written),
    };
    lemma_lookup_upsert(base.headers, "Connection".spec_bytes(), "close".spec_bytes(), "Connection".spec_bytes());
    lemma_lookup_upsert(
        r.headers,
        content_length_name(),
        decimal(r.final_body().len()),
        "Connection".spec_bytes(),
    );
}

/// A method and path outside the routing table are answered `404` with an
/// empty body.
pub proof fn lemma_unknown_route(q: RequestView, file: Option<Seq<u8>>, written: bool)
    requires
        !routed(q),
    ensures
        reply(q, file, written).finalized().status_code == 404,
        reply(q, file, written).finalized().final_body() == Seq::<u8>::empty(),
{
}

} // verus!
