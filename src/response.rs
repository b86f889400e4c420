//! Building a response and turning it into wire bytes.

use vstd::prelude::*;
use vstd::string::StringSliceAdditionalSpecFns;

use crate::bytes::{append_bytes, copy_range};
use crate::headers::{upsert, HeaderSeq, Headers};
use crate::request::{colon_space, crlf};

verus! {

/// A content encoding applied to the body when the response is finalized.
#[derive(Clone, Copy, Debug, PartialEq, Eq, Structural)]
pub enum Encoding {
    Gzip,
}

/// The token that names an encoding in `Content-Encoding`.
pub open spec fn encoding_name(e: Encoding) -> Seq<u8> {
    match e {
        Encoding::Gzip => "gzip".spec_bytes(),
    }
}

impl Encoding {
    /// The token that names this encoding.
    pub fn as_str(&self) -> (r: &'static str)
        ensures
            r.spec_bytes() == encoding_name(*self),
    {
        match self {
            Encoding::Gzip => "gzip",
        }
    }

    /// The token that names this encoding, as an owned string.
    pub fn to_string(&self) -> (r: String)
        ensures
            match self {
                Encoding::Gzip => r@ == "gzip"@,
            },
    {
        match self {
            Encoding::Gzip => "gzip".to_owned(),
        }
    }
}

/// The gzip stream (flate2's default level, default header) of `data`.
pub uninterp spec fn gzip_of(data: Seq<u8>) -> Seq<u8>;

/// Relies on flate2's `GzEncoder::new` with `Compression::default()`,
/// `write_all` and `finish`: the gzip stream of `data`. Its header carries no
/// time stamp and a fixed system byte, so the output depends on `data` alone.
/// Writing into a `Vec` does not fail.
#[verifier::external_body]
fn gzip(data: &[u8]) -> (r: Vec<u8>)
    ensures
        r@ == gzip_of(data@),
{
    let mut encoder = flate2::write::GzEncoder::new(Vec::new(), flate2::Compression::default());
    std::io::Write::write_all(&mut encoder, data).unwrap();
    encoder.finish().unwrap()
}

/// The decimal digits of `n`, most significant first.
pub open spec fn decimal(n: nat) -> Seq<u8>
    decreases n,
{
    if n < 10 {
        seq![(48 + n) as u8]
    } else {
        decimal(n / 10).push((48 + n % 10) as u8)
    }
}

/// Appends the decimal digits of `n` to `out`.
pub fn push_decimal(out: &mut Vec<u8>, n: u64)
    ensures
        final(out)@ == old(out)@ + decimal(n as nat),
    decreases n,
{
    if n < 10 {
        out.push((48 + n) as u8);
        assert(final(out)@ =~= old(out)@ + decimal(n as nat));
    } else {
        push_decimal(out, n / 10);
        out.push((48 + n % 10) as u8);
        assert(out@ =~= old(out)@ + decimal(n as nat));
    }
}

/// The decimal digits of `n`.
pub fn decimal_bytes(n: u64) -> (r: Vec<u8>)
    ensures
        r@ == decimal(n as nat),
{
    let mut r: Vec<u8> = Vec::new();
    push_decimal(&mut r, n);
    assert(r@ =~= decimal(n as nat));
    r
}

/// What a response holds, as byte sequences.
pub struct ResponseView {
    pub status_code: u64,
    pub status: Seq<u8>,
    pub headers: HeaderSeq,
    pub content: Seq<u8>,
    pub encoding: Option<Encoding>,
}

/// A response with the given status line, no headers, no body, no encoding.
pub open spec fn fresh(status_code: u64, status: Seq<u8>) -> ResponseView {
    ResponseView {
        status_code,
        status,
        headers: Seq::empty(),
        content: Seq::empty(),
        encoding: None,
    }
}

/// The header name `Content-Type`.
pub open spec fn content_type_name() -> Seq<u8> {
    "Content-Type".spec_bytes()
}

/// The header name `Content-Length`.
pub open spec fn content_length_name() -> Seq<u8> {
    "Content-Length".spec_bytes()
}

/// The header name `Content-Encoding`.
pub open spec fn content_encoding_name() -> Seq<u8> {
    "Content-Encoding".spec_bytes()
}

impl ResponseView {
    /// This response with header `k` set to `v`.
    pub open spec fn with_header(self, k: Seq<u8>, v: Seq<u8>) -> ResponseView {
        ResponseView { headers: upsert(self.headers, k, v), ..self }
    }

    /// This response with body `c`, its `Content-Type` and a provisional
    /// `Content-Length`.
    pub open spec fn with_content(self, c: Seq<u8>, content_type: Seq<u8>) -> ResponseView {
        let r = self.with_header(content_type_name(), content_type).with_header(
            content_length_name(),
            decimal(c.len()),
        );
        ResponseView { content: c, ..r }
    }

    /// This response marked for encoding `e`.
    pub open spec fn with_encoding(self, e: Encoding) -> ResponseView {
        let r = self.with_header(content_encoding_name(), encoding_name(e));
        ResponseView { encoding: Some(e), ..r }
    }

    /// The body as sent: the content, encoded if an encoding is set.
    pub open spec fn final_body(self) -> Seq<u8> {
        match self.encoding {
            Some(Encoding::Gzip) => gzip_of(self.content),
            None => self.content,
        }
    }

    /// This response with `Content-Length` set to the length of the body as
    /// sent.
    pub open spec fn finalized(self) -> ResponseView {
        self.with_header(content_length_name(), decimal(self.final_body().len()))
    }
}

/// The header block: each entry as `name: value\r\n`, in order.
pub open spec fn headers_wire(hs: HeaderSeq) -> Seq<u8>
    decreases hs.len(),
{
    if hs.len() == 0 {
        Seq::empty()
    } else {
        headers_wire(hs.drop_last()) + hs.last().0 + colon_space() + hs.last().1 + crlf()
    }
}

/// The bytes of a response on the wire: status line, headers, a blank line,
/// then the body as sent.
pub open spec fn wire(r: ResponseView) -> Seq<u8> {
    "HTTP/1.1 ".spec_bytes() + decimal(r.status_code as nat) + space_byte() + r.status + crlf()
        + headers_wire(r.headers) + crlf() + r.final_body()
}

/// `" "`.
pub open spec fn space_byte() -> Seq<u8> {
    seq![32u8]
}

/// A response under construction.
pub struct HttpResponse {
    status_code: u64,
    status: Vec<u8>,
    headers: Headers,
    content: Vec<u8>,
    encoding: Option<Encoding>,
}

impl View for HttpResponse {
    type V = ResponseView;

    closed spec fn view(&self) -> ResponseView {
        ResponseView {
            status_code: self.status_code,
            status: self.status@,
            headers: self.headers@,
            content: self.content@,
            encoding: self.encoding,
        }
    }
}

/// A copy of the bytes of `s`.
fn str_bytes(s: &str) -> (r: Vec<u8>)
    ensures
        r@ == s.spec_bytes(),
{
    let b = s.as_bytes();
    let r = copy_range(b, 0, b.len());
    assert(b@.subrange(0, b@.len() as int) =~= b@);
    r
}

impl HttpResponse {
    /// A response with the given status line, no headers, no body.
    pub fn new(status_code: u64, status: &str) -> (r: HttpResponse)
        ensures
            r@ == fresh(status_code, status.spec_bytes()),
    {
        HttpResponse {
            status_code,
            status: str_bytes(status),
            headers: Headers::new(),
            content: Vec::new(),
            encoding: None,
        }
    }

    /// The status code.
    pub fn status_code(&self) -> (r: u64)
        ensures
            r == self@.status_code,
    {
        self.status_code
    }

    /// The reason phrase.
    pub fn status(&self) -> (r: &Vec<u8>)
        ensures
            r@ == self@.status,
    {
        &self.status
    }

    /// The body before any encoding.
    pub fn content(&self) -> (r: &Vec<u8>)
        ensures
            r@ == self@.content,
    {
        &self.content
    }

    /// The encoding that finalizing will apply.
    pub fn encoding(&self) -> (r: Option<Encoding>)
        ensures
            r == self@.encoding,
    {
        self.encoding
    }

    /// The value of header `k`, if set.
    pub fn header(&self, k: &str) -> (r: Option<&Vec<u8>>)
        ensures
            match r {
                Some(v) => crate::headers::lookup(self@.headers, k.spec_bytes()) == Some(v@),
                None => crate::headers::lookup(self@.headers, k.spec_bytes()) == None::<Seq<u8>>,
            },
    {
        self.headers.get(k.as_bytes())
    }

    fn set_header(&mut self, k: Vec<u8>, v: Vec<u8>)
        ensures
            final(self)@ == old(self)@.with_header(k@, v@),
    {
        self.headers.insert(k, v);
    }

    /// Sets header `key` to `value`, overwriting an earlier value.
    pub fn add_header(&mut self, key: &str, value: &str)
        ensures
            final(self)@ == old(self)@.with_header(key.spec_bytes(), value.spec_bytes()),
    {
        self.set_header(str_bytes(key), str_bytes(value));
    }

    /// Sets the body with its `Content-Type` and `Content-Length`.
    pub fn set_content(&mut self, content: Vec<u8>, content_type: &str)
        ensures
            final(self)@ == old(self)@.with_content(content@, content_type.spec_bytes()),
    {
        self.set_header(str_bytes("Content-Type"), str_bytes(content_type));
        self.set_header(str_bytes("Content-Length"), decimal_bytes(content.len() as u64));
        self.content = content;
    }

    /// Marks the body for encoding and announces it in `Content-Encoding`.
    pub fn set_encoding(&mut self, encoding: Encoding)
        ensures
            final(self)@ == old(self)@.with_encoding(encoding),
    {
        self.add_header("Content-Encoding", encoding.as_str());
        self.encoding = Some(encoding);
    }

    /// The body as it will be sent: the content, gzip-compressed when that
    /// encoding is set.
    pub fn format_content(&self) -> (r: Vec<u8>)
        ensures
            r@ == self@.final_body(),
    {
        match self.encoding {
            Some(Encoding::Gzip) => gzip(self.content.as_slice()),
            None => copy_range(self.content.as_slice(), 0, self.content.len()),
        }
    }

    /// The header block, each entry as `name: value\r\n`.
    fn format_headers(&self) -> (r: Vec<u8>)
        ensures
            r@ == headers_wire(self@.headers),
    {
        let mut out: Vec<u8> = Vec::new();
        let sep: Vec<u8> = vec![58u8, 32u8];
        let eol: Vec<u8> = vec![13u8, 10u8];
        assert(sep@ =~= colon_space());
        assert(eol@ =~= crlf());
        let mut i: usize = 0;
        while i < self.headers.len()
            invariant
                i <= self@.headers.len(),
                sep@ == colon_space(),
                eol@ == crlf(),
                out@ == headers_wire(self@.headers.subrange(0, i as int)),
            decreases self@.headers.len() - i,
        {
            let (k, v) = self.headers.entry(i);
            append_bytes(&mut out, k.as_slice());
            append_bytes(&mut out, sep.as_slice());
            append_bytes(&mut out, v.as_slice());
            append_bytes(&mut out, eol.as_slice());
            assert(self@.headers.subrange(0, i + 1).drop_last() =~= self@.headers.subrange(0, i as int));
            i = i + 1;
        }
        assert(self@.headers.subrange(0, i as int) =~= self@.headers);
        out
    }

    /// Finalizes the response: encodes the body if asked, sets
    /// `Content-Length` to the length of the body as sent, and returns the
    /// wire bytes.
    pub fn to_bytes(&mut self) -> (r: Vec<u8>)
        ensures
            final(self)@ == old(self)@.finalized(),
            r@ == wire(final(self)@),
    {
        let content = self.format_content();
        self.set_header(str_bytes("Content-Length"), decimal_bytes(content.len() as u64));
        let mut bytes = str_bytes("HTTP/1.1 ");
        push_decimal(&mut bytes, self.status_code);
        bytes.push(32u8);
        append_bytes(&mut bytes, self.status.as_slice());
        bytes.push(13u8);
        bytes.push(10u8);
        let hs = self.format_headers();
        append_bytes(&mut bytes, hs.as_slice());
        bytes.push(13u8);
        bytes.push(10u8);
        append_bytes(&mut bytes, content.as_slice());
        assert(bytes@ =~= wire(self@));
        bytes
    }
}

} // verus!
