//! HTTP/1.1 responses and their wire form.
use vstd::prelude::*;
use vstd::string::StringSliceAdditionalSpecFns;
use vstd::utf8::encode_utf8;
use crate::common::status::{status_text, status_text_of};
use crate::http::parser::pair_views;
use crate::io::buffer::IoBuffer;
use crate::num::{
    dec_repr, lemma_dec_repr_digits, lemma_dec_repr_parses, parse_unsigned, u64_to_string,
};
use crate::sse::{sse_channel, SseReceiver, SseStream};
use crate::text::{chars_of, eq_ignore_ascii_case, eq_ignore_case, to_owned_string};

verus! {

/// A response under construction or ready to be written.
#[derive(Debug)]
pub struct Response {
    pub status: u16,
    pub headers: Vec<(String, String)>,
    pub body: Vec<u8>,
    pub keep_alive: bool,
    pub sse: Option<SseReceiver>,
}

/// Some header is a `Content-Length` header.
pub open spec fn has_content_length(h: Seq<(Seq<char>, Seq<char>)>) -> bool {
    exists|i: int| 0 <= i < h.len() && eq_ignore_case(#[trigger] h[i].0, "content-length"@)
}

/// The header lines of `h`, leaving out `Connection` headers.
pub open spec fn header_block(h: Seq<(Seq<char>, Seq<char>)>) -> Seq<u8>
    decreases h.len(),
{
    if h.len() == 0 {
        Seq::empty()
    } else {
        header_block(h.drop_last()) + if eq_ignore_case(h.last().0, "connection"@) {
            Seq::empty()
        } else {
            encode_utf8(h.last().0) + encode_utf8(": "@) + encode_utf8(h.last().1) + encode_utf8(
                "\r\n"@,
            )
        }
    }
}

/// The status line of a response.
pub open spec fn status_line_bytes(status: u16) -> Seq<u8> {
    encode_utf8("HTTP/1.1 "@) + encode_utf8(status_text_of(status)) + encode_utf8("\r\n"@)
}

/// The connection header lines of a response.
pub open spec fn connection_bytes(keep_alive: bool) -> Seq<u8> {
    if keep_alive {
        encode_utf8("Connection: keep-alive\r\n"@) + encode_utf8(
            "Keep-Alive: timeout=60, max=10000\r\n"@,
        )
    } else {
        encode_utf8("Connection: close\r\n"@)
    }
}

/// The `Content-Length` line added for a non-empty body when no header sets
/// the length.
pub open spec fn length_bytes(h: Seq<(Seq<char>, Seq<char>)>, body: Seq<u8>) -> Seq<u8> {
    if body.len() > 0 && !has_content_length(h) {
        encode_utf8("Content-Length: "@) + encode_utf8(dec_repr(body.len())) + encode_utf8("\r\n"@)
    } else {
        Seq::empty()
    }
}

/// The bytes of a response on the wire.
pub open spec fn response_bytes(
    status: u16,
    keep_alive: bool,
    h: Seq<(Seq<char>, Seq<char>)>,
    body: Seq<u8>,
) -> Seq<u8> {
    status_line_bytes(status) + connection_bytes(keep_alive) + length_bytes(h, body) + header_block(
        h,
    ) + encode_utf8("\r\n"@) + body
}

/// The head of an event-stream response on the wire.
pub open spec fn sse_head_bytes(h: Seq<(Seq<char>, Seq<char>)>) -> Seq<u8> {
    encode_utf8("HTTP/1.1 200 OK\r\n"@) + encode_utf8("Connection: keep-alive\r\n"@) + header_block(h)
        + encode_utf8("\r\n"@)
}

/// A new header pair.
fn header_pair(k: &str, v: &str) -> (r: (String, String))
    ensures
        r.0@ == k@,
        r.1@ == v@,
{
    (to_owned_string(k), to_owned_string(v))
}

/// The bytes of a string slice.
fn str_bytes(s: &str) -> (r: Vec<u8>)
    ensures
        r@ == encode_utf8(s@),
{
    vstd::slice::slice_to_vec(s.as_bytes())
}

impl Response {
    /// An empty response with `status` that keeps the connection alive.
    pub fn new(status: u16) -> (r: Self)
        ensures
            r.status == status,
            r.headers@.len() == 0,
            r.body@.len() == 0,
            r.keep_alive,
            r.sse is None,
    {
        Response { status, headers: Vec::new(), body: Vec::new(), keep_alive: true, sse: None }
    }

    pub fn ok() -> (r: Self)
        ensures
            r.status == 200,
            r.headers@.len() == 0,
            r.body@.len() == 0,
            r.keep_alive,
            r.sse is None,
    {
        Self::new(200)
    }

    pub fn created() -> (r: Self)
        ensures
            r.status == 201,
            r.headers@.len() == 0,
            r.body@.len() == 0,
            r.keep_alive,
            r.sse is None,
    {
        Self::new(201)
    }

    pub fn no_content() -> (r: Self)
        ensures
            r.status == 204,
            r.headers@.len() == 0,
            r.body@.len() == 0,
            r.keep_alive,
            r.sse is None,
    {
        Self::new(204)
    }

    pub fn bad_request() -> (r: Self)
        ensures
            r.status == 400,
            r.headers@.len() == 0,
            r.body@.len() == 0,
            r.keep_alive,
            r.sse is None,
    {
        Self::new(400)
    }

    pub fn not_found() -> (r: Self)
        ensures
            r.status == 404,
            r.headers@.len() == 0,
            r.body@.len() == 0,
            r.keep_alive,
            r.sse is None,
    {
        Self::new(404)
    }

    pub fn internal_error() -> (r: Self)
        ensures
            r.status == 500,
            r.headers@.len() == 0,
            r.body@.len() == 0,
            r.keep_alive,
            r.sse is None,
    {
        Self::new(500)
    }

    /// Adds a header.
    pub fn header(self, key: &str, value: &str) -> (r: Self)
        ensures
            r.status == self.status,
            pair_views(r.headers@) == pair_views(self.headers@).push((key@, value@)),
            r.body == self.body,
            r.keep_alive == self.keep_alive,
            r.sse == self.sse,
    {
        let mut s = self;
        let ghost hv = pair_views(s.headers@);
        s.headers.push(header_pair(key, value));
        assert(pair_views(s.headers@) =~= hv.push((key@, value@)));
        s
    }

    /// Replaces the body.
    pub fn body(self, body: Vec<u8>) -> (r: Self)
        ensures
            r.status == self.status,
            r.headers == self.headers,
            r.body == body,
            r.keep_alive == self.keep_alive,
            r.sse == self.sse,
    {
        let mut s = self;
        s.body = body;
        s
    }

    /// Turns keep-alive on or off.
    pub fn keep_alive(self, enabled: bool) -> (r: Self)
        ensures
            r.status == self.status,
            r.headers == self.headers,
            r.body == self.body,
            r.keep_alive == enabled,
            r.sse == self.sse,
    {
        let mut s = self;
        s.keep_alive = enabled;
        s
    }

    /// A plain-text body, with a `Content-Type: text/plain` header.
    pub fn text(self, text: &str) -> (r: Self)
        ensures
            r.status == self.status,
            r.body@ == encode_utf8(text@),
            pair_views(r.headers@) == pair_views(self.headers@).push(
                ("Content-Type"@, "text/plain"@),
            ),
            r.keep_alive == self.keep_alive,
            r.sse == self.sse,
    {
        let mut s = self;
        s.body = str_bytes(text);
        let ghost hv = pair_views(s.headers@);
        s.headers.push(header_pair("Content-Type", "text/plain"));
        assert(pair_views(s.headers@) =~= hv.push(("Content-Type"@, "text/plain"@)));
        s
    }

    /// An HTML body, with a `Content-Type: text/html` header.
    pub fn html(self, html: &str) -> (r: Self)
        ensures
            r.status == self.status,
            r.body@ == encode_utf8(html@),
            pair_views(r.headers@) == pair_views(self.headers@).push(
                ("Content-Type"@, "text/html"@),
            ),
            r.keep_alive == self.keep_alive,
            r.sse == self.sse,
    {
        let mut s = self;
        s.body = str_bytes(html);
        let ghost hv = pair_views(s.headers@);
        s.headers.push(header_pair("Content-Type", "text/html"));
        assert(pair_views(s.headers@) =~= hv.push(("Content-Type"@, "text/html"@)));
        s
    }

    /// A JSON body given as its serialized bytes, or, when serialization
    /// failed, status 500 and an error object; either way with a
    /// `Content-Type: application/json` header.
    pub fn json_bytes(self, serialized: Option<Vec<u8>>) -> (r: Self)
        ensures
            r.status == if serialized is Some {
                self.status
            } else {
                500
            },
            r.body@ == match serialized {
                Some(b) => b@,
                None => encode_utf8("{\"error\":\"serialization failed\"}"@),
            },
            pair_views(r.headers@) == pair_views(self.headers@).push(
                ("Content-Type"@, "application/json"@),
            ),
            r.keep_alive == self.keep_alive,
            r.sse == self.sse,
    {
        let mut s = self;
        match serialized {
            Some(b) => {
                s.body = b;
            },
            None => {
                s.status = 500;
                s.body = str_bytes("{\"error\":\"serialization failed\"}");
            },
        }
        let ghost hv = pair_views(s.headers@);
        s.headers.push(header_pair("Content-Type", "application/json"));
        assert(pair_views(s.headers@) =~= hv.push(("Content-Type"@, "application/json"@)));
        s
    }

    /// An event-stream response and the stream its handler sends events on.
    pub fn sse() -> (r: (Self, SseStream))
        ensures
            r.0.status == 200,
            pair_views(r.0.headers@) == seq![
                ("Content-Type"@, "text/event-stream"@),
                ("Cache-Control"@, "no-cache"@),
                ("X-Accel-Buffering"@, "no"@),
            ],
            r.0.body@.len() == 0,
            r.0.keep_alive,
            r.0.sse is Some,
    {
        let (receiver, stream) = sse_channel();
        let mut resp = Self::new(200);
        resp.headers.push(header_pair("Content-Type", "text/event-stream"));
        resp.headers.push(header_pair("Cache-Control", "no-cache"));
        resp.headers.push(header_pair("X-Accel-Buffering", "no"));
        resp.keep_alive = true;
        resp.sse = Some(receiver);
        assert(pair_views(resp.headers@) =~= seq![
            ("Content-Type"@, "text/event-stream"@),
            ("Cache-Control"@, "no-cache"@),
            ("X-Accel-Buffering"@, "no"@),
        ]);
        (resp, stream)
    }

    /// The status line text for `status`.
    pub fn status_text(status: u16) -> (r: &'static str)
        ensures
            r@ == status_text_of(status),
    {
        status_text(status)
    }

    /// Appends the header lines, leaving out `Connection` headers.
    fn write_header_lines(&self, buf: &mut IoBuffer)
        ensures
            final(buf)@ == old(buf)@ + header_block(pair_views(self.headers@)),
    {
        let ghost hv = pair_views(self.headers@);
        let conn = chars_of("connection");
        let ghost start = buf@;
        let mut i: usize = 0;
        while i < self.headers.len()
            invariant
                i <= self.headers@.len(),
                hv == pair_views(self.headers@),
                conn@ == "connection"@,
                buf@ == start + header_block(hv.take(i as int)),
            decreases self.headers.len() - i,
        {
            let ghost prev = buf@;
            assert(hv.take(i + 1).drop_last() =~= hv.take(i as int));
            assert(hv.take(i + 1).last() == hv[i as int]);
            let kc = chars_of(self.headers[i].0.as_str());
            if !eq_ignore_ascii_case(&kc, &conn) {
                buf.extend_from_slice(self.headers[i].0.as_str().as_bytes());
                buf.extend_from_slice(": ".as_bytes());
                buf.extend_from_slice(self.headers[i].1.as_str().as_bytes());
                buf.extend_from_slice("\r\n".as_bytes());
                assert(buf@ =~= prev + (encode_utf8(hv[i as int].0) + encode_utf8(": "@)
                    + encode_utf8(hv[i as int].1) + encode_utf8("\r\n"@)));
            } else {
                assert(buf@ =~= prev + Seq::<u8>::empty());
            }
            assert(buf@ =~= start + header_block(hv.take(i + 1)));
            i = i + 1;
        }
        assert(hv.take(self.headers@.len() as int) =~= hv);
    }

    /// Whether some header is a `Content-Length` header.
    fn has_content_length_header(&self) -> (r: bool)
        ensures
            r == has_content_length(pair_views(self.headers@)),
    {
        let ghost hv = pair_views(self.headers@);
        let cl = chars_of("content-length");
        let mut i: usize = 0;
        while i < self.headers.len()
            invariant
                i <= self.headers@.len(),
                hv == pair_views(self.headers@),
                cl@ == "content-length"@,
                forall|j: int| 0 <= j < i ==> !eq_ignore_case(#[trigger] hv[j].0, "content-length"@),
            decreases self.headers.len() - i,
        {
            let kc = chars_of(self.headers[i].0.as_str());
            if eq_ignore_ascii_case(&kc, &cl) {
                assert(eq_ignore_case(hv[i as int].0, "content-length"@));
                return true;
            }
            i = i + 1;
        }
        false
    }

    /// Writes the head of an event-stream response.
    pub fn write_sse_headers(&self, buf: &mut IoBuffer)
        ensures
            final(buf)@ == old(buf)@ + sse_head_bytes(pair_views(self.headers@)),
    {
        let ghost start = buf@;
        buf.extend_from_slice("HTTP/1.1 200 OK\r\n".as_bytes());
        buf.extend_from_slice("Connection: keep-alive\r\n".as_bytes());
        let ghost mid = buf@;
        self.write_header_lines(buf);
        buf.extend_from_slice("\r\n".as_bytes());
        assert(buf@ =~= start + sse_head_bytes(pair_views(self.headers@)));
    }

    /// Writes the status line.
    fn write_status_line(&self, buf: &mut IoBuffer)
        ensures
            final(buf)@ == old(buf)@ + status_line_bytes(self.status),
    {
        buf.extend_from_slice("HTTP/1.1 ".as_bytes());
        buf.extend_from_slice(status_text(self.status).as_bytes());
        buf.extend_from_slice("\r\n".as_bytes());
        assert(buf@ =~= old(buf)@ + status_line_bytes(self.status));
    }

    /// Writes the connection header lines.
    fn write_connection(&self, buf: &mut IoBuffer)
        ensures
            final(buf)@ == old(buf)@ + connection_bytes(self.keep_alive),
    {
        if self.keep_alive {
            buf.extend_from_slice("Connection: keep-alive\r\n".as_bytes());
            buf.extend_from_slice("Keep-Alive: timeout=60, max=10000\r\n".as_bytes());
        } else {
            buf.extend_from_slice("Connection: close\r\n".as_bytes());
        }
        assert(buf@ =~= old(buf)@ + connection_bytes(self.keep_alive));
    }

    /// Writes the `Content-Length` line when one is owed.
    fn write_length(&self, buf: &mut IoBuffer)
        ensures
            final(buf)@ == old(buf)@ + length_bytes(pair_views(self.headers@), self.body@),
    {
        let has_cl = self.has_content_length_header();
        if self.body.len() > 0 && !has_cl {
            buf.extend_from_slice("Content-Length: ".as_bytes());
            let n = u64_to_string(self.body.len() as u64);
            buf.extend_from_slice(n.as_str().as_bytes());
            buf.extend_from_slice("\r\n".as_bytes());
        }
        assert(buf@ =~= old(buf)@ + length_bytes(pair_views(self.headers@), self.body@));
    }

    /// Writes the whole response: status line, connection headers, a
    /// `Content-Length` when the body is not empty and none is set, the
    /// other headers, and the body.
    pub fn write_to(&self, buf: &mut IoBuffer)
        ensures
            final(buf)@ == old(buf)@ + response_bytes(
                self.status,
                self.keep_alive,
                pair_views(self.headers@),
                self.body@,
            ),
    {
        match self.body.len().checked_add(4096) {
            Some(n) => if n <= usize::MAX - buf.len() {
                buf.reserve(n)
            },
            None => {},
        }
        let ghost start = buf@;
        self.write_status_line(buf);
        self.write_connection(buf);
        self.write_length(buf);
        self.write_header_lines(buf);
        let ghost s4 = buf@;
        buf.extend_from_slice("\r\n".as_bytes());
        buf.extend_from_slice(self.body.as_slice());
        assert(buf@ =~= start + response_bytes(
            self.status,
            self.keep_alive,
            pair_views(self.headers@),
            self.body@,
        ));
    }
}

/// The `Content-Length` the writer adds is the body's length in decimal:
/// for a non-empty body and headers that set no length, the added line is
/// `Content-Length: ` then a run of decimal digits that reads back, in base
/// 10, as the body's length, then CRLF; otherwise nothing is added. This is
/// the line `Response::write_to` puts between the connection line and the
/// other headers (`response_bytes`).
pub proof fn lemma_content_length_decimal(h: Seq<(Seq<char>, Seq<char>)>, body: Seq<u8>)
    requires
        body.len() <= usize::MAX,
    ensures
        body.len() > 0 && !has_content_length(h) ==> exists|v: Seq<char>|
            #![trigger parse_unsigned(v, 10, usize::MAX as nat)]
            {
                &&& length_bytes(h, body) == encode_utf8("Content-Length: "@) + encode_utf8(v)
                    + encode_utf8("\r\n"@)
                &&& v.len() >= 1
                &&& forall|i: int| 0 <= i < v.len() ==> '0' <= #[trigger] v[i] <= '9'
                &&& parse_unsigned(v, 10, usize::MAX as nat) == Some(body.len())
            },
        body.len() == 0 || has_content_length(h) ==> length_bytes(h, body) == Seq::<u8>::empty(),
{
    let v = dec_repr(body.len());
    lemma_dec_repr_digits(body.len());
    lemma_dec_repr_parses(body.len(), usize::MAX as nat);
    if body.len() > 0 && !has_content_length(h) {
        assert(parse_unsigned(v, 10, usize::MAX as nat) == Some(body.len()));
    }
}

} // verus!
