//! The HTTP/1.1 side of the upgrade handshake: parsing the inbound
//! request, building the response, and the handshake decision.

use vstd::prelude::*;
use vstd::slice::{slice_subrange, slice_to_vec};
use vstd::string::StringSliceAdditionalSpecFns;
use crate::accept::{hash_websocket_key, spec_accept_key};
use crate::ascii::{
    append_bytes,
    bytes_eq,
    dec_bytes,
    find_byte,
    lemma_find_props,
    lower_bytes,
    spec_dec,
    spec_find,
    spec_trim,
    to_lower,
    trim,
};

verus! {

/// The request method, as far as this server distinguishes it.
#[derive(Copy, Clone, PartialEq, Eq, Structural, Debug)]
pub enum Method {
    Get,
    Other,
}

/// Why a request could not be parsed: the request line misses a
/// method or URI token.
#[derive(Copy, Clone, PartialEq, Eq, Structural, Debug)]
pub enum HttpError {
    MalformedRequest,
}

/// The mathematical content of a parsed request.
pub ghost struct RequestModel {
    pub method: Method,
    pub uri: Seq<u8>,
    pub headers: Seq<(Seq<u8>, Seq<u8>)>,
}

/// A parsed upgrade request: the method, the case-folded URI, and
/// the headers, each name lower-cased and trimmed, each value
/// trimmed, the last occurrence of a name winning.
pub struct Request {
    pub method: Method,
    pub uri: Vec<u8>,
    pub headers: Vec<(Vec<u8>, Vec<u8>)>,
}

/// The mathematical content of a header list.
pub open spec fn spec_headers_view(h: Seq<(Vec<u8>, Vec<u8>)>) -> Seq<(Seq<u8>, Seq<u8>)> {
    h.map(|i: int, p: (Vec<u8>, Vec<u8>)| (p.0@, p.1@))
}

impl View for Request {
    type V = RequestModel;

    open spec fn view(&self) -> RequestModel {
        RequestModel {
            method: self.method,
            uri: self.uri@,
            headers: spec_headers_view(self.headers@),
        }
    }
}

/// The position of the first entry holding the key at or after
/// `from`, or the list's length when none does.
pub open spec fn spec_key_index(hs: Seq<(Seq<u8>, Seq<u8>)>, key: Seq<u8>, from: int) -> int
    decreases hs.len() - from,
{
    if from >= hs.len() {
        hs.len() as int
    } else if hs[from].0 == key {
        from
    } else {
        spec_key_index(hs, key, from + 1)
    }
}

/// `spec_key_index` stays within bounds, lands on the key, and
/// skips no entry holding it.
pub proof fn lemma_key_index_props(hs: Seq<(Seq<u8>, Seq<u8>)>, key: Seq<u8>, from: int)
    requires
        0 <= from <= hs.len(),
    ensures
        from <= spec_key_index(hs, key, from) <= hs.len(),
        spec_key_index(hs, key, from) < hs.len() ==> hs[spec_key_index(hs, key, from)].0 == key,
        forall|j: int| from <= j < spec_key_index(hs, key, from) ==> hs[j].0 != key,
    decreases hs.len() - from,
{
    if from < hs.len() && hs[from].0 != key {
        lemma_key_index_props(hs, key, from + 1);
    }
}

/// Whether the header list maps the key to something.
pub open spec fn spec_has_key(hs: Seq<(Seq<u8>, Seq<u8>)>, key: Seq<u8>) -> bool {
    spec_key_index(hs, key, 0) < hs.len()
}

/// The value the header list maps the key to.
pub open spec fn spec_header_value(hs: Seq<(Seq<u8>, Seq<u8>)>, key: Seq<u8>) -> Seq<u8> {
    hs[spec_key_index(hs, key, 0)].1
}

/// The header list after mapping the key to the value: the first
/// entry holding the key is replaced, or a new entry is appended.
pub open spec fn spec_insert_header(
    hs: Seq<(Seq<u8>, Seq<u8>)>,
    key: Seq<u8>,
    value: Seq<u8>,
) -> Seq<(Seq<u8>, Seq<u8>)> {
    let i = spec_key_index(hs, key, 0);
    if i < hs.len() {
        hs.update(i, (key, value))
    } else {
        hs.push((key, value))
    }
}

/// The position of the first entry holding the key, or the list's
/// length when none does.
fn header_index(headers: &Vec<(Vec<u8>, Vec<u8>)>, key: &[u8]) -> (r: usize)
    ensures
        r as int == spec_key_index(spec_headers_view(headers@), key@, 0),
{
    let ghost hv = spec_headers_view(headers@);
    let mut i: usize = 0;
    while i < headers.len()
        invariant
            0 <= i <= headers.len(),
            hv == spec_headers_view(headers@),
            hv.len() == headers@.len(),
            spec_key_index(hv, key@, 0) == spec_key_index(hv, key@, i as int),
        decreases headers.len() - i,
    {
        assert(hv[i as int] == (headers@[i as int].0@, headers@[i as int].1@));
        if bytes_eq(headers[i].0.as_slice(), key) {
            return i;
        }
        assert(spec_key_index(hv, key@, i as int) == spec_key_index(hv, key@, i as int + 1));
        i = i + 1;
    }
    headers.len()
}

/// Whether the header list holds the key.
pub fn header_contains(headers: &Vec<(Vec<u8>, Vec<u8>)>, key: &[u8]) -> (r: bool)
    ensures
        r == spec_has_key(spec_headers_view(headers@), key@),
{
    let i = header_index(headers, key);
    i < headers.len()
}

/// The value the header list maps the key to, if any.
pub fn header_lookup(headers: &Vec<(Vec<u8>, Vec<u8>)>, key: &[u8]) -> (r: Option<Vec<u8>>)
    ensures
        (r is Some) == spec_has_key(spec_headers_view(headers@), key@),
        r is Some ==> r->Some_0@ == spec_header_value(spec_headers_view(headers@), key@),
{
    let i = header_index(headers, key);
    if i < headers.len() {
        assert(spec_headers_view(headers@)[i as int] == (
            headers@[i as int].0@,
            headers@[i as int].1@,
        ));
        Some(slice_to_vec(headers[i].1.as_slice()))
    } else {
        None
    }
}

/// Maps the key to the value in the header list: replaces the first
/// entry holding the key, or appends a new entry.
fn insert_header(headers: &mut Vec<(Vec<u8>, Vec<u8>)>, key: Vec<u8>, value: Vec<u8>)
    ensures
        spec_headers_view(final(headers)@) == spec_insert_header(
            spec_headers_view(old(headers)@),
            key@,
            value@,
        ),
{
    let ghost hv = spec_headers_view(headers@);
    let i = header_index(headers, key.as_slice());
    proof {
        lemma_key_index_props(hv, key@, 0);
    }
    if i < headers.len() {
        headers.remove(i);
        headers.insert(i, (key, value));
        assert(headers@ =~= old(headers)@.update(i as int, headers@[i as int]));
        assert(spec_headers_view(headers@) =~= spec_insert_header(hv, key@, value@));
    } else {
        headers.push((key, value));
        assert(spec_headers_view(headers@) =~= spec_insert_header(hv, key@, value@));
    }
}

/// The line starting at `p`: the bytes up to the next line feed or
/// the input's end, without a carriage return that preceded the
/// line feed.
pub open spec fn spec_line_at(s: Seq<u8>, p: int) -> Seq<u8> {
    let e = spec_find(s, p, 10);
    let raw = s.subrange(p, e);
    if e < s.len() && raw.len() > 0 && raw.last() == 13 {
        raw.drop_last()
    } else {
        raw
    }
}

/// `spec_find` never comes back before where it started.
pub proof fn lemma_find_ge(s: Seq<u8>, from: int, b: u8)
    requires
        from <= s.len(),
    ensures
        spec_find(s, from, b) >= from,
        spec_find(s, from, b) <= s.len(),
    decreases s.len() - from,
{
    if from < s.len() && s[from] != b {
        lemma_find_ge(s, from + 1, b);
    }
}

/// The headers read from the lines starting at `p`, added to `acc`:
/// reading stops at an empty line or the input's end, a line without
/// a colon is skipped, and any other line adds its trimmed,
/// lower-cased name and trimmed value.
pub open spec fn spec_parse_headers(
    s: Seq<u8>,
    p: int,
    acc: Seq<(Seq<u8>, Seq<u8>)>,
) -> Seq<(Seq<u8>, Seq<u8>)>
    decreases s.len() + 1 - p,
    via spec_parse_headers_dec
{
    if p >= s.len() {
        acc
    } else {
        let line = spec_line_at(s, p);
        if line.len() == 0 {
            acc
        } else {
            let nxt = spec_find(s, p, 10) + 1;
            let colon = spec_find(line, 0, 58);
            if colon < line.len() {
                spec_parse_headers(
                    s,
                    nxt,
                    spec_insert_header(
                        acc,
                        lower_bytes(spec_trim(line.subrange(0, colon))),
                        spec_trim(line.subrange(colon + 1, line.len() as int)),
                    ),
                )
            } else {
                spec_parse_headers(s, nxt, acc)
            }
        }
    }
}

#[via_fn]
proof fn spec_parse_headers_dec(s: Seq<u8>, p: int, acc: Seq<(Seq<u8>, Seq<u8>)>) {
    if p < s.len() {
        lemma_find_ge(s, p, 10);
    }
}

/// Relies on std::str::from_utf8: it accepts exactly the byte
/// strings that are valid UTF-8.
#[verifier::external_body]
fn utf8_valid(bytes: &[u8]) -> (r: bool)
    ensures
        r == vstd::utf8::valid_utf8(bytes@),
{
    match std::str::from_utf8(bytes) {
        Ok(_) => true,
        Err(_) => false,
    }
}

/// The request denoted by a byte buffer: the first line as
/// `METHOD SP URI`, case-folded before splitting, then the header
/// lines; input that is not valid text, or whose request line
/// misses one of its two tokens, denotes no request.
pub open spec fn spec_parse_request(input: Seq<u8>) -> Result<RequestModel, HttpError> {
    if !vstd::utf8::valid_utf8(input) {
        Err(HttpError::MalformedRequest)
    } else if input.len() == 0 {
        Ok(RequestModel { method: Method::Other, uri: Seq::empty(), headers: Seq::empty() })
    } else {
        let line0 = lower_bytes(spec_line_at(input, 0));
        let sp = spec_find(line0, 0, 32);
        if sp == line0.len() {
            Err(HttpError::MalformedRequest)
        } else {
            let uri_end = spec_find(line0, sp + 1, 32);
            let method = if line0.subrange(0, sp) == "get".spec_bytes() {
                Method::Get
            } else {
                Method::Other
            };
            Ok(
                RequestModel {
                    method,
                    uri: line0.subrange(sp + 1, uri_end),
                    headers: spec_parse_headers(input, spec_find(input, 0, 10) + 1, Seq::empty()),
                },
            )
        }
    }
}

/// Copies the line starting at `p`, without its terminator and
/// without a carriage return before the terminator.
fn read_line(v: &[u8], p: usize) -> (r: Vec<u8>)
    requires
        p <= v@.len(),
    ensures
        r@ == spec_line_at(v@, p as int),
{
    let e = find_byte(v, p, 10);
    proof {
        lemma_find_props(v@, p as int, 10);
    }
    let mut line: Vec<u8> = Vec::new();
    let mut k: usize = p;
    while k < e
        invariant
            p <= k <= e <= v@.len(),
            line@ == v@.subrange(p as int, k as int),
        decreases e - k,
    {
        line.push(v[k]);
        assert(line@ =~= v@.subrange(p as int, k as int + 1));
        k = k + 1;
    }
    if e < v.len() && line.len() > 0 {
        if line[line.len() - 1] == 13 {
            line.pop();
            assert(line@ =~= v@.subrange(p as int, e as int).drop_last());
        }
    }
    line
}

/// Parses a raw upgrade request. The request line is case-folded
/// before it is split, so the URI comes back lower-cased; header
/// lines without a colon are skipped; the body is ignored. Fails
/// exactly when the input is not valid UTF-8, or is non-empty with
/// no space in its first line to separate a method token from a
/// URI token.
pub fn parse_request(bytes: &[u8]) -> (r: Result<Request, HttpError>)
    ensures
        (r is Ok) == (spec_parse_request(bytes@) is Ok),
        r is Ok ==> r->Ok_0@ == spec_parse_request(bytes@)->Ok_0,
        r is Err ==> r->Err_0 == spec_parse_request(bytes@)->Err_0,
{
    if !utf8_valid(bytes) {
        return Err(HttpError::MalformedRequest);
    }
    if bytes.len() == 0 {
        let r = Request { method: Method::Other, uri: Vec::new(), headers: Vec::new() };
        assert(r@.headers =~= Seq::<(Seq<u8>, Seq<u8>)>::empty());
        assert(r@.uri =~= Seq::<u8>::empty());
        return Ok(r);
    }
    let line0_raw = read_line(bytes, 0);
    let line0 = to_lower(line0_raw.as_slice());
    let sp = find_byte(line0.as_slice(), 0, 32);
    if sp == line0.len() {
        return Err(HttpError::MalformedRequest);
    }
    proof {
        lemma_find_props(line0@, 0, 32);
    }
    let method_token = slice_subrange(line0.as_slice(), 0, sp);
    let method = if bytes_eq(method_token, "get".as_bytes()) {
        Method::Get
    } else {
        Method::Other
    };
    let uri_end = find_byte(line0.as_slice(), sp + 1, 32);
    proof {
        lemma_find_props(line0@, sp as int + 1, 32);
    }
    let uri = slice_to_vec(slice_subrange(line0.as_slice(), sp + 1, uri_end));

    let mut headers: Vec<(Vec<u8>, Vec<u8>)> = Vec::new();
    assert(spec_headers_view(headers@) =~= Seq::<(Seq<u8>, Seq<u8>)>::empty());
    let e0 = find_byte(bytes, 0, 10);
    proof {
        lemma_find_props(bytes@, 0, 10);
    }
    let ghost start: int = e0 as int + 1;
    if e0 < bytes.len() {
        let mut p: usize = e0 + 1;
        loop
            invariant_except_break
                p <= bytes@.len(),
                bytes@.len() <= usize::MAX,
                spec_parse_headers(bytes@, start, Seq::empty()) == spec_parse_headers(
                    bytes@,
                    p as int,
                    spec_headers_view(headers@),
                ),
            ensures
                spec_parse_headers(bytes@, start, Seq::empty()) == spec_headers_view(headers@),
            decreases bytes@.len() - p,
        {
            if p >= bytes.len() {
                assert(spec_parse_headers(bytes@, p as int, spec_headers_view(headers@))
                    == spec_headers_view(headers@));
                break;
            }
            let line = read_line(bytes, p);
            if line.len() == 0 {
                assert(spec_parse_headers(bytes@, p as int, spec_headers_view(headers@))
                    == spec_headers_view(headers@));
                break;
            }
            let colon = find_byte(line.as_slice(), 0, 58);
            proof {
                lemma_find_props(line@, 0, 58);
            }
            let ghost acc0 = spec_headers_view(headers@);
            if colon < line.len() {
                let key_raw = trim(slice_subrange(line.as_slice(), 0, colon));
                let key = to_lower(key_raw.as_slice());
                let value = trim(slice_subrange(line.as_slice(), colon + 1, line.len()));
                insert_header(&mut headers, key, value);
            }
            let e = find_byte(bytes, p, 10);
            proof {
                lemma_find_props(bytes@, p as int, 10);
                if colon < line@.len() {
                    assert(spec_parse_headers(bytes@, p as int, acc0) == spec_parse_headers(
                        bytes@,
                        e as int + 1,
                        spec_insert_header(
                            acc0,
                            lower_bytes(spec_trim(line@.subrange(0, colon as int))),
                            spec_trim(line@.subrange(colon as int + 1, line@.len() as int)),
                        ),
                    ));
                } else {
                    assert(spec_parse_headers(bytes@, p as int, acc0) == spec_parse_headers(
                        bytes@,
                        e as int + 1,
                        acc0,
                    ));
                }
            }
            if e >= bytes.len() {
                proof {
                    let hv2 = spec_headers_view(headers@);
                    assert(e as int + 1 > bytes@.len());
                    assert(spec_parse_headers(bytes@, e as int + 1, hv2) == hv2);
                }
                break;
            }
            p = e + 1;
        }
    } else {
        assert(spec_parse_headers(bytes@, start, Seq::empty())
            == Seq::<(Seq<u8>, Seq<u8>)>::empty());
    }
    let r = Request { method, uri, headers };
    assert(r@ == spec_parse_request(bytes@)->Ok_0);
    Ok(r)
}

/// A response under construction: status, header map, body.
pub struct ResponseBuilder {
    pub status_code: u16,
    pub headers: Vec<(Vec<u8>, Vec<u8>)>,
    pub body: Vec<u8>,
}

/// The mathematical content of a response under construction.
pub ghost struct ResponseModel {
    pub status: u16,
    pub headers: Seq<(Seq<u8>, Seq<u8>)>,
    pub body: Seq<u8>,
}

impl View for ResponseBuilder {
    type V = ResponseModel;

    open spec fn view(&self) -> ResponseModel {
        ResponseModel {
            status: self.status_code,
            headers: spec_headers_view(self.headers@),
            body: self.body@,
        }
    }
}

/// The reason phrase of a status code; the table is deliberately
/// small, every other code renders as `Unknown`.
pub open spec fn spec_reason(code: u16) -> Seq<u8> {
    if code == 200 {
        "Ok".spec_bytes()
    } else if code == 101 {
        "Switching protocols".spec_bytes()
    } else if code == 404 {
        "Bad Request".spec_bytes()
    } else {
        "Unknown".spec_bytes()
    }
}

/// The serialized header block: one `name: value` line per entry,
/// in the order the list holds them.
pub open spec fn spec_header_block(hs: Seq<(Seq<u8>, Seq<u8>)>) -> Seq<u8>
    decreases hs.len(),
{
    if hs.len() == 0 {
        Seq::empty()
    } else {
        spec_header_block(hs.drop_last()) + hs.last().0 + ": ".spec_bytes() + hs.last().1
            + "\r\n".spec_bytes()
    }
}

/// The serialized response: status line, header lines, a
/// `Content-Length` line only when the body is non-empty, a blank
/// line, then the body.
pub open spec fn spec_response_bytes(m: ResponseModel) -> Seq<u8> {
    "HTTP/1.1 ".spec_bytes() + spec_dec(m.status as int) + " ".spec_bytes() + spec_reason(m.status)
        + "\r\n".spec_bytes() + spec_header_block(m.headers) + (if m.body.len() > 0 {
        "Content-Length: ".spec_bytes() + spec_dec(m.body.len() as int) + "\r\n".spec_bytes()
    } else {
        Seq::empty()
    }) + "\r\n".spec_bytes() + m.body
}

impl ResponseBuilder {
    /// A fresh response: status 200, no headers, empty body.
    pub fn new() -> (r: ResponseBuilder)
        ensures
            r@.status == 200,
            r@.headers == Seq::<(Seq<u8>, Seq<u8>)>::empty(),
            r@.body == Seq::<u8>::empty(),
    {
        let r = ResponseBuilder { status_code: 200, headers: Vec::new(), body: Vec::new() };
        assert(r@.headers =~= Seq::<(Seq<u8>, Seq<u8>)>::empty());
        assert(r@.body =~= Seq::<u8>::empty());
        r
    }

    /// Sets the status code.
    pub fn status(self, status_code: u16) -> (r: ResponseBuilder)
        ensures
            r@.status == status_code,
            r@.headers == self@.headers,
            r@.body == self@.body,
    {
        ResponseBuilder { status_code, headers: self.headers, body: self.body }
    }

    /// Adds a header; the name is lower-cased, and a header of the
    /// same name is overwritten.
    pub fn add_header(self, key: &[u8], value: &[u8]) -> (r: ResponseBuilder)
        ensures
            r@.status == self@.status,
            r@.headers == spec_insert_header(self@.headers, lower_bytes(key@), value@),
            r@.body == self@.body,
    {
        let k = to_lower(key);
        let v = slice_to_vec(value);
        let mut headers = self.headers;
        insert_header(&mut headers, k, v);
        ResponseBuilder { status_code: self.status_code, headers, body: self.body }
    }

    /// Sets the body.
    pub fn set_body(self, body: &[u8]) -> (r: ResponseBuilder)
        ensures
            r@.status == self@.status,
            r@.headers == self@.headers,
            r@.body == body@,
    {
        ResponseBuilder {
            status_code: self.status_code,
            headers: self.headers,
            body: slice_to_vec(body),
        }
    }

    /// Serializes the header block: one `name: value` line per
    /// stored header, in insertion order.
    fn stringify_headers(&self) -> (r: Vec<u8>)
        ensures
            r@ == spec_header_block(self@.headers),
    {
        let mut out: Vec<u8> = Vec::new();
        let ghost hv = self@.headers;
        let mut i: usize = 0;
        assert(hv.subrange(0, 0) =~= Seq::<(Seq<u8>, Seq<u8>)>::empty());
        while i < self.headers.len()
            invariant
                0 <= i <= self.headers.len(),
                hv == self@.headers,
                hv.len() == self.headers@.len(),
                out@ == spec_header_block(hv.subrange(0, i as int)),
            decreases self.headers.len() - i,
        {
            assert(hv[i as int] == (self.headers@[i as int].0@, self.headers@[i as int].1@));
            append_bytes(&mut out, self.headers[i].0.as_slice());
            append_bytes(&mut out, ": ".as_bytes());
            append_bytes(&mut out, self.headers[i].1.as_slice());
            append_bytes(&mut out, "\r\n".as_bytes());
            proof {
                let pre = hv.subrange(0, i as int + 1);
                assert(pre.drop_last() =~= hv.subrange(0, i as int));
                assert(pre.last() == hv[i as int]);
                assert(out@ =~= spec_header_block(pre));
            }
            i = i + 1;
        }
        assert(hv.subrange(0, hv.len() as int) =~= hv);
        out
    }

    /// Serializes the response to the bytes sent on the wire.
    pub fn to_string(&self) -> (r: Vec<u8>)
        ensures
            r@ == spec_response_bytes(self@),
    {
        let mut out: Vec<u8> = Vec::new();
        append_bytes(&mut out, "HTTP/1.1 ".as_bytes());
        let digits = dec_bytes(self.status_code as u64);
        append_bytes(&mut out, digits.as_slice());
        append_bytes(&mut out, " ".as_bytes());
        let reason: &str = if self.status_code == 200 {
            "Ok"
        } else if self.status_code == 101 {
            "Switching protocols"
        } else if self.status_code == 404 {
            "Bad Request"
        } else {
            "Unknown"
        };
        append_bytes(&mut out, reason.as_bytes());
        append_bytes(&mut out, "\r\n".as_bytes());
        let header_block = self.stringify_headers();
        append_bytes(&mut out, header_block.as_slice());
        if self.body.len() > 0 {
            append_bytes(&mut out, "Content-Length: ".as_bytes());
            let len_digits = dec_bytes(self.body.len() as u64);
            append_bytes(&mut out, len_digits.as_slice());
            append_bytes(&mut out, "\r\n".as_bytes());
        }
        append_bytes(&mut out, "\r\n".as_bytes());
        append_bytes(&mut out, self.body.as_slice());
        assert(out@ =~= spec_response_bytes(self@));
        out
    }
}

/// What the handshake decided: start a WebSocket session after
/// sending the response bytes, or send them and close.
pub enum HandshakeOutcome {
    StartSession(Vec<u8>),
    RejectAndClose(Vec<u8>),
}

/// A header list holding only the fixed `Server` header.
pub open spec fn spec_server_only_headers() -> Seq<(Seq<u8>, Seq<u8>)> {
    spec_insert_header(
        Seq::empty(),
        lower_bytes("Server".spec_bytes()),
        "Deezy".spec_bytes(),
    )
}

/// The response to a request that could not be parsed.
pub open spec fn spec_malformed_response() -> Seq<u8> {
    spec_response_bytes(
        ResponseModel { status: 400, headers: spec_server_only_headers(), body: Seq::empty() },
    )
}

/// The response to a request whose method is not GET.
pub open spec fn spec_other_method_response() -> Seq<u8> {
    spec_response_bytes(
        ResponseModel { status: 200, headers: spec_server_only_headers(), body: Seq::empty() },
    )
}

/// The response to an upgrade request that carries no key.
pub open spec fn spec_no_key_response() -> Seq<u8> {
    spec_response_bytes(
        ResponseModel { status: 404, headers: spec_server_only_headers(), body: Seq::empty() },
    )
}

/// The plain greeting response to a GET without upgrade headers.
pub open spec fn spec_greeting_response() -> Seq<u8> {
    spec_response_bytes(
        ResponseModel {
            status: 200,
            headers: spec_insert_header(
                spec_server_only_headers(),
                lower_bytes("Content-Type".spec_bytes()),
                "text/plain".spec_bytes(),
            ),
            body: "Hello from Deezy server!".spec_bytes(),
        },
    )
}

/// The switching-protocols response for a client key.
pub open spec fn spec_switch_response(key: Seq<u8>) -> Seq<u8> {
    spec_response_bytes(
        ResponseModel {
            status: 101,
            headers: spec_insert_header(
                spec_insert_header(
                    spec_insert_header(
                        Seq::empty(),
                        lower_bytes("Upgrade".spec_bytes()),
                        "websocket".spec_bytes(),
                    ),
                    lower_bytes("Connection".spec_bytes()),
                    "Upgrade".spec_bytes(),
                ),
                lower_bytes("Sec-Websocket-Accept".spec_bytes()),
                spec_accept_key(key),
            ),
            body: Seq::empty(),
        },
    )
}

/// The handshake decision for a raw request: whether a session
/// starts, and the response bytes owed either way.
pub open spec fn spec_handshake(input: Seq<u8>) -> (bool, Seq<u8>) {
    match spec_parse_request(input) {
        Err(_) => (false, spec_malformed_response()),
        Ok(req) => {
            if req.method != Method::Get {
                (false, spec_other_method_response())
            } else if spec_has_key(req.headers, "upgrade".spec_bytes()) && spec_has_key(
                req.headers,
                "connection".spec_bytes(),
            ) {
                if spec_has_key(req.headers, "sec-websocket-key".spec_bytes()) {
                    (
                        true,
                        spec_switch_response(
                            spec_header_value(req.headers, "sec-websocket-key".spec_bytes()),
                        ),
                    )
                } else {
                    (false, spec_no_key_response())
                }
            } else {
                (false, spec_greeting_response())
            }
        },
    }
}

/// Decides one upgrade handshake: a GET with `upgrade` and
/// `connection` headers and a `sec-websocket-key` starts a session
/// behind a 101 response carrying the accept key; everything else,
/// a malformed request included, is answered and closed.
pub fn handle_handshake(buf: &[u8]) -> (r: HandshakeOutcome)
    ensures
        (r is StartSession) == spec_handshake(buf@).0,
        r matches HandshakeOutcome::StartSession(resp) ==> resp@ == spec_handshake(buf@).1,
        r matches HandshakeOutcome::RejectAndClose(resp) ==> resp@ == spec_handshake(buf@).1,
{
    match parse_request(buf) {
        Err(_) => {
            let resp = ResponseBuilder::new().status(400).add_header(
                "Server".as_bytes(),
                "Deezy".as_bytes(),
            ).to_string();
            HandshakeOutcome::RejectAndClose(resp)
        },
        Ok(request) => {
            match request.method {
                Method::Get => {
                    let is_upgrade = header_contains(&request.headers, "upgrade".as_bytes())
                        && header_contains(&request.headers, "connection".as_bytes());
                    if is_upgrade {
                        match header_lookup(&request.headers, "sec-websocket-key".as_bytes()) {
                            Some(websocket_key) => {
                                let accept = hash_websocket_key(websocket_key.as_slice());
                                let resp = ResponseBuilder::new().status(101).add_header(
                                    "Upgrade".as_bytes(),
                                    "websocket".as_bytes(),
                                ).add_header(
                                    "Connection".as_bytes(),
                                    "Upgrade".as_bytes(),
                                ).add_header(
                                    "Sec-Websocket-Accept".as_bytes(),
                                    accept.as_slice(),
                                ).to_string();
                                HandshakeOutcome::StartSession(resp)
                            },
                            None => {
                                let resp = ResponseBuilder::new().status(404).add_header(
                                    "Server".as_bytes(),
                                    "Deezy".as_bytes(),
                                ).to_string();
                                HandshakeOutcome::RejectAndClose(resp)
                            },
                        }
                    } else {
                        let resp = ResponseBuilder::new().status(200).add_header(
                            "Server".as_bytes(),
                            "Deezy".as_bytes(),
                        ).add_header(
                            "Content-Type".as_bytes(),
                            "text/plain".as_bytes(),
                        ).set_body("Hello from Deezy server!".as_bytes()).to_string();
                        HandshakeOutcome::RejectAndClose(resp)
                    }
                },
                Method::Other => {
                    let resp = ResponseBuilder::new().add_header(
                        "Server".as_bytes(),
                        "Deezy".as_bytes(),
                    ).to_string();
                    HandshakeOutcome::RejectAndClose(resp)
                },
            }
        },
    }
}

} // verus!
