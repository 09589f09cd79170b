//! HTTP/1.x messages: their structure, their wire form, and how a byte
//! buffer is framed into them.
use vstd::prelude::*;
use httparse::{Error as HeadError, Status, EMPTY_HEADER};
use self::HeadStatus::{Complete, Invalid, Partial};
use crate::wire::{
    append_bytes, append_text, ascii_lower, crlf, decimal, decimal_value, parse_decimal,
    push_decimal, same_name, text, text_eq_ignore_case,
};

verus! {

/// A request: method, raw target path, minor protocol version (`1` for
/// HTTP/1.1, `0` for HTTP/1.0), the header pairs in the order received, and the
/// body.
#[derive(Debug)]
pub struct HttpRequest {
    pub method: String,
    pub path: String,
    pub version: u8,
    pub headers: Vec<(String, String)>,
    pub body: Vec<u8>,
}

/// A response: minor protocol version, status code, reason phrase, the header
/// pairs in order, and the body.
#[derive(Debug)]
pub struct HttpResponse {
    pub version: u8,
    pub code: u16,
    pub reason: String,
    pub headers: Vec<(String, String)>,
    pub body: Vec<u8>,
}

/// Why a buffer does not frame into a message. `Incomplete` only asks for
/// more bytes; the others are protocol violations.
#[derive(Debug, Clone, Copy, PartialEq, Eq, Structural)]
pub enum ParseError {
    Incomplete,
    MalformedStartLine,
    MalformedHeader,
    TooManyHeaders,
    UnsupportedFraming,
}

/// The most header lines a message may carry.
pub const MAX_HEADERS: usize = 64;

/// Header pairs as text.
pub open spec fn headers_view(h: Seq<(String, String)>) -> Seq<(Seq<char>, Seq<char>)> {
    h.map_values(|p: (String, String)| (p.0@, p.1@))
}

pub struct RequestView {
    pub method: Seq<char>,
    pub path: Seq<char>,
    pub version: u8,
    pub headers: Seq<(Seq<char>, Seq<char>)>,
    pub body: Seq<u8>,
}

pub struct ResponseView {
    pub version: u8,
    pub code: u16,
    pub reason: Seq<char>,
    pub headers: Seq<(Seq<char>, Seq<char>)>,
    pub body: Seq<u8>,
}

impl View for HttpRequest {
    type V = RequestView;

    open spec fn view(&self) -> RequestView {
        RequestView {
            method: self.method@,
            path: self.path@,
            version: self.version,
            headers: headers_view(self.headers@),
            body: self.body@,
        }
    }
}

impl View for HttpResponse {
    type V = ResponseView;

    open spec fn view(&self) -> ResponseView {
        ResponseView {
            version: self.version,
            code: self.code,
            reason: self.reason@,
            headers: headers_view(self.headers@),
            body: self.body@,
        }
    }
}

/// `name: value` and a line end.
pub open spec fn header_line(h: (Seq<char>, Seq<char>)) -> Seq<u8> {
    text(h.0) + seq![58u8, 32u8] + text(h.1) + crlf()
}

/// The header lines, in order.
pub open spec fn header_lines(hs: Seq<(Seq<char>, Seq<char>)>) -> Seq<u8>
    decreases hs.len(),
{
    if hs.len() == 0 {
        seq![]
    } else {
        header_lines(hs.drop_last()) + header_line(hs.last())
    }
}

/// `HTTP/1.` and the minor version.
pub open spec fn version_text(v: u8) -> Seq<u8> {
    seq![72u8, 84u8, 84u8, 80u8, 47u8, 49u8, 46u8] + decimal(v as nat)
}

impl RequestView {
    pub open spec fn start_line(self) -> Seq<u8> {
        text(self.method) + seq![32u8] + text(self.path) + seq![32u8] + version_text(self.version)
            + crlf()
    }

    /// Start line, header lines and the blank line.
    pub open spec fn head_bytes(self) -> Seq<u8> {
        self.start_line() + header_lines(self.headers) + crlf()
    }

    pub open spec fn wire_bytes(self) -> Seq<u8> {
        self.head_bytes() + self.body
    }
}

impl ResponseView {
    pub open spec fn status_line(self) -> Seq<u8> {
        version_text(self.version) + seq![32u8] + decimal(self.code as nat) + seq![32u8] + text(
            self.reason,
        ) + crlf()
    }

    pub open spec fn head_bytes(self) -> Seq<u8> {
        self.status_line() + header_lines(self.headers) + crlf()
    }

    pub open spec fn wire_bytes(self) -> Seq<u8> {
        self.head_bytes() + self.body
    }
}

fn append_version(buf: &mut Vec<u8>, v: u8)
    ensures
        final(buf)@ == old(buf)@ + version_text(v),
{
    buf.push(72);
    buf.push(84);
    buf.push(84);
    buf.push(80);
    buf.push(47);
    buf.push(49);
    buf.push(46);
    push_decimal(buf, v as u64);
    assert(buf@ =~= old(buf)@ + version_text(v));
}

fn append_crlf(buf: &mut Vec<u8>)
    ensures
        final(buf)@ == old(buf)@ + crlf(),
{
    buf.push(13);
    buf.push(10);
    assert(buf@ =~= old(buf)@ + crlf());
}

/// Writes each header as `name: value` and a line end, in order.
fn append_headers(buf: &mut Vec<u8>, headers: &Vec<(String, String)>)
    ensures
        final(buf)@ == old(buf)@ + header_lines(headers_view(headers@)),
{
    let ghost start = buf@;
    let ghost hv = headers_view(headers@);
    let mut i: usize = 0;
    while i < headers.len()
        invariant
            i <= headers@.len(),
            hv == headers_view(headers@),
            buf@ == start + header_lines(hv.take(i as int)),
        decreases headers@.len() - i,
    {
        let ghost before = buf@;
        append_text(buf, headers[i].0.as_str());
        buf.push(58);
        buf.push(32);
        append_text(buf, headers[i].1.as_str());
        append_crlf(buf);
        assert(hv.take(i + 1).drop_last() =~= hv.take(i as int));
        assert(buf@ =~= before + header_line(hv[i as int]));
        i = i + 1;
    }
    assert(hv.take(i as int) =~= hv);
}


/// `content-length`, `transfer-encoding`, `connection`, `close`, `keep-alive`
/// as lower-case bytes.
pub open spec fn content_length_name() -> Seq<u8> {
    seq![99u8, 111, 110, 116, 101, 110, 116, 45, 108, 101, 110, 103, 116, 104]
}

pub open spec fn transfer_encoding_name() -> Seq<u8> {
    seq![116u8, 114, 97, 110, 115, 102, 101, 114, 45, 101, 110, 99, 111, 100, 105, 110, 103]
}

pub open spec fn connection_name() -> Seq<u8> {
    seq![99u8, 111, 110, 110, 101, 99, 116, 105, 111, 110]
}

pub open spec fn close_token() -> Seq<u8> {
    seq![99u8, 108, 111, 115, 101]
}

pub open spec fn keep_alive_token() -> Seq<u8> {
    seq![107u8, 101, 101, 112, 45, 97, 108, 105, 118, 101]
}

fn content_length_lit() -> (r: Vec<u8>)
    ensures
        r@ == content_length_name(),
{
    let r = vec![99u8, 111, 110, 116, 101, 110, 116, 45, 108, 101, 110, 103, 116, 104];
    assert(r@ =~= content_length_name());
    r
}

fn transfer_encoding_lit() -> (r: Vec<u8>)
    ensures
        r@ == transfer_encoding_name(),
{
    let r = vec![116u8, 114, 97, 110, 115, 102, 101, 114, 45, 101, 110, 99, 111, 100, 105, 110, 103];
    assert(r@ =~= transfer_encoding_name());
    r
}

fn connection_lit() -> (r: Vec<u8>)
    ensures
        r@ == connection_name(),
{
    let r = vec![99u8, 111, 110, 110, 101, 99, 116, 105, 111, 110];
    assert(r@ =~= connection_name());
    r
}

fn close_lit() -> (r: Vec<u8>)
    ensures
        r@ == close_token(),
{
    let r = vec![99u8, 108, 111, 115, 101];
    assert(r@ =~= close_token());
    r
}

fn keep_alive_lit() -> (r: Vec<u8>)
    ensures
        r@ == keep_alive_token(),
{
    let r = vec![107u8, 101, 101, 112, 45, 97, 108, 105, 118, 101];
    assert(r@ =~= keep_alive_token());
    r
}

/// Text whose bytes equal the lower-case word `w` up to ASCII case.
pub open spec fn is_word(s: Seq<char>, w: Seq<u8>) -> bool {
    ascii_lower(text(s)) == w
}

/// The value of the first header whose name is `name` up to ASCII case.
pub open spec fn header_value(hs: Seq<(Seq<char>, Seq<char>)>, name: Seq<u8>) -> Option<Seq<char>>
    decreases hs.len(),
{
    if hs.len() == 0 {
        None
    } else if is_word(hs[0].0, name) {
        Some(hs[0].1)
    } else {
        header_value(hs.drop_first(), name)
    }
}

/// How many body bytes follow the head: none without `Content-Length`, the
/// value of the first `Content-Length` otherwise. A transfer coding cannot be
/// framed here.
pub open spec fn body_length(hs: Seq<(Seq<char>, Seq<char>)>) -> Result<nat, ParseError> {
    if header_value(hs, transfer_encoding_name()) is Some {
        Err(ParseError::UnsupportedFraming)
    } else {
        match header_value(hs, content_length_name()) {
            None => Ok(0),
            Some(v) => match decimal_value(text(v)) {
                Some(n) => Ok(n),
                None => Err(ParseError::MalformedHeader),
            },
        }
    }
}

/// Whether the connection persists after a message of this version with these
/// headers: `Connection: close` ends it, `Connection: keep-alive` keeps it,
/// otherwise HTTP/1.1 keeps it and HTTP/1.0 ends it.
pub open spec fn keeps_alive(version: u8, hs: Seq<(Seq<char>, Seq<char>)>) -> bool {
    match header_value(hs, connection_name()) {
        Some(v) => if is_word(v, close_token()) {
            false
        } else if is_word(v, keep_alive_token()) {
            true
        } else {
            version >= 1
        },
        None => version >= 1,
    }
}

fn is_lower_word(s: &String, w: &Vec<u8>) -> (r: bool)
    requires
        ascii_lower(w@) == w@,
    ensures
        r == is_word(s@, w@),
{
    crate::wire::eq_ignore_case(s.as_str().as_bytes(), w.as_slice())
}

/// Position of the first header named `name` (a lower-case word), up to ASCII
/// case.
fn find_header(headers: &Vec<(String, String)>, name: &Vec<u8>) -> (r: Option<usize>)
    requires
        ascii_lower(name@) == name@,
    ensures
        match header_value(headers_view(headers@), name@) {
            None => r is None,
            Some(v) => r matches Some(i) && i < headers@.len() && headers@[i as int].1@ == v,
        },
{
    let ghost hv = headers_view(headers@);
    let mut i: usize = 0;
    assert(hv.subrange(0, hv.len() as int) =~= hv);
    while i < headers.len()
        invariant
            i <= headers@.len(),
            hv == headers_view(headers@),
            ascii_lower(name@) == name@,
            header_value(hv, name@) == header_value(hv.subrange(i as int, hv.len() as int), name@),
        decreases headers@.len() - i,
    {
        assert(hv.subrange(i as int, hv.len() as int).drop_first() =~= hv.subrange(
            i + 1,
            hv.len() as int,
        ));
        if is_lower_word(&headers[i].0, name) {
            return Some(i);
        }
        i = i + 1;
    }
    None
}

/// The body length that the headers announce.
pub fn body_length_of(headers: &Vec<(String, String)>) -> (r: Result<usize, ParseError>)
    ensures
        match body_length(headers_view(headers@)) {
            Ok(n) => r == Ok::<usize, ParseError>(n as usize),
            Err(e) => r == Err::<usize, ParseError>(e),
        },
{
    let te = transfer_encoding_lit();
    assert(ascii_lower(te@) =~= te@);
    if find_header(headers, &te).is_some() {
        return Err(ParseError::UnsupportedFraming);
    }
    let cl = content_length_lit();
    assert(ascii_lower(cl@) =~= cl@);
    match find_header(headers, &cl) {
        None => Ok(0),
        Some(i) => match parse_decimal(headers[i].1.as_str().as_bytes()) {
            Some(n) => Ok(n),
            None => Err(ParseError::MalformedHeader),
        },
    }
}

/// The keep-alive policy: whether the connection persists after a message of
/// minor version `version` carrying `headers`.
pub fn should_keep_alive(version: u8, headers: &Vec<(String, String)>) -> (r: bool)
    ensures
        r == keeps_alive(version, headers_view(headers@)),
{
    let c = connection_lit();
    assert(ascii_lower(c@) =~= c@);
    match find_header(headers, &c) {
        None => version >= 1,
        Some(i) => {
            let close = close_lit();
            let keep = keep_alive_lit();
            assert(ascii_lower(close@) =~= close@);
            assert(ascii_lower(keep@) =~= keep@);
            if is_lower_word(&headers[i].1, &close) {
                false
            } else if is_lower_word(&headers[i].1, &keep) {
                true
            } else {
                version >= 1
            }
        },
    }
}


/// A token character: letters, digits and ``!#$%&'*+-.^_`|~``.
pub open spec fn is_tchar(c: char) -> bool {
    ('a' <= c <= 'z') || ('A' <= c <= 'Z') || ('0' <= c <= '9') || c == '!' || c == '#' || c
        == '$' || c == '%' || c == '&' || c == '\'' || c == '*' || c == '+' || c == '-' || c == '.'
        || c == '^' || c == '_' || c == '`' || c == '|' || c == '~'
}

pub open spec fn is_token(s: Seq<char>) -> bool {
    s.len() > 0 && forall|i: int| 0 <= i < s.len() ==> is_tchar(#[trigger] s[i])
}

/// A request target: visible ASCII characters, at least one.
pub open spec fn is_target(s: Seq<char>) -> bool {
    s.len() > 0 && forall|i: int| 0 <= i < s.len() ==> '!' <= #[trigger] s[i] <= '~'
}

/// A header value: printable ASCII, neither starting nor ending with a space.
pub open spec fn is_field_value(s: Seq<char>) -> bool {
    &&& forall|i: int| 0 <= i < s.len() ==> ' ' <= #[trigger] s[i] <= '~'
    &&& s.len() > 0 ==> s[0] != ' ' && s.last() != ' '
}

/// A reason phrase: tabs and printable ASCII.
pub open spec fn is_reason(s: Seq<char>) -> bool {
    forall|i: int| 0 <= i < s.len() ==> #[trigger] s[i] == '\t' || (' ' <= s[i] <= '~')
}

pub open spec fn well_formed_headers(hs: Seq<(Seq<char>, Seq<char>)>) -> bool {
    &&& hs.len() <= MAX_HEADERS
    &&& forall|i: int| 0 <= i < hs.len() ==> is_token(#[trigger] hs[i].0) && is_field_value(hs[i].1)
}

impl RequestView {
    /// The fields can be written on the wire and read back unchanged.
    pub open spec fn head_well_formed(self) -> bool {
        is_token(self.method) && is_target(self.path) && self.version <= 1 && well_formed_headers(
            self.headers,
        )
    }

    /// A well-formed head whose headers announce exactly the body.
    pub open spec fn valid(self) -> bool {
        self.head_well_formed() && body_length(self.headers) == Ok::<nat, ParseError>(
            self.body.len(),
        )
    }

    pub open spec fn with_body(self, body: Seq<u8>) -> RequestView {
        RequestView {
            method: self.method,
            path: self.path,
            version: self.version,
            headers: self.headers,
            body,
        }
    }
}

/// Frames the body that follows a head of `head_len` bytes in `buf`.
pub open spec fn frame_request(head: RequestView, head_len: nat, buf: Seq<u8>) -> Result<
    (RequestView, nat),
    ParseError,
> {
    match body_length(head.headers) {
        Err(e) => Err(e),
        Ok(n) => if buf.len() < head_len + n {
            Err(ParseError::Incomplete)
        } else {
            Ok((head.with_body(buf.subrange(head_len as int, (head_len + n) as int)), head_len + n))
        },
    }
}

pub open spec fn request_outcome(r: Result<(HttpRequest, usize), ParseError>) -> Result<
    (RequestView, nat),
    ParseError,
> {
    match r {
        Ok((req, n)) => Ok((req@, n as nat)),
        Err(e) => Err(e),
    }
}


/// The bytes of a valid request, followed by anything, frame back into that
/// request once its head is read: the body is exactly the bytes the headers
/// announce, and the rest is left for the next request.
pub proof fn lemma_serialized_request_frames(v: RequestView, rest: Seq<u8>)
    requires
        v.valid(),
    ensures
        v.wire_bytes() + rest == v.head_bytes() + (v.body + rest),
        frame_request(v, v.head_bytes().len(), v.wire_bytes() + rest) == Ok::<(RequestView, nat), ParseError>(
            (v, v.wire_bytes().len()),
        ),
{
    let buf = v.wire_bytes() + rest;
    assert(buf =~= v.head_bytes() + (v.body + rest));
    let hl = v.head_bytes().len();
    assert(buf.subrange(hl as int, (hl + v.body.len()) as int) =~= v.body);
    assert(v.with_body(v.body) == v);
}

/// How far a head could be read.
pub enum HeadStatus<T> {
    Complete(T, usize),
    Partial,
    Invalid(ParseError),
}

/// Relies on httparse::Request::parse, given 64 header slots: on the bytes of
/// a well-formed request head followed by anything it reports the head
/// complete, with the fields as written and the head's length; on a strict
/// prefix of such bytes it asks for more; a complete head never runs past the
/// buffer.
#[verifier::external_body]
fn parse_request_head(buf: &[u8]) -> (r: HeadStatus<HttpRequest>)
    ensures
        r is Complete ==> r->Complete_1 <= buf@.len() && r->Complete_0.body@.len() == 0,
        forall|v: RequestView|
            #![trigger v.head_bytes()]
            v.head_well_formed() ==> forall|rest: Seq<u8>|
                buf@ == #[trigger] (v.head_bytes() + rest) ==> (r is Complete
                    && r->Complete_0@ == v.with_body(seq![]) && r->Complete_1 == v.head_bytes().len()),
        forall|v: RequestView|
            #![trigger v.head_bytes()]
            v.head_well_formed() ==> forall|k: int|
                0 <= k < v.head_bytes().len() && buf@ == #[trigger] v.head_bytes().take(k) ==> r is Partial,
{
    let mut slots = [EMPTY_HEADER; 64];
    let mut req = httparse::Request::new(&mut slots);
    match req.parse(buf) {
        Ok(Status::Complete(n)) => Complete(HttpRequest {
            method: req.method.unwrap_or_default().to_string(),
            path: req.path.unwrap_or_default().to_string(),
            version: req.version.unwrap_or_default(),
            headers: req.headers.iter().map(|h| (h.name.to_string(), String::from_utf8_lossy(h.value).to_string())).collect(),
            body: Vec::new(),
        }, n),
        Ok(Status::Partial) => Partial,
        Err(HeadError::TooManyHeaders) => Invalid(ParseError::TooManyHeaders),
        Err(HeadError::HeaderName | HeadError::HeaderValue) => Invalid(ParseError::MalformedHeader),
        Err(_) => Invalid(ParseError::MalformedStartLine),
    }
}


/// Some header is named `name`, up to ASCII case.
pub open spec fn has_header(hs: Seq<(Seq<char>, Seq<char>)>, name: Seq<char>) -> bool {
    exists|i: int| 0 <= i < hs.len() && same_name(#[trigger] hs[i].0, name)
}

/// The headers with the first one named `name` given `value` in its place and
/// the later ones named `name` removed.
pub open spec fn rewrite_header(hs: Seq<(Seq<char>, Seq<char>)>, name: Seq<char>, value: Seq<char>) -> Seq<
    (Seq<char>, Seq<char>),
>
    decreases hs.len(),
{
    if hs.len() == 0 {
        seq![]
    } else {
        let prev = rewrite_header(hs.drop_last(), name, value);
        let h = hs.last();
        if same_name(h.0, name) {
            if has_header(hs.drop_last(), name) {
                prev
            } else {
                prev.push((h.0, value))
            }
        } else {
            prev.push(h)
        }
    }
}

/// Replace-or-append up to ASCII case: the first header named `name` keeps its
/// place and takes `value`, and no other stays; without one, the pair is
/// appended.
pub open spec fn with_header(hs: Seq<(Seq<char>, Seq<char>)>, name: Seq<char>, value: Seq<char>) -> Seq<
    (Seq<char>, Seq<char>),
> {
    if has_header(hs, name) {
        rewrite_header(hs, name, value)
    } else {
        hs.push((name, value))
    }
}

/// Sets header `name` to `value` in `headers`, by the replace-or-append rule of
/// `with_header`.
pub fn set_header_in(headers: &mut Vec<(String, String)>, name: &str, value: &str)
    ensures
        headers_view(final(headers)@) == with_header(headers_view(old(headers)@), name@, value@),
{
    let ghost hv = headers_view(headers@);
    let mut out: Vec<(String, String)> = Vec::new();
    let mut found = false;
    let mut i: usize = 0;
    while i < headers.len()
        invariant
            i <= headers@.len(),
            hv == headers_view(headers@),
            headers_view(out@) == rewrite_header(hv.take(i as int), name@, value@),
            found == has_header(hv.take(i as int), name@),
        decreases headers@.len() - i,
    {
        proof {
            assert(hv.take(i + 1).drop_last() =~= hv.take(i as int));
            lemma_has_header_push(hv.take(i as int), hv[i as int], name@);
            assert(hv.take(i + 1) =~= hv.take(i as int).push(hv[i as int]));
        }
        if text_eq_ignore_case(headers[i].0.as_str(), name) {
            if !found {
                out.push((headers[i].0.clone(), value.to_owned()));
                found = true;
            }
        } else {
            out.push((headers[i].0.clone(), headers[i].1.clone()));
        }
        proof {
            assert(headers_view(out@) =~= rewrite_header(hv.take(i + 1), name@, value@));
        }
        i = i + 1;
    }
    assert(hv.take(i as int) =~= hv);
    if found {
        *headers = out;
    } else {
        headers.push((name.to_owned(), value.to_owned()));
        assert(headers_view(headers@) =~= hv.push((name@, value@)));
    }
}

proof fn lemma_has_header_push(
    hs: Seq<(Seq<char>, Seq<char>)>,
    h: (Seq<char>, Seq<char>),
    name: Seq<char>,
)
    ensures
        has_header(hs.push(h), name) == (has_header(hs, name) || same_name(h.0, name)),
{
    if has_header(hs, name) {
        let i = choose|i: int| 0 <= i < hs.len() && same_name(#[trigger] hs[i].0, name);
        assert(hs.push(h)[i].0 == hs[i].0);
    }
    if same_name(h.0, name) {
        assert(hs.push(h)[hs.len() as int].0 == h.0);
    }
    if has_header(hs.push(h), name) {
        let i = choose|i: int| 0 <= i < hs.push(h).len() && same_name(#[trigger] hs.push(h)[i].0, name);
        if i < hs.len() {
            assert(hs[i].0 == hs.push(h)[i].0);
        }
    }
}

proof fn lemma_rewrite_keeps_presence(hs: Seq<(Seq<char>, Seq<char>)>, name: Seq<char>, value: Seq<char>)
    ensures
        has_header(rewrite_header(hs, name, value), name) == has_header(hs, name),
    decreases hs.len(),
{
    if hs.len() > 0 {
        let prev = hs.drop_last();
        let h = hs.last();
        lemma_rewrite_keeps_presence(prev, name, value);
        assert(hs =~= prev.push(h));
        lemma_has_header_push(prev, h, name);
        let rp = rewrite_header(prev, name, value);
        lemma_has_header_push(rp, h, name);
        lemma_has_header_push(rp, (h.0, value), name);
    }
}

proof fn lemma_rewrite_without_name(hs: Seq<(Seq<char>, Seq<char>)>, name: Seq<char>, value: Seq<char>)
    requires
        !has_header(hs, name),
    ensures
        rewrite_header(hs, name, value) == hs,
    decreases hs.len(),
{
    if hs.len() > 0 {
        let prev = hs.drop_last();
        assert(hs =~= prev.push(hs.last()));
        lemma_has_header_push(prev, hs.last(), name);
        lemma_rewrite_without_name(prev, name, value);
    }
}

proof fn lemma_rewrite_twice(hs: Seq<(Seq<char>, Seq<char>)>, name: Seq<char>, value: Seq<char>)
    ensures
        rewrite_header(rewrite_header(hs, name, value), name, value) == rewrite_header(hs, name, value),
    decreases hs.len(),
{
    if hs.len() > 0 {
        let prev = hs.drop_last();
        let rp = rewrite_header(prev, name, value);
        lemma_rewrite_twice(prev, name, value);
        lemma_rewrite_keeps_presence(prev, name, value);
        let r = rewrite_header(hs, name, value);
        if r != rp {
            assert(r.drop_last() =~= rp);
        }
    }
}

/// Setting the same header to the same value twice leaves the headers as
/// setting it once.
pub proof fn lemma_set_header_idempotent(
    hs: Seq<(Seq<char>, Seq<char>)>,
    name: Seq<char>,
    value: Seq<char>,
)
    ensures
        with_header(with_header(hs, name, value), name, value) == with_header(hs, name, value),
{
    if has_header(hs, name) {
        lemma_rewrite_keeps_presence(hs, name, value);
        lemma_rewrite_twice(hs, name, value);
    } else {
        let pushed = hs.push((name, value));
        lemma_has_header_push(hs, (name, value), name);
        assert(pushed.drop_last() =~= hs);
        lemma_rewrite_without_name(hs, name, value);
    }
}

impl HttpRequest {
    /// Sets header `name` to `value`: the first header of that name (up to
    /// ASCII case) keeps its place and takes the value, later ones of that name
    /// are dropped; without one, the pair is appended.
    pub fn set_header(&mut self, name: &str, value: &str)
        ensures
            final(self)@ == (RequestView {
                headers: with_header(old(self)@.headers, name@, value@),
                ..old(self)@
            }),
    {
        set_header_in(&mut self.headers, name, value);
    }

    /// Whether the connection persists after this request.
    pub fn should_keep_alive(&self) -> (r: bool)
        ensures
            r == keeps_alive(self.version, self@.headers),
    {
        should_keep_alive(self.version, &self.headers)
    }


    /// Completes a request whose head, `head_len` bytes long, opens `buffer`:
    /// the body is the next `Content-Length` bytes, or none without that header.
    pub fn take_body(self, head_len: usize, buffer: &[u8]) -> (r: Result<(HttpRequest, usize), ParseError>)
        requires
            head_len <= buffer@.len(),
        ensures
            request_outcome(r) == frame_request(self@, head_len as nat, buffer@),
    {
        let n = match body_length_of(&self.headers) {
            Ok(n) => n,
            Err(e) => return Err(e),
        };
        if n > buffer.len() - head_len {
            return Err(ParseError::Incomplete);
        }
        let body = vstd::slice::slice_to_vec(vstd::slice::slice_subrange(buffer, head_len, head_len + n));
        let req = HttpRequest {
            method: self.method,
            path: self.path,
            version: self.version,
            headers: self.headers,
            body,
        };
        assert(req@ == self@.with_body(buffer@.subrange(head_len as int, head_len + n)));
        Ok((req, head_len + n))
    }

    /// Frames one request at the start of `buffer`, returning it and the number
    /// of bytes it took; what follows (the next pipelined request) is left alone.
    /// A buffer that stops short of the head or the body gives `Incomplete`.
    pub fn parse(buffer: &[u8]) -> (r: Result<(HttpRequest, usize), ParseError>)
        ensures
            r matches Ok((req, n)) ==> n <= buffer@.len() && body_length(req@.headers) == Ok::<nat, ParseError>(req.body@.len())
                && req.body@ == buffer@.subrange(n - req.body@.len(), n as int),
            forall|v: RequestView, rest: Seq<u8>|
                v.head_well_formed() && buffer@ == #[trigger] (v.head_bytes() + rest)
                    ==> request_outcome(r) == frame_request(v, v.head_bytes().len(), buffer@),
            forall|v: RequestView, rest: Seq<u8>|
                v.valid() && buffer@ == #[trigger] (v.wire_bytes() + rest) ==> (r matches Ok((req, n))
                    && req@ == v && n == v.wire_bytes().len()),
            forall|v: RequestView, k: int|
                v.valid() && 0 <= k < v.wire_bytes().len() && buffer@ == #[trigger] v.wire_bytes().take(k)
                    ==> r == Err::<(HttpRequest, usize), ParseError>(ParseError::Incomplete),
    {
        let r = match parse_request_head(buffer) {
            HeadStatus::Complete(head, n) => head.take_body(n, buffer),
            HeadStatus::Partial => Err(ParseError::Incomplete),
            HeadStatus::Invalid(e) => Err(e),
        };
        assert forall|v: RequestView, rest: Seq<u8>|
            v.valid() && buffer@ == #[trigger] (v.wire_bytes() + rest) implies (r matches Ok((req, n))
                && req@ == v && n == v.wire_bytes().len()) by {
            lemma_serialized_request_frames(v, rest);
            assert(v.with_body(seq![]).with_body(v.body) == v);
        }
        assert forall|v: RequestView, k: int|
            v.valid() && 0 <= k < v.wire_bytes().len() && buffer@ == #[trigger] v.wire_bytes().take(k)
                implies r == Err::<(HttpRequest, usize), ParseError>(ParseError::Incomplete) by {
            let hl = v.head_bytes().len() as int;
            if k < hl {
                assert(v.wire_bytes().take(k) =~= v.head_bytes().take(k));
            } else {
                assert(buffer@ =~= v.head_bytes() + v.body.take(k - hl));
            }
        }
        r
    }
    /// The wire form: start line, the headers in order, a blank line, the body
    /// as it is. No header is added.
    pub fn to_bytes(self) -> (r: Vec<u8>)
        ensures
            r@ == self@.wire_bytes(),
    {
        let mut buf: Vec<u8> = Vec::new();
        append_text(&mut buf, self.method.as_str());
        buf.push(32);
        append_text(&mut buf, self.path.as_str());
        buf.push(32);
        append_version(&mut buf, self.version);
        append_crlf(&mut buf);
        append_headers(&mut buf, &self.headers);
        append_crlf(&mut buf);
        append_bytes(&mut buf, self.body.as_slice());
        assert(buf@ =~= self@.wire_bytes());
        buf
    }
}


/// How many body bytes follow a response head: as for a request, except that a
/// response with neither `Content-Length` nor a transfer coding on a
/// connection that does not persist would run to the close, which cannot be
/// framed here.
pub open spec fn response_body_length(version: u8, hs: Seq<(Seq<char>, Seq<char>)>) -> Result<
    nat,
    ParseError,
> {
    if header_value(hs, transfer_encoding_name()) is None && header_value(hs, content_length_name()) is None
        && !keeps_alive(version, hs) {
        Err(ParseError::UnsupportedFraming)
    } else {
        body_length(hs)
    }
}

/// The body length that a response head announces.
pub fn response_body_length_of(version: u8, headers: &Vec<(String, String)>) -> (r: Result<usize, ParseError>)
    ensures
        match response_body_length(version, headers_view(headers@)) {
            Ok(n) => r == Ok::<usize, ParseError>(n as usize),
            Err(e) => r == Err::<usize, ParseError>(e),
        },
{
    let n = match body_length_of(headers) {
        Ok(n) => n,
        Err(e) => return Err(e),
    };
    let cl = content_length_lit();
    assert(ascii_lower(cl@) =~= cl@);
    if find_header(headers, &cl).is_none() && !should_keep_alive(version, headers) {
        return Err(ParseError::UnsupportedFraming);
    }
    Ok(n)
}

impl ResponseView {
    /// The fields can be written on the wire and read back unchanged.
    pub open spec fn head_well_formed(self) -> bool {
        self.version <= 1 && 100 <= self.code <= 999 && is_reason(self.reason) && well_formed_headers(
            self.headers,
        )
    }

    /// A well-formed head whose headers announce exactly the body.
    pub open spec fn valid(self) -> bool {
        self.head_well_formed() && response_body_length(self.version, self.headers) == Ok::<
            nat,
            ParseError,
        >(self.body.len())
    }

    pub open spec fn with_body(self, body: Seq<u8>) -> ResponseView {
        ResponseView {
            version: self.version,
            code: self.code,
            reason: self.reason,
            headers: self.headers,
            body,
        }
    }
}

/// Frames the body that follows a response head of `head_len` bytes in `buf`.
pub open spec fn frame_response(head: ResponseView, head_len: nat, buf: Seq<u8>) -> Result<
    (ResponseView, nat),
    ParseError,
> {
    match response_body_length(head.version, head.headers) {
        Err(e) => Err(e),
        Ok(n) => if buf.len() < head_len + n {
            Err(ParseError::Incomplete)
        } else {
            Ok((head.with_body(buf.subrange(head_len as int, (head_len + n) as int)), head_len + n))
        },
    }
}

pub open spec fn response_outcome(r: Result<(HttpResponse, usize), ParseError>) -> Result<
    (ResponseView, nat),
    ParseError,
> {
    match r {
        Ok((resp, n)) => Ok((resp@, n as nat)),
        Err(e) => Err(e),
    }
}

/// Relies on httparse::Response::parse, given 64 header slots: on the bytes of
/// a well-formed response head followed by anything it reports the head
/// complete, with the fields as written and the head's length; on a strict
/// prefix of such bytes it asks for more; a complete head never runs past the
/// buffer.
#[verifier::external_body]
fn parse_response_head(buf: &[u8]) -> (r: HeadStatus<HttpResponse>)
    ensures
        r is Complete ==> r->Complete_1 <= buf@.len() && r->Complete_0.body@.len() == 0,
        forall|v: ResponseView|
            #![trigger v.head_bytes()]
            v.head_well_formed() ==> forall|rest: Seq<u8>|
                buf@ == #[trigger] (v.head_bytes() + rest) ==> (r is Complete
                    && r->Complete_0@ == v.with_body(seq![]) && r->Complete_1 == v.head_bytes().len()),
        forall|v: ResponseView|
            #![trigger v.head_bytes()]
            v.head_well_formed() ==> forall|k: int|
                0 <= k < v.head_bytes().len() && buf@ == #[trigger] v.head_bytes().take(k) ==> r is Partial,
{
    let mut slots = [EMPTY_HEADER; 64];
    let mut resp = httparse::Response::new(&mut slots);
    match resp.parse(buf) {
        Ok(Status::Complete(n)) => Complete(HttpResponse {
            version: resp.version.unwrap_or_default(),
            code: resp.code.unwrap_or_default(),
            reason: resp.reason.unwrap_or_default().to_string(),
            headers: resp.headers.iter().map(|h| (h.name.to_string(), String::from_utf8_lossy(h.value).to_string())).collect(),
            body: Vec::new(),
        }, n),
        Ok(Status::Partial) => Partial,
        Err(HeadError::TooManyHeaders) => Invalid(ParseError::TooManyHeaders),
        Err(HeadError::HeaderName | HeadError::HeaderValue) => Invalid(ParseError::MalformedHeader),
        Err(_) => Invalid(ParseError::MalformedStartLine),
    }
}

impl HttpResponse {
    /// Sets header `name` to `value`, by the same rule as for requests.
    pub fn set_header(&mut self, name: &str, value: &str)
        ensures
            final(self)@ == (ResponseView {
                headers: with_header(old(self)@.headers, name@, value@),
                ..old(self)@
            }),
    {
        set_header_in(&mut self.headers, name, value);
    }

    /// Whether the connection persists after this response.
    pub fn should_keep_alive(&self) -> (r: bool)
        ensures
            r == keeps_alive(self.version, self@.headers),
    {
        should_keep_alive(self.version, &self.headers)
    }

    /// Completes a response whose head, `head_len` bytes long, opens `buffer`.
    pub fn take_body(self, head_len: usize, buffer: &[u8]) -> (r: Result<(HttpResponse, usize), ParseError>)
        requires
            head_len <= buffer@.len(),
        ensures
            response_outcome(r) == frame_response(self@, head_len as nat, buffer@),
    {
        let n = match response_body_length_of(self.version, &self.headers) {
            Ok(n) => n,
            Err(e) => return Err(e),
        };
        if n > buffer.len() - head_len {
            return Err(ParseError::Incomplete);
        }
        let body = vstd::slice::slice_to_vec(vstd::slice::slice_subrange(buffer, head_len, head_len + n));
        let resp = HttpResponse {
            version: self.version,
            code: self.code,
            reason: self.reason,
            headers: self.headers,
            body,
        };
        assert(resp@ == self@.with_body(buffer@.subrange(head_len as int, head_len + n)));
        Ok((resp, head_len + n))
    }

    /// Frames one response at the start of `buffer`, returning it and the
    /// number of bytes it took. A buffer that stops short of the head or the
    /// body gives `Incomplete`.
    pub fn parse(buffer: &[u8]) -> (r: Result<(HttpResponse, usize), ParseError>)
        ensures
            r matches Ok((resp, n)) ==> n <= buffer@.len() && response_body_length(resp.version, resp@.headers)
                == Ok::<nat, ParseError>(resp.body@.len()) && resp.body@ == buffer@.subrange(
                n - resp.body@.len(),
                n as int,
            ),
            forall|v: ResponseView, rest: Seq<u8>|
                v.head_well_formed() && buffer@ == #[trigger] (v.head_bytes() + rest)
                    ==> response_outcome(r) == frame_response(v, v.head_bytes().len(), buffer@),
            forall|v: ResponseView, rest: Seq<u8>|
                v.valid() && buffer@ == #[trigger] (v.wire_bytes() + rest) ==> (r matches Ok((resp, n))
                    && resp@ == v && n == v.wire_bytes().len()),
            forall|v: ResponseView, k: int|
                v.valid() && 0 <= k < v.wire_bytes().len() && buffer@ == #[trigger] v.wire_bytes().take(k)
                    ==> r == Err::<(HttpResponse, usize), ParseError>(ParseError::Incomplete),
    {
        let r = match parse_response_head(buffer) {
            HeadStatus::Complete(head, n) => head.take_body(n, buffer),
            HeadStatus::Partial => Err(ParseError::Incomplete),
            HeadStatus::Invalid(e) => Err(e),
        };
        assert forall|v: ResponseView, rest: Seq<u8>|
            v.valid() && buffer@ == #[trigger] (v.wire_bytes() + rest) implies (r matches Ok((resp, n))
                && resp@ == v && n == v.wire_bytes().len()) by {
            assert(buffer@ =~= v.head_bytes() + (v.body + rest));
            let hl = v.head_bytes().len();
            assert(buffer@.subrange(hl as int, (hl + v.body.len()) as int) =~= v.body);
            assert(v.with_body(seq![]).with_body(v.body) == v);
        }
        assert forall|v: ResponseView, k: int|
            v.valid() && 0 <= k < v.wire_bytes().len() && buffer@ == #[trigger] v.wire_bytes().take(k)
                implies r == Err::<(HttpResponse, usize), ParseError>(ParseError::Incomplete) by {
            let hl = v.head_bytes().len() as int;
            if k < hl {
                assert(v.wire_bytes().take(k) =~= v.head_bytes().take(k));
            } else {
                assert(buffer@ =~= v.head_bytes() + v.body.take(k - hl));
            }
        }
        r
    }
    /// The wire form: status line, the headers in order, a blank line, the
    /// body as it is. No header is added.
    pub fn to_bytes(self) -> (r: Vec<u8>)
        ensures
            r@ == self@.wire_bytes(),
    {
        let mut buf: Vec<u8> = Vec::new();
        append_version(&mut buf, self.version);
        buf.push(32);
        push_decimal(&mut buf, self.code as u64);
        buf.push(32);
        append_text(&mut buf, self.reason.as_str());
        append_crlf(&mut buf);
        append_headers(&mut buf, &self.headers);
        append_crlf(&mut buf);
        append_bytes(&mut buf, self.body.as_slice());
        assert(buf@ =~= self@.wire_bytes());
        buf
    }
}

} // verus!
