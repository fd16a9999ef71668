//! The HTTP proxy: request heads, CONNECT tunnels, and plain requests.

use crate::text;
use vstd::prelude::*;
use vstd::utf8::*;

verus! {

broadcast use {
    vstd::seq::group_seq_axioms,
    vstd::slice::group_slice_axioms,
    vstd::string::group_string_axioms,
    vstd::std_specs::vec::group_vec_axioms,
};

/// An empty line begins at `i`: line end and line end.
pub open spec fn is_blank_line(b: Seq<u8>, i: int) -> bool {
    0 <= i && i + 4 <= b.len() && b[i] == 13 && b[i + 1] == 10 && b[i + 2] == 13 && b[i + 3] == 10
}

/// Where the header block ends: the position of the first empty line.
pub open spec fn header_end(b: Seq<u8>) -> Option<int>
    decreases b.len(),
{
    if b.len() < 4 {
        None
    } else if is_blank_line(b, 0) {
        Some(0)
    } else {
        match header_end(b.drop_first()) {
            Some(i) => Some(i + 1),
            None => None,
        }
    }
}

/// What the end of the header block is.
pub proof fn lemma_header_end(b: Seq<u8>)
    ensures
        header_end(b) matches Some(i) ==> is_blank_line(b, i) && forall|k: int|
            0 <= k < i ==> !is_blank_line(b, k),
        header_end(b) is None ==> forall|k: int| !is_blank_line(b, k),
    decreases b.len(),
{
    if b.len() >= 4 && !is_blank_line(b, 0) {
        let t = b.drop_first();
        lemma_header_end(t);
        assert forall|k: int| k > 0 implies is_blank_line(b, k) == is_blank_line(t, k - 1) by {
            if 0 < k && k + 4 <= b.len() {
                assert(t[k - 1] == b[k]);
                assert(t[k] == b[k + 1]);
                assert(t[k + 1] == b[k + 2]);
                assert(t[k + 2] == b[k + 3]);
            }
        }
        match header_end(t) {
            Some(i) => {
                assert(is_blank_line(b, i + 1));
                assert forall|k: int| 0 <= k < i + 1 implies !is_blank_line(b, k) by {
                    if k > 0 {
                        assert(!is_blank_line(t, k - 1));
                    }
                }
            },
            None => {
                assert forall|k: int| !is_blank_line(b, k) by {
                    if k > 0 {
                        assert(!is_blank_line(t, k - 1));
                    }
                }
            },
        }
    }
}

/// The first empty line at or behind `from`, given that none is before it.
pub fn find_header_end_from(buf: &[u8], from: usize) -> (r: Option<usize>)
    requires
        forall|k: int| 0 <= k < from ==> !is_blank_line(buf@, k),
    ensures
        r is Some == header_end(buf@) is Some,
        r matches Some(i) ==> header_end(buf@) == Some(i as int) && i + 4 <= buf@.len(),
{
    proof {
        lemma_header_end(buf@);
    }
    let n: usize = buf.len();
    let mut i: usize = from;
    while i < n && n - i >= 4
        invariant
            n == buf@.len(),
            forall|k: int| 0 <= k < i ==> !is_blank_line(buf@, k),
            header_end(buf@) matches Some(j) ==> is_blank_line(buf@, j) && forall|k: int|
                0 <= k < j ==> !is_blank_line(buf@, k),
            header_end(buf@) is None ==> forall|k: int| !is_blank_line(buf@, k),
        decreases n - i,
    {
        if buf[i] == 13 && buf[i + 1] == 10 && buf[i + 2] == 13 && buf[i + 3] == 10 {
            assert(is_blank_line(buf@, i as int));
            return Some(i);
        }
        assert(!is_blank_line(buf@, i as int));
        i += 1;
    }
    assert(header_end(buf@) is None);
    None
}

/// Where the header block of a request ends.
pub fn find_header_end(buf: &[u8]) -> (r: Option<usize>)
    ensures
        r is Some == header_end(buf@) is Some,
        r matches Some(i) ==> header_end(buf@) == Some(i as int) && i + 4 <= buf@.len(),
{
    find_header_end_from(buf, 0)
}

// ---------------------------------------------------------------------------
// Reading the head of a request
// ---------------------------------------------------------------------------

/// The longest head of a request.
pub const MAX_HEADER_SIZE: usize = 8192;

/// What the bytes of a request come to so far.
#[derive(Debug)]
pub enum HeaderStep {
    /// The head goes on.
    More,
    /// The head is complete; what follows it is the start of the body.
    Done { header: Vec<u8>, remaining: Vec<u8> },
    /// The head is longer than allowed.
    TooLarge,
}

/// What the bytes of a request come to.
pub open spec fn is_header_step(all: Seq<u8>, r: HeaderStep) -> bool {
    match header_end(all) {
        Some(i) => r matches HeaderStep::Done { header, remaining } && header@ == all.take(i + 4)
            && remaining@ == all.skip(i + 4),
        None => if all.len() > MAX_HEADER_SIZE {
            r is TooLarge
        } else {
            r is More
        },
    }
}

/// Collects the head of a request. Each search begins where the last one
/// ended, less the three bytes that an end cut in two may have left.
#[derive(Debug)]
pub struct HeaderReader {
    pub buf: Vec<u8>,
    pub cursor: usize,
}

impl HeaderReader {
    /// What was searched holds no end.
    pub open spec fn wf(self) -> bool {
        &&& self.cursor == 0 || self.cursor + 3 <= self.buf@.len()
        &&& header_end(self.buf@) is None
    }

    /// No bytes yet.
    pub fn new() -> (r: Self)
        ensures
            r.wf(),
            r.buf@ == Seq::<u8>::empty(),
    {
        HeaderReader { buf: Vec::new(), cursor: 0 }
    }

    /// Bytes arrived.
    pub fn on_data(&mut self, data: &[u8]) -> (r: HeaderStep)
        requires
            old(self).wf(),
        ensures
            is_header_step(old(self).buf@ + data@, r),
            final(self).buf@ == old(self).buf@ + data@,
            r is More ==> final(self).wf(),
    {
        proof {
            lemma_header_end(self.buf@);
        }
        let ghost before = self.buf@;
        text::append_bytes(&mut self.buf, data);
        proof {
            assert forall|k: int| 0 <= k < self.cursor implies !is_blank_line(self.buf@, k) by {
                if is_blank_line(self.buf@, k) && k + 4 <= before.len() {
                    assert(is_blank_line(before, k));
                }
            }
        }
        match find_header_end_from(self.buf.as_slice(), self.cursor) {
            Some(i) => {
                assert(self.buf.len() == self.buf@.len());
                let header = vstd::slice::slice_to_vec(
                    vstd::slice::slice_subrange(self.buf.as_slice(), 0, i + 4),
                );
                let remaining = vstd::slice::slice_to_vec(
                    vstd::slice::slice_subrange(self.buf.as_slice(), i + 4, self.buf.len()),
                );
                assert(header@ =~= self.buf@.take(i + 4));
                assert(remaining@ =~= self.buf@.skip(i + 4));
                HeaderStep::Done { header, remaining }
            },
            None => {
                self.cursor = if self.buf.len() > 3 {
                    self.buf.len() - 3
                } else {
                    0
                };
                if self.buf.len() > MAX_HEADER_SIZE {
                    HeaderStep::TooLarge
                } else {
                    HeaderStep::More
                }
            },
        }
    }
}

/// Nothing of a request is lost: the head and what follows it are the bytes
/// that arrived, and the head ends in an empty line.
pub proof fn law_head_and_rest(all: Seq<u8>, r: HeaderStep)
    requires
        is_header_step(all, r),
        r is Done,
    ensures
        r->header@ + r->remaining@ == all,
        r->header@.len() >= 4,
        is_blank_line(r->header@, r->header@.len() - 4),
        forall|k: int| 0 <= k < r->header@.len() - 4 ==> !is_blank_line(r->header@, k),
{
    lemma_header_end(all);
    let i = header_end(all)->0;
    let h = all.take(i + 4);
    assert(h + all.skip(i + 4) =~= all);
    assert forall|k: int| 0 <= k < h.len() - 4 implies !is_blank_line(h, k) by {
        if is_blank_line(h, k) {
            assert(is_blank_line(all, k));
        }
    }
}

// ---------------------------------------------------------------------------
// Parts of a request
// ---------------------------------------------------------------------------

/// Why a request is not served.
#[derive(Debug)]
pub enum HttpError {
    ConnectionClosed,
    HeaderTooLarge,
    /// The head is not text.
    NotText,
    InvalidRequestLine(String),
    /// The port of the target is not a number.
    InvalidPort,
    /// The target's brackets are not those of an address.
    BrokenBrackets,
    NotAbsolute(String),
    /// The target is not a URL; with what is wrong with it.
    InvalidUrl(String),
    NoHost,
}

impl HttpError {
    /// The text that is shown for the error.
    pub open spec fn text(self) -> Seq<char> {
        match self {
            HttpError::ConnectionClosed => "Connection closed before HTTP header complete"@,
            HttpError::HeaderTooLarge => "HTTP header exceeds 8192 bytes"@,
            HttpError::NotText => "invalid utf-8 in HTTP header"@,
            HttpError::InvalidRequestLine(l) => "Invalid HTTP request line: "@ + l@,
            HttpError::InvalidPort => "invalid port"@,
            HttpError::BrokenBrackets => "invalid brackets in target"@,
            HttpError::NotAbsolute(t) => "Non-absolute URL in plain HTTP proxy: "@ + t@,
            HttpError::InvalidUrl(e) => e@,
            HttpError::NoHost => "No host in URL"@,
        }
    }

    /// The text that is shown for the error.
    pub fn message(&self) -> (r: String)
        ensures
            r@ == self.text(),
    {
        let mut out: Vec<char> = Vec::new();
        match self {
            HttpError::ConnectionClosed => {
                text::append_str(&mut out, "Connection closed before HTTP header complete");
            },
            HttpError::HeaderTooLarge => {
                text::append_str(&mut out, "HTTP header exceeds 8192 bytes");
            },
            HttpError::NotText => {
                text::append_str(&mut out, "invalid utf-8 in HTTP header");
            },
            HttpError::InvalidRequestLine(l) => {
                text::append_str(&mut out, "Invalid HTTP request line: ");
                text::append_str(&mut out, l.as_str());
            },
            HttpError::InvalidPort => {
                text::append_str(&mut out, "invalid port");
            },
            HttpError::BrokenBrackets => {
                text::append_str(&mut out, "invalid brackets in target");
            },
            HttpError::NotAbsolute(t) => {
                text::append_str(&mut out, "Non-absolute URL in plain HTTP proxy: ");
                text::append_str(&mut out, t.as_str());
            },
            HttpError::InvalidUrl(e) => {
                text::append_str(&mut out, e.as_str());
            },
            HttpError::NoHost => {
                text::append_str(&mut out, "No host in URL");
            },
        }
        assert(out@ =~= self.text());
        text::string_of(out.as_slice())
    }
}

/// `s` begins with `prefix`, whatever the case of ASCII letters.
pub open spec fn has_prefix_any_case(s: Seq<char>, prefix: Seq<char>) -> bool {
    prefix.len() <= s.len() && text::same_ignoring_case(s.take(prefix.len() as int), prefix)
}

fn chars_have_prefix(s: &[char], prefix: &str) -> (r: bool)
    ensures
        r == has_prefix_any_case(s@, prefix@),
{
    let p = text::chars_of(prefix);
    if s.len() < p.len() {
        return false;
    }
    let head = vstd::slice::slice_subrange(s, 0, p.len());
    assert(head@ =~= s@.take(p@.len() as int));
    text::eq_ignore_case(head, p.as_slice())
}

/// `s` begins with `prefix`, whatever the case of ASCII letters.
pub fn starts_with_ignore_ascii_case(s: &str, prefix: &str) -> (r: bool)
    ensures
        r == has_prefix_any_case(s@, prefix@),
{
    chars_have_prefix(text::chars_of(s).as_slice(), prefix)
}

/// A target whose brackets, if it has any, can be those of an address: the
/// closing one is not the first character, and that character is ASCII.
pub open spec fn brackets_fit(target: Seq<char>) -> bool {
    text::first_index(target, ']') < target.len() ==> text::first_index(target, ']') > 0
        && target[0] as u32 <= 127
}

/// Host and port of a target: an address in brackets, or a host with or
/// without a port. Nothing if the port behind brackets is not a number.
pub open spec fn target_of(target: Seq<char>, default_port: u16) -> Option<(Seq<char>, u16)> {
    let b = text::first_index(target, ']');
    let c = text::last_index(target, ':');
    if b < target.len() {
        if target.len() > b + 2 && target[b + 1] == ':' {
            match text::parsed_uint(target.skip(b + 2), 10, 65535) {
                Some(p) => Some((target.subrange(1, b), p as u16)),
                None => None,
            }
        } else {
            Some((target.subrange(1, b), default_port))
        }
    } else if c >= 0 && text::parsed_uint(target.skip(c + 1), 10, 65535) is Some {
        Some((target.take(c), text::parsed_uint(target.skip(c + 1), 10, 65535)->0 as u16))
    } else {
        Some((target, default_port))
    }
}

/// Host and port of a target.
pub fn parse_host_port(target: &str, default_port: u16) -> (r: Result<(String, u16), HttpError>)
    requires
        brackets_fit(target@),
    ensures
        match target_of(target@, default_port) {
            Some((host, port)) => r matches Ok(x) && x.0@ == host && x.1 == port,
            None => r == Err::<(String, u16), HttpError>(HttpError::InvalidPort),
        },
{
    let chars = text::chars_of(target);
    let b: usize = text::find_char(chars.as_slice(), ']');
    if b < chars.len() {
        let host = vstd::slice::slice_subrange(chars.as_slice(), 1, b);
        let name = text::string_of(host);
        if chars.len() - b > 2 && chars[b + 1] == ':' {
            let tail = vstd::slice::slice_subrange(chars.as_slice(), b + 2, chars.len());
            assert(tail@ =~= target@.skip(b + 2));
            return match text::parse_uint(tail, 10, 65535) {
                Some(p) => Ok((name, p as u16)),
                None => Err(HttpError::InvalidPort),
            };
        }
        return Ok((name, default_port));
    }
    match text::rfind_char(chars.as_slice(), ':') {
        Some(c) => {
            let tail = vstd::slice::slice_subrange(chars.as_slice(), c + 1, chars.len());
            assert(tail@ =~= target@.skip(c + 1));
            if let Some(p) = text::parse_uint(tail, 10, 65535) {
                let host = vstd::slice::slice_subrange(chars.as_slice(), 0, c);
                assert(host@ =~= target@.take(c as int));
                return Ok((text::string_of(host), p as u16));
            }
        },
        None => {},
    }
    Ok((text::string_of(chars.as_slice()), default_port))
}

/// Where the first line ends: at the first line end, or with the bytes.
pub open spec fn line_end(b: Seq<u8>) -> int
    decreases b.len(),
{
    if b.len() < 2 {
        b.len() as int
    } else if b[0] == 13 && b[1] == 10 {
        0
    } else {
        1 + line_end(b.drop_first())
    }
}

fn find_line_end(b: &[u8], from: usize) -> (r: usize)
    requires
        from <= b@.len(),
    ensures
        r == from + line_end(b@.skip(from as int)),
        r <= b@.len(),
    decreases b@.len() - from,
{
    if b.len() - from < 2 {
        return b.len();
    }
    if b[from] == 13 && b[from + 1] == 10 {
        return from;
    }
    assert(b@.skip(from as int).drop_first() =~= b@.skip(from + 1));
    find_line_end(b, from + 1)
}

/// The first line as text, if it is text.
pub open spec fn first_line(header: Seq<u8>) -> Option<Seq<char>> {
    let line = header.take(line_end(header));
    if valid_utf8(line) {
        Some(decode_utf8(line))
    } else {
        None
    }
}

/// Method, target and version: the line up to the first space, up to the
/// second, and the rest.
pub open spec fn request_parts(line: Seq<char>) -> Option<(Seq<char>, Seq<char>, Seq<char>)> {
    let i = text::first_index(line, ' ');
    let rest = line.skip(i + 1);
    let j = text::first_index(rest, ' ');
    if i < line.len() && j < rest.len() {
        Some((line.take(i), rest.take(j), rest.skip(j + 1)))
    } else {
        None
    }
}

/// Method, target and version of a request.
pub fn parse_request_line(header: &[u8]) -> (r: Result<(String, String, String), HttpError>)
    ensures
        match first_line(header@) {
            None => r == Err::<(String, String, String), HttpError>(HttpError::NotText),
            Some(line) => match request_parts(line) {
                Some((m, t, v)) => r matches Ok(x) && x.0@ == m && x.1@ == t && x.2@ == v,
                None => r matches Err(HttpError::InvalidRequestLine(l)) && l@ == line,
            },
        },
{
    let end: usize = find_line_end(header, 0);
    assert(header@.skip(0) =~= header@);
    let bytes = vstd::slice::slice_subrange(header, 0, end);
    assert(bytes@ =~= header@.take(end as int));
    let line = match text::utf8_text(bytes) {
        Some(l) => l,
        None => {
            return Err(HttpError::NotText);
        },
    };
    let chars = text::chars_of(line.as_str());
    let i: usize = text::find_char(chars.as_slice(), ' ');
    if i == chars.len() {
        return Err(HttpError::InvalidRequestLine(line));
    }
    let method = vstd::slice::slice_subrange(chars.as_slice(), 0, i);
    let rest = vstd::slice::slice_subrange(chars.as_slice(), i + 1, chars.len());
    assert(method@ =~= line@.take(i as int));
    assert(rest@ =~= line@.skip(i + 1));
    let j: usize = text::find_char(rest, ' ');
    if j == rest.len() {
        return Err(HttpError::InvalidRequestLine(line));
    }
    let target = vstd::slice::slice_subrange(rest, 0, j);
    let version = vstd::slice::slice_subrange(rest, j + 1, rest.len());
    assert(target@ =~= rest@.take(j as int));
    assert(version@ =~= rest@.skip(j + 1));
    Ok((text::string_of(method), text::string_of(target), text::string_of(version)))
}

// ---------------------------------------------------------------------------
// Plain requests
// ---------------------------------------------------------------------------

/// Host, port, path and query of a URL.
pub uninterp spec fn url_parts(url: Seq<char>) -> Option<
    (Option<Seq<char>>, Option<u16>, Seq<char>, Option<Seq<char>>),
>;

/// What is said of a text that is not a URL.
pub uninterp spec fn url_complaint(url: Seq<char>) -> Seq<char>;

/// The parts of a URL that a request needs.
#[derive(Debug)]
pub struct UrlParts {
    pub host: Option<String>,
    pub port: Option<u16>,
    pub path: String,
    pub query: Option<String>,
}

/// An optional text as characters.
pub open spec fn opt_chars(s: Option<String>) -> Option<Seq<char>> {
    match s {
        Some(t) => Some(t@),
        None => None,
    }
}

/// `url::Url::parse` with `host_str`, `port`, `path` and `query`: the parts of
/// a URL, or an error whose text depends on the input alone.
#[verifier::external_body]
pub(crate) fn parse_url(url: &str) -> (r: Result<UrlParts, String>)
    ensures
        r is Ok == url_parts(url@) is Some,
        r matches Ok(u) ==> url_parts(url@) == Some(
            (opt_chars(u.host), u.port, u.path@, opt_chars(u.query)),
        ),
        r matches Err(e) ==> e@ == url_complaint(url@),
{
    url::Url::parse(url)
        .map(|u| UrlParts {
            host: u.host_str().map(String::from),
            port: u.port(),
            path: u.path().to_string(),
            query: u.query().map(String::from),
        })
        .map_err(|e| e.to_string())
}

/// The line is passed on to the server.
pub open spec fn is_kept(line: Seq<char>) -> bool {
    line.len() > 0 && !has_prefix_any_case(line, "proxy-connection:"@)
}

/// The lines that are passed on, each behind a line end.
pub open spec fn kept_lines(lines: Seq<Seq<char>>) -> Seq<char>
    decreases lines.len(),
{
    if lines.len() == 0 {
        seq![]
    } else if is_kept(lines.last()) {
        kept_lines(lines.drop_last()) + seq!['\r', '\n'] + lines.last()
    } else {
        kept_lines(lines.drop_last())
    }
}

/// One of the lines that are passed on is about the connection.
pub open spec fn names_connection(lines: Seq<Seq<char>>) -> bool
    decreases lines.len(),
{
    lines.len() > 0 && (names_connection(lines.drop_last()) || (is_kept(lines.last())
        && has_prefix_any_case(lines.last(), "connection:"@)))
}

/// The head as the server gets it: a path in place of the URL, without what
/// is meant for the proxy, and closing the connection unless it says what is
/// to become of it.
pub open spec fn rewritten_head(method: Seq<char>, path: Seq<char>, head: Seq<char>) -> Seq<char> {
    let lines = text::split_on_crlf(head).drop_first();
    method + " "@ + path + " HTTP/1.1"@ + kept_lines(lines) + (if names_connection(lines) {
        seq![]
    } else {
        seq!['\r', '\n'] + "Connection: close"@
    }) + seq!['\r', '\n', '\r', '\n']
}

/// The head as the server gets it.
pub fn rewrite_head(method: &str, path: &str, head: &str) -> (r: String)
    ensures
        r@ == rewritten_head(method@, path@, head@),
{
    let lines = text::split_crlf(text::chars_of(head).as_slice());
    let ghost all = text::texts(lines@).drop_first();
    let mut out: Vec<char> = Vec::new();
    text::append_str(&mut out, method);
    text::append_str(&mut out, " ");
    text::append_str(&mut out, path);
    text::append_str(&mut out, " HTTP/1.1");
    let ghost first = out@;
    assert(first =~= method@ + " "@ + path@ + " HTTP/1.1"@);
    let mut saw_connection = false;
    let mut i: usize = 1;
    assert(all.take(0) =~= seq![]);
    assert(first + kept_lines(all.take(0)) =~= first);
    while i < lines.len()
        invariant
            1 <= i <= lines@.len(),
            all == text::texts(lines@).drop_first(),
            out@ == first + kept_lines(all.take(i - 1)),
            saw_connection == names_connection(all.take(i - 1)),
        decreases lines@.len() - i,
    {
        let line = lines[i].as_slice();
        let ghost t = all.take(i as int);
        assert(t.drop_last() =~= all.take(i - 1));
        assert(t.last() == line@);
        if line.len() > 0 && !chars_have_prefix(line, "proxy-connection:") {
            if chars_have_prefix(line, "connection:") {
                saw_connection = true;
            }
            out.push('\r');
            out.push('\n');
            text::append_chars(&mut out, line);
        }
        assert(out@ =~= first + kept_lines(t));
        i = i + 1;
    }
    assert(all.take(i - 1) =~= all);
    if !saw_connection {
        out.push('\r');
        out.push('\n');
        text::append_str(&mut out, "Connection: close");
    }
    out.push('\r');
    out.push('\n');
    out.push('\r');
    out.push('\n');
    assert(out@ =~= rewritten_head(method@, path@, head@));
    text::string_of(out.as_slice())
}

// ---------------------------------------------------------------------------
// What is done with a request
// ---------------------------------------------------------------------------

/// The answer when a tunnel is open.
pub const REPLY_ESTABLISHED: &'static str = "HTTP/1.1 200 Connection Established\r\n\r\n";

/// The answer when the target cannot be reached.
pub const REPLY_BAD_GATEWAY: &'static str = "HTTP/1.1 502 Bad Gateway\r\n\r\n";

/// The answer to a plain request without a URL.
pub const REPLY_BAD_REQUEST: &'static str = "HTTP/1.1 400 Bad Request\r\n\r\nOnly absolute URLs supported\r\n";

/// What is done with a request.
#[derive(Debug)]
pub enum HttpPlan {
    /// The connection is closed without an answer.
    Drop(HttpError),
    /// The request is answered as bad, then the connection is closed.
    BadRequest(HttpError),
    /// The target is connected to; the answer says how that went.
    Tunnel { host: String, port: u16 },
    /// The target is connected to, and gets this head. Where there is none,
    /// the connection is closed once it is open.
    Forward { host: String, port: u16, head: Option<String> },
}

/// What is done with a plain request, given the parts of its URL.
pub open spec fn is_forward(
    r: HttpPlan,
    parts: (Option<Seq<char>>, Option<u16>, Seq<char>, Option<Seq<char>>),
    method: Seq<char>,
    header: Seq<u8>,
) -> bool {
    let path = match parts.3 {
        Some(q) => parts.2 + "?"@ + q,
        None => parts.2,
    };
    match parts.0 {
        None => r == HttpPlan::Drop(HttpError::NoHost),
        Some(h) => r matches HttpPlan::Forward { host, port, head } && host@ == h && port == (
        match parts.1 {
            Some(p) => p,
            None => 80,
        }) && opt_chars(head) == (if valid_utf8(header) {
            Some(rewritten_head(method, path, decode_utf8(header)))
        } else {
            None
        }),
    }
}

/// What is done with a plain request, given the parts of its URL.
pub fn plan_forward(url: UrlParts, method: &str, header: &[u8]) -> (r: HttpPlan)
    ensures
        is_forward(
            r,
            (opt_chars(url.host), url.port, url.path@, opt_chars(url.query)),
            method@,
            header@,
        ),
{
    let host = match url.host {
        Some(h) => h,
        None => {
            return HttpPlan::Drop(HttpError::NoHost);
        },
    };
    let port: u16 = match url.port {
        Some(p) => p,
        None => 80,
    };
    let mut path = text::chars_of(url.path.as_str());
    if let Some(q) = &url.query {
        text::append_str(&mut path, "?");
        text::append_str(&mut path, q.as_str());
    }
    let path = text::string_of(path.as_slice());
    let head = match text::utf8_text(header) {
        Some(h) => Some(rewrite_head(method, path.as_str(), h.as_str())),
        None => None,
    };
    HttpPlan::Forward { host, port, head }
}

/// What is done with a request.
pub open spec fn is_plan(r: HttpPlan, header: Seq<u8>) -> bool {
    match first_line(header) {
        None => r == HttpPlan::Drop(HttpError::NotText),
        Some(line) => match request_parts(line) {
            None => r matches HttpPlan::Drop(HttpError::InvalidRequestLine(l)) && l@ == line,
            Some((method, target, version)) => if text::same_ignoring_case(method, "CONNECT"@) {
                if !brackets_fit(target) {
                    r == HttpPlan::Drop(HttpError::BrokenBrackets)
                } else {
                    match target_of(target, 443) {
                        Some((h, p)) => r matches HttpPlan::Tunnel { host, port } && host@ == h
                            && port == p,
                        None => r == HttpPlan::Drop(HttpError::InvalidPort),
                    }
                }
            } else if !text::has_prefix(target, "http://"@) {
                r matches HttpPlan::BadRequest(HttpError::NotAbsolute(t)) && t@ == target
            } else {
                match url_parts(target) {
                    None => r matches HttpPlan::Drop(HttpError::InvalidUrl(e)) && e@
                        == url_complaint(target),
                    Some(parts) => is_forward(r, parts, method, header),
                }
            },
        },
    }
}

/// What is done with a request, given its head. CONNECT opens a tunnel, any
/// other method is passed on where the target is an absolute URL.
pub fn plan_request(header: &[u8]) -> (r: HttpPlan)
    ensures
        is_plan(r, header@),
{
    let (method, target, _version) = match parse_request_line(header) {
        Ok(x) => x,
        Err(e) => {
            return HttpPlan::Drop(e);
        },
    };
    if text::eq_ignore_case_str(text::chars_of(method.as_str()).as_slice(), "CONNECT") {
        let chars = text::chars_of(target.as_str());
        let b: usize = text::find_char(chars.as_slice(), ']');
        if b < chars.len() && (b == 0 || chars[0] as u32 > 127) {
            return HttpPlan::Drop(HttpError::BrokenBrackets);
        }
        return match parse_host_port(target.as_str(), 443) {
            Ok((host, port)) => HttpPlan::Tunnel { host, port },
            Err(e) => HttpPlan::Drop(e),
        };
    }
    let chars = text::chars_of(target.as_str());
    let scheme = text::chars_of("http://");
    if !text::starts_with(chars.as_slice(), scheme.as_slice()) {
        return HttpPlan::BadRequest(HttpError::NotAbsolute(target));
    }
    match parse_url(target.as_str()) {
        Ok(u) => plan_forward(u, method.as_str(), header),
        Err(e) => HttpPlan::Drop(HttpError::InvalidUrl(e)),
    }
}

proof fn lemma_kept_has_no_proxy_line(lines: Seq<Seq<char>>, line: Seq<char>)
    requires
        lines.len() > 0,
        lines.last() == line,
        has_prefix_any_case(line, "proxy-connection:"@),
    ensures
        kept_lines(lines) == kept_lines(lines.drop_last()),
{
}

/// What is meant for the proxy does not reach the server: the head is the
/// same without that line.
pub proof fn law_proxy_lines_are_dropped(before: Seq<Seq<char>>, line: Seq<char>, after: Seq<Seq<char>>)
    requires
        has_prefix_any_case(line, "proxy-connection:"@),
    ensures
        kept_lines(before + seq![line] + after) == kept_lines(before + after),
        names_connection(before + seq![line] + after) == names_connection(before + after),
    decreases after.len(),
{
    if after.len() == 0 {
        assert((before + seq![line] + after).drop_last() =~= before);
        assert(before + after =~= before);
        lemma_kept_has_no_proxy_line(before + seq![line] + after, line);
    } else {
        let d = after.drop_last();
        law_proxy_lines_are_dropped(before, line, d);
        assert((before + seq![line] + after).drop_last() =~= before + seq![line] + d);
        assert((before + after).drop_last() =~= before + d);
    }
}

// ---------------------------------------------------------------------------
// Whole requests
// ---------------------------------------------------------------------------

/// The first `n` bytes of the head are this request line: they are text, no
/// line end is in them, and one stands behind them. The text is the method, the
/// target and the version with spaces between them, and only the version may
/// hold more.
pub open spec fn has_request_line(
    header: Seq<u8>,
    n: int,
    method: Seq<char>,
    target: Seq<char>,
    version: Seq<char>,
) -> bool {
    &&& 0 <= n
    &&& n + 2 <= header.len()
    &&& header[n] == 13
    &&& header[n + 1] == 10
    &&& forall|i: int| 0 <= i < n ==> !(#[trigger] header[i] == 13 && header[i + 1] == 10)
    &&& valid_utf8(header.take(n))
    &&& decode_utf8(header.take(n)) == method + seq![' '] + target + seq![' '] + version
    &&& !method.contains(' ')
    &&& !target.contains(' ')
}

proof fn lemma_line_end(b: Seq<u8>, n: int)
    requires
        0 <= n,
        n + 2 <= b.len(),
        b[n] == 13,
        b[n + 1] == 10,
        forall|i: int| 0 <= i < n ==> !(#[trigger] b[i] == 13 && b[i + 1] == 10),
    ensures
        line_end(b) == n,
    decreases n,
{
    if n > 0 {
        let t = b.drop_first();
        assert(!(b[0] == 13 && b[1] == 10));
        assert forall|i: int| 0 <= i < n - 1 implies !(#[trigger] t[i] == 13 && t[i + 1] == 10) by {
            assert(t[i] == b[i + 1]);
            assert(t[i + 1] == b[i + 2]);
        }
        lemma_line_end(t, n - 1);
    }
}

proof fn lemma_request_line(
    header: Seq<u8>,
    n: int,
    method: Seq<char>,
    target: Seq<char>,
    version: Seq<char>,
)
    requires
        has_request_line(header, n, method, target, version),
    ensures
        first_line(header) is Some,
        request_parts(first_line(header)->0) == Some((method, target, version)),
{
    lemma_line_end(header, n);
    let s = method + seq![' '] + target + seq![' '] + version;
    let i = method.len() as int;
    assert forall|k: int| 0 <= k < i implies s[k] != ' ' by {
        assert(s[k] == method[k]);
        assert(method.contains(method[k]));
    }
    text::lemma_first_index_unique(s, ' ', i);
    let after = s.skip(i + 1);
    let j = target.len() as int;
    assert(after =~= target + seq![' '] + version);
    assert forall|k: int| 0 <= k < j implies after[k] != ' ' by {
        assert(after[k] == target[k]);
        assert(target.contains(target[k]));
    }
    text::lemma_first_index_unique(after, ' ', j);
    assert(s.take(i) =~= method);
    assert(after.take(j) =~= target);
    assert(after.skip(j + 1) =~= version);
}

/// A plain request is passed on to the host that its URL names, at the port
/// that it names, or at port 80 where it names none; with the path and the
/// query of the URL in the place of the URL. Without a host it is dropped.
pub proof fn law_plain_request_goes_where_its_url_says(
    header: Seq<u8>,
    n: int,
    method: Seq<char>,
    target: Seq<char>,
    version: Seq<char>,
    host: Option<Seq<char>>,
    port: Option<u16>,
    path: Seq<char>,
    query: Option<Seq<char>>,
    r: HttpPlan,
)
    requires
        has_request_line(header, n, method, target, version),
        !text::same_ignoring_case(method, "CONNECT"@),
        text::has_prefix(target, "http://"@),
        url_parts(target) == Some((host, port, path, query)),
        is_plan(r, header),
    ensures
        match host {
            Some(h) => r matches HttpPlan::Forward { host: x, port: p, head } && x@ == h && p == (
            if port is Some {
                port->0
            } else {
                80u16
            }) && opt_chars(head) == (if valid_utf8(header) {
                Some(
                    rewritten_head(
                        method,
                        if query is Some {
                            path + seq!['?'] + query->0
                        } else {
                            path
                        },
                        decode_utf8(header),
                    ),
                )
            } else {
                None
            }),
            None => r matches HttpPlan::Drop(e) && e is NoHost,
        },
{
    lemma_request_line(header, n, method, target, version);
    reveal_strlit("?");
    assert("?"@ =~= seq!['?']);
}

/// The same of the parts of a URL, however they were found: port 80 stands for
/// no port, and any other port is kept.
pub proof fn law_no_port_means_eighty(
    r: HttpPlan,
    host: Seq<char>,
    port: Option<u16>,
    path: Seq<char>,
    query: Option<Seq<char>>,
    method: Seq<char>,
    header: Seq<u8>,
)
    requires
        is_forward(r, (Some(host), port, path, query), method, header),
    ensures
        r matches HttpPlan::Forward { host: x, port: p, head } && x@ == host && (port is None ==> p
            == 80) && (port is Some ==> p == port->0),
{
}

/// A request to connect opens a tunnel to the host and the port that it names:
/// a host, a colon and a port; an address in brackets, a colon and a port; or
/// either without a port, which then is 443.
pub proof fn law_tunnel_leads_to_the_target(
    header: Seq<u8>,
    n: int,
    method: Seq<char>,
    host: Seq<char>,
    port: Option<u16>,
    in_brackets: bool,
    version: Seq<char>,
    r: HttpPlan,
)
    requires
        ({
            let name = if in_brackets {
                seq!['['] + host + seq![']']
            } else {
                host
            };
            let target = match port {
                Some(p) => name + seq![':'] + text::decimal(p as nat),
                None => name,
            };
            has_request_line(header, n, method, target, version)
        }),
        text::same_ignoring_case(method, "CONNECT"@),
        !host.contains(']'),
        !in_brackets && port is None ==> !host.contains(':'),
        is_plan(r, header),
    ensures
        r matches HttpPlan::Tunnel { host: h, port: p } && h@ == host && p == (if port is Some {
            port->0
        } else {
            443u16
        }),
{
    let name = if in_brackets {
        seq!['['] + host + seq![']']
    } else {
        host
    };
    let target = match port {
        Some(p) => name + seq![':'] + text::decimal(p as nat),
        None => name,
    };
    lemma_request_line(header, n, method, target, version);
    lemma_target(target, host, port, in_brackets, 443);
}

proof fn lemma_target(
    target: Seq<char>,
    host: Seq<char>,
    port: Option<u16>,
    in_brackets: bool,
    default_port: u16,
)
    requires
        ({
            let name = if in_brackets {
                seq!['['] + host + seq![']']
            } else {
                host
            };
            target == (match port {
                Some(p) => name + seq![':'] + text::decimal(p as nat),
                None => name,
            })
        }),
        !host.contains(']'),
        !in_brackets && port is None ==> !host.contains(':'),
    ensures
        brackets_fit(target),
        target_of(target, default_port) == Some(
            (
                host,
                if port is Some {
                    port->0
                } else {
                    default_port
                },
            ),
        ),
{
    let n = host.len() as int;
    assert forall|k: int| 0 <= k < n implies host[k] != ']' by {
        assert(host.contains(host[k]));
    }
    if port is Some {
        let d = text::decimal(port->0 as nat);
        text::lemma_decimal(port->0 as nat);
        assert('0' <= d[0] <= '9');
        assert(text::unsigned_digits(d) == d);
        assert(text::parsed_uint(d, 10, 65535) == Some(port->0 as nat));
    }
    if in_brackets {
        let b = n + 1;
        assert(target[b] == ']');
        assert(target[0] == '[');
        assert forall|k: int| 0 <= k < b implies target[k] != ']' by {
            if k > 0 {
                assert(target[k] == host[k - 1]);
            }
        }
        text::lemma_first_index_unique(target, ']', b);
        assert(target.subrange(1, b) =~= host);
        if port is Some {
            let d = text::decimal(port->0 as nat);
            assert(target.skip(b + 2) =~= d);
        }
    } else {
        assert forall|k: int| 0 <= k < target.len() implies target[k] != ']' by {
            if k < n {
                assert(target[k] == host[k]);
            } else if k > n {
                assert(target[k] == text::decimal(port->0 as nat)[k - n - 1]);
            }
        }
        text::lemma_first_index_unique(target, ']', target.len() as int);
        if port is Some {
            let d = text::decimal(port->0 as nat);
            assert(target[n] == ':');
            assert forall|k: int| n < k < target.len() implies target[k] != ':' by {
                assert(target[k] == d[k - n - 1]);
            }
            text::lemma_last_index_unique(target, ':', n);
            assert(target.skip(n + 1) =~= d);
            assert(target.take(n) =~= host);
        } else {
            assert forall|k: int| -1 < k < target.len() implies target[k] != ':' by {
                assert(host.contains(host[k]));
            }
            text::lemma_last_index_unique(target, ':', -1);
        }
    }
}

/// A request that neither connects nor names an absolute URL is answered as
/// bad.
pub proof fn law_other_requests_are_bad(
    header: Seq<u8>,
    n: int,
    method: Seq<char>,
    target: Seq<char>,
    version: Seq<char>,
    r: HttpPlan,
)
    requires
        has_request_line(header, n, method, target, version),
        !text::same_ignoring_case(method, "CONNECT"@),
        !text::has_prefix(target, "http://"@),
        is_plan(r, header),
    ensures
        r matches HttpPlan::BadRequest(e) && e is NotAbsolute,
{
    lemma_request_line(header, n, method, target, version);
}

/// The lines that are passed on: all but empty ones and those that speak of
/// the connection to the proxy.
pub open spec fn passed_on(lines: Seq<Seq<char>>) -> Seq<Seq<char>> {
    lines.filter(
        |l: Seq<char>|
            l.len() > 0 && !(l.len() >= 17 && text::same_ignoring_case(
                l.take(17),
                "proxy-connection:"@,
            )),
    )
}

/// No line end stands in the text.
pub open spec fn is_one_line(s: Seq<char>) -> bool {
    forall|i: int| 0 <= i && i + 1 < s.len() ==> !(#[trigger] s[i] == '\r' && s[i + 1] == '\n')
}

/// Lines, each behind a line end.
spec fn lines_joined(lines: Seq<Seq<char>>) -> Seq<char>
    decreases lines.len(),
{
    if lines.len() == 0 {
        seq![]
    } else {
        lines_joined(lines.drop_last()) + seq!['\r', '\n'] + lines.last()
    }
}

proof fn lemma_kept_lines(lines: Seq<Seq<char>>)
    ensures
        kept_lines(lines) == lines_joined(passed_on(lines)),
        names_connection(lines) == (exists|i: int|
            0 <= i < passed_on(lines).len() && has_prefix_any_case(
                #[trigger] passed_on(lines)[i],
                "connection:"@,
            )),
    decreases lines.len(),
{
    let f = |l: Seq<char>|
        l.len() > 0 && !(l.len() >= 17 && text::same_ignoring_case(
            l.take(17),
            "proxy-connection:"@,
        ));
    reveal_strlit("proxy-connection:");
    assert("proxy-connection:"@.len() == 17);
    reveal(Seq::filter);
    if lines.len() > 0 {
        let before = lines.drop_last();
        lemma_kept_lines(before);
        let line = lines.last();
        assert(is_kept(line) == f(line));
        let all = passed_on(lines);
        if f(line) {
            assert(all == passed_on(before).push(line));
            assert(all.drop_last() =~= passed_on(before));
            if names_connection(before) {
                let i = choose|i: int|
                    0 <= i < passed_on(before).len() && has_prefix_any_case(
                        #[trigger] passed_on(before)[i],
                        "connection:"@,
                    );
                assert(all[i] == passed_on(before)[i]);
            }
            if exists|i: int|
                0 <= i < all.len() && has_prefix_any_case(#[trigger] all[i], "connection:"@) {
                let i = choose|i: int|
                    0 <= i < all.len() && has_prefix_any_case(#[trigger] all[i], "connection:"@);
                if i < passed_on(before).len() {
                    assert(all[i] == passed_on(before)[i]);
                }
            }
            assert(all[all.len() - 1] == line);
        } else {
            assert(all == passed_on(before));
        }
    }
}

proof fn lemma_split_lines(first: Seq<char>, lines: Seq<Seq<char>>)
    requires
        is_one_line(first),
        forall|i: int| 0 <= i < lines.len() ==> is_one_line(#[trigger] lines[i]),
    ensures
        text::split_on_crlf(first + lines_joined(lines)) == seq![first] + lines,
    decreases lines.len(),
{
    lemma_joined_front(lines);
    if lines.len() == 0 {
        assert(first + lines_joined(lines) =~= first);
        lemma_no_line_end(first);
        assert(seq![first] + lines =~= seq![first]);
    } else {
        let rest = lines.drop_first();
        assert forall|i: int| 0 <= i < rest.len() implies is_one_line(#[trigger] rest[i]) by {
            assert(rest[i] == lines[i + 1]);
        }
        let tail = lines[0] + lines_joined(rest);
        lemma_split_lines(lines[0], rest);
        let s = first + lines_joined(lines);
        assert(s =~= first + seq!['\r', '\n'] + tail);
        lemma_first_line_end(first, tail);
        assert(s.take(first.len() as int) =~= first);
        assert(s.skip((first.len() + 2) as int) =~= tail);
        assert(seq![lines[0]] + rest =~= lines);
    }
}

proof fn lemma_joined_front(lines: Seq<Seq<char>>)
    ensures
        lines.len() > 0 ==> lines_joined(lines) == seq!['\r', '\n'] + lines[0] + lines_joined(
            lines.drop_first(),
        ),
    decreases lines.len(),
{
    if lines.len() == 1 {
        assert(lines.drop_last() =~= seq![]);
        assert(lines.drop_first() =~= seq![]);
        assert(lines_joined(lines.drop_last()) =~= seq![]);
        assert(lines_joined(lines) =~= seq!['\r', '\n'] + lines[0] + lines_joined(
            lines.drop_first(),
        ));
    } else if lines.len() > 1 {
        let before = lines.drop_last();
        lemma_joined_front(before);
        let rest = lines.drop_first();
        assert(rest.drop_last() =~= before.drop_first());
        assert(rest.last() == lines.last());
        assert(lines_joined(lines) =~= seq!['\r', '\n'] + lines[0] + lines_joined(rest));
    }
}

proof fn lemma_no_line_end(s: Seq<char>)
    requires
        is_one_line(s),
    ensures
        text::crlf_index(s) == s.len(),
    decreases s.len(),
{
    if s.len() >= 2 {
        let t = s.drop_first();
        assert(!(s[0] == '\r' && s[1] == '\n'));
        assert forall|i: int| 0 <= i && i + 1 < t.len() implies !(#[trigger] t[i] == '\r' && t[i
            + 1] == '\n') by {
            assert(t[i] == s[i + 1]);
            assert(t[i + 1] == s[i + 2]);
        }
        lemma_no_line_end(t);
    }
}

proof fn lemma_first_line_end(first: Seq<char>, tail: Seq<char>)
    requires
        is_one_line(first),
    ensures
        text::crlf_index(first + seq!['\r', '\n'] + tail) == first.len(),
    decreases first.len(),
{
    let s = first + seq!['\r', '\n'] + tail;
    if first.len() > 0 {
        let t = first.drop_first();
        assert forall|i: int| 0 <= i && i + 1 < t.len() implies !(#[trigger] t[i] == '\r' && t[i
            + 1] == '\n') by {
            assert(t[i] == first[i + 1]);
            assert(t[i + 1] == first[i + 2]);
        }
        lemma_first_line_end(t, tail);
        assert(s.drop_first() =~= t + seq!['\r', '\n'] + tail);
        if first.len() > 1 {
            assert(!(first[0] == '\r' && first[1] == '\n'));
        }
    }
}

proof fn lemma_pieces_are_lines(s: Seq<char>, i: int)
    requires
        0 <= i < text::split_on_crlf(s).len(),
    ensures
        is_one_line(text::split_on_crlf(s)[i]),
    decreases s.len(),
{
    let n = text::crlf_index(s);
    text::lemma_first_crlf(s);
    if n < s.len() {
        if i == 0 {
            let p = s.take(n);
            assert forall|k: int| 0 <= k && k + 1 < p.len() implies !(#[trigger] p[k] == '\r'
                && p[k + 1] == '\n') by {
                assert(p[k] == s[k] && p[k + 1] == s[k + 1]);
            }
        } else {
            lemma_pieces_are_lines(s.skip(n + 2), i - 1);
        }
    }
}

proof fn lemma_passed_on_are_lines(lines: Seq<Seq<char>>)
    requires
        forall|i: int| 0 <= i < lines.len() ==> is_one_line(#[trigger] lines[i]),
    ensures
        forall|i: int| 0 <= i < passed_on(lines).len() ==> is_one_line(#[trigger] passed_on(lines)[i]),
    decreases lines.len(),
{
    reveal(Seq::filter);
    if lines.len() > 0 {
        let before = lines.drop_last();
        assert forall|i: int| 0 <= i < before.len() implies is_one_line(#[trigger] before[i]) by {
            assert(before[i] == lines[i]);
        }
        lemma_passed_on_are_lines(before);
        assert(is_one_line(lines[lines.len() - 1]));
        let all = passed_on(lines);
        assert forall|i: int| 0 <= i < all.len() implies is_one_line(#[trigger] all[i]) by {
            if i < passed_on(before).len() {
                assert(all[i] == passed_on(before)[i]);
            }
        }
    }
}

/// The server gets the method, the path and version 1.1 in the first line,
/// then the lines of the client that are passed on, in order and unchanged,
/// then a line that closes the connection unless one of them speaks of it, and
/// an empty line.
pub proof fn law_server_gets_the_lines_of_the_client(
    method: Seq<char>,
    path: Seq<char>,
    head: Seq<char>,
)
    requires
        is_one_line(method + " "@ + path + " HTTP/1.1"@),
    ensures
        ({
            let lines = passed_on(text::split_on_crlf(head).drop_first());
            let spoken_of = exists|i: int|
                0 <= i < lines.len() && has_prefix_any_case(#[trigger] lines[i], "connection:"@);
            text::split_on_crlf(rewritten_head(method, path, head)) == seq![
                method + " "@ + path + " HTTP/1.1"@,
            ] + lines + (if spoken_of {
                seq![]
            } else {
                seq!["Connection: close"@]
            }) + seq![Seq::<char>::empty(), Seq::<char>::empty()]
        }),
{
    let first = method + " "@ + path + " HTTP/1.1"@;
    let all = text::split_on_crlf(head).drop_first();
    let lines = passed_on(all);
    assert forall|i: int| 0 <= i < all.len() implies is_one_line(#[trigger] all[i]) by {
        lemma_pieces_are_lines(head, i + 1);
    }
    lemma_passed_on_are_lines(all);
    lemma_kept_lines(all);
    let close = "Connection: close"@;
    reveal_strlit("Connection: close");
    assert(is_one_line(close));
    let more = if names_connection(all) {
        seq![]
    } else {
        seq![close]
    };
    let empty = Seq::<char>::empty();
    let whole = lines + more + seq![empty, empty];
    assert forall|i: int| 0 <= i < whole.len() implies is_one_line(#[trigger] whole[i]) by {
        if i < lines.len() {
            assert(whole[i] == lines[i]);
        }
    }
    lemma_split_lines(first, whole);
    assert(whole.drop_last() =~= lines + more + seq![empty]);
    assert((lines + more + seq![empty]).drop_last() =~= lines + more);
    if !names_connection(all) {
        assert((lines + more).drop_last() =~= lines);
    } else {
        assert(lines + more =~= lines);
    }
    let end = seq!['\r', '\n'];
    assert(whole.last() == empty);
    assert((lines + more + seq![empty]).last() == empty);
    assert(lines_joined(whole) == lines_joined(lines + more + seq![empty]) + end + empty);
    assert(lines_joined(lines + more + seq![empty]) == lines_joined(lines + more) + end + empty);
    let middle: Seq<char> = if names_connection(all) {
        seq![]
    } else {
        end + close
    };
    if !names_connection(all) {
        assert((lines + more).last() == close);
        assert(lines_joined(lines + more) == lines_joined(lines) + end + close);
    }
    assert(lines_joined(lines + more) =~= lines_joined(lines) + middle);
    assert(rewritten_head(method, path, head) == first + lines_joined(lines) + middle + seq![
        '\r',
        '\n',
        '\r',
        '\n',
    ]);
    assert(rewritten_head(method, path, head) =~= first + lines_joined(whole));
    assert(seq![first] + whole =~= seq![first] + lines + more + seq![empty, empty]);
}

/// A head is whole at the first blank line, wherever it stands; without one more is waited for,
/// up to 8192 bytes.
pub proof fn law_head_ends_at_the_first_blank_line(all: Seq<u8>, k: int, r: HeaderStep)
    requires
        is_header_step(all, r),
    ensures
        0 <= k && k + 4 <= all.len() && all.subrange(k, k + 4) == seq![13u8, 10, 13, 10] ==> r is Done
            && r->header@.len() <= k + 4,
        r is More ==> all.len() <= 8192,
        r is TooLarge ==> all.len() > 8192,
{
    if 0 <= k && k + 4 <= all.len() && all.subrange(k, k + 4) == seq![13u8, 10, 13, 10] {
        let s = all.subrange(k, k + 4);
        assert(s[0] == all[k] && s[1] == all[k + 1] && s[2] == all[k + 2] && s[3] == all[k + 3]);
        assert(is_blank_line(all, k));
        lemma_header_end(all);
        if header_end(all) is Some && header_end(all)->0 > k {
            assert(false);
        }
    }
}

} // verus!
