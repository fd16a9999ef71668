//! The list of nodes, served to other devices on the local network.

use vstd::prelude::*;
use vstd::string::StringSliceAdditionalSpecFns;

use crate::config::Node;
use crate::crypto;
use crate::net::IpAddr;
use crate::proxy::http;
use crate::text;

verus! {

broadcast use {
    vstd::seq::group_seq_axioms,
    vstd::slice::group_slice_axioms,
    vstd::string::group_string_axioms,
    vstd::std_specs::vec::group_vec_axioms,
};

/// The port on which the list is served.
pub const DEFAULT_SHARE_PORT: u16 = 19870;

/// The longest head of a request.
pub const MAX_HEAD_BYTES: usize = 16384;

/// Seconds for a request to arrive.
pub const READ_TIMEOUT_SECS: u64 = 5;

/// The forms in which the list is served.
#[derive(Debug, Clone, Copy, PartialEq, Eq, Structural)]
pub enum SubscriptionFormat {
    Clash,
    V2ray,
}

/// What is served.
#[derive(Debug, Clone)]
pub struct ShareState {
    pub nodes: Vec<Node>,
    pub format: SubscriptionFormat,
}

/// What is served.
pub fn new_shared_state(nodes: Vec<Node>, format: SubscriptionFormat) -> (r: ShareState)
    ensures
        r.nodes == nodes,
        r.format == format,
{
    ShareState { nodes, format }
}

/// A digit of a token.
pub open spec fn is_token_digit(c: char) -> bool {
    '0' <= c <= '9' || 'a' <= c <= 'f'
}

/// A token: 32 digits, of which one says how it was made and one which
/// identifiers it belongs to.
pub open spec fn is_token(t: Seq<char>) -> bool {
    &&& t.len() == 32
    &&& forall|i: int| 0 <= i < 32 ==> is_token_digit(#[trigger] t[i])
    &&& t[12] == '4'
    &&& t[16] == '8' || t[16] == '9' || t[16] == 'a' || t[16] == 'b'
}

/// `uuid::Uuid::new_v4` with `simple`: 32 hexadecimal digits in lower case,
/// with the version in the thirteenth and the variant in the seventeenth.
/// Which the others are is left to chance.
#[verifier::external_body]
pub(crate) fn random_uuid() -> (r: String)
    ensures
        is_token(r@),
{
    uuid::Uuid::new_v4().simple().to_string()
}

/// A token that cannot be guessed.
pub fn generate_token() -> (r: String)
    ensures
        is_token(r@),
{
    random_uuid()
}

/// The address under which other devices find this one: not the loopback.
pub open spec fn usable_lan_ip(ip: IpAddr) -> bool {
    match ip {
        IpAddr::V4(v) => v / 0x100_0000 != 127,
        IpAddr::V6(v) => v != 1,
    }
}

/// The address under which other devices find this one, if the one that the
/// system chose will do.
pub fn lan_ip(ip: IpAddr) -> (r: Option<IpAddr>)
    ensures
        r == (if usable_lan_ip(ip) {
            Some(ip)
        } else {
            None
        }),
{
    let usable = match ip {
        IpAddr::V4(v) => v / 0x100_0000 != 127,
        IpAddr::V6(v) => v != 1,
    };
    if usable {
        Some(ip)
    } else {
        None
    }
}

// ---------------------------------------------------------------------------
// The head of a request
// ---------------------------------------------------------------------------

/// What the bytes of a request come to so far.
#[derive(Debug)]
pub enum HeadStep {
    More,
    Done(String),
    TooLarge,
}

/// What the bytes of a request come to: it is complete with an empty line.
pub open spec fn is_head_step(all: Seq<u8>, r: HeadStep) -> bool {
    if http::header_end(all) is Some {
        r matches HeadStep::Done(t) && t@ == text::lossy_text(all)
    } else if all.len() > MAX_HEAD_BYTES {
        r is TooLarge
    } else {
        r is More
    }
}

/// Bytes of a request arrived.
pub fn on_head_data(buf: &mut Vec<u8>, data: &[u8]) -> (r: HeadStep)
    ensures
        final(buf)@ == old(buf)@ + data@,
        is_head_step(old(buf)@ + data@, r),
{
    text::append_bytes(buf, data);
    if http::find_header_end(buf.as_slice()).is_some() {
        return HeadStep::Done(text::utf8_lossy(buf.as_slice()));
    }
    if buf.len() > MAX_HEAD_BYTES {
        HeadStep::TooLarge
    } else {
        HeadStep::More
    }
}

/// The client sends no more: what arrived is the request.
pub fn on_head_eof(buf: &[u8]) -> (r: String)
    ensures
        r@ == text::lossy_text(buf@),
{
    text::utf8_lossy(buf)
}

// ---------------------------------------------------------------------------
// Answers
// ---------------------------------------------------------------------------

/// An answer, which is never to be stored on its way.
pub open spec fn response_text(
    status: u16,
    reason: Seq<char>,
    content_type: Seq<char>,
    body_len: nat,
    body: Seq<char>,
) -> Seq<char> {
    "HTTP/1.1 "@ + text::decimal(status as nat) + " "@ + reason + "\r\nContent-Type: "@
        + content_type + "\r\nContent-Length: "@ + text::decimal(body_len)
        + "\r\nCache-Control: no-store, no-cache, must-revalidate\r\nPragma: no-cache\r\nConnection: close\r\n\r\n"@
        + body
}

/// An answer on the wire.
pub open spec fn response_bytes(status: u16, reason: &str, content_type: &str, body: &str) -> Seq<
    u8,
> {
    vstd::utf8::encode_utf8(
        response_text(status, reason@, content_type@, body.spec_bytes().len(), body@),
    )
}

/// An answer on the wire.
pub fn respond(status: u16, reason: &str, content_type: &str, body: &str) -> (r: Vec<u8>)
    ensures
        r@ == response_bytes(status, reason, content_type, body),
{
    let mut out: Vec<char> = Vec::new();
    text::append_str(&mut out, "HTTP/1.1 ");
    text::append_chars(&mut out, text::decimal_text(status as u64).as_slice());
    text::append_str(&mut out, " ");
    text::append_str(&mut out, reason);
    text::append_str(&mut out, "\r\nContent-Type: ");
    text::append_str(&mut out, content_type);
    text::append_str(&mut out, "\r\nContent-Length: ");
    let len: usize = body.as_bytes().len();
    text::append_chars(&mut out, text::decimal_text(len as u64).as_slice());
    text::append_str(
        &mut out,
        "\r\nCache-Control: no-store, no-cache, must-revalidate\r\nPragma: no-cache\r\nConnection: close\r\n\r\n",
    );
    text::append_str(&mut out, body);
    assert(out@ =~= response_text(status, reason@, content_type@, body.spec_bytes().len(), body@));
    text::utf8_bytes(out.as_slice())
}

/// The token is the one that is expected. All bytes are looked at, so that
/// the time that this takes does not depend on where they differ; of that the
/// contract says nothing.
pub fn token_valid(provided: Option<&str>, expected: &str) -> (r: bool)
    ensures
        r == (provided is Some && provided->0.spec_bytes() == expected.spec_bytes()),
        r == (provided is Some && provided->0@ == expected@),
{
    proof {
        vstd::utf8::encode_utf8_decode_utf8(expected@);
        if provided is Some {
            vstd::utf8::encode_utf8_decode_utf8(provided->0@);
        }
    }
    let p = match provided {
        Some(p) => p.as_bytes(),
        None => {
            return false;
        },
    };
    let e = expected.as_bytes();
    if p.len() != e.len() {
        return false;
    }
    let mut acc: u8 = 0;
    let mut i: usize = 0;
    assert(p@.take(0) =~= e@.take(0));
    while i < p.len()
        invariant
            i <= p@.len(),
            p@.len() == e@.len(),
            (acc == 0) == (p@.take(i as int) == e@.take(i as int)),
        decreases p@.len() - i,
    {
        let a: u8 = p[i];
        let b: u8 = e[i];
        let before: u8 = acc;
        acc = acc | (a ^ b);
        proof {
            assert((before | (a ^ b) == 0) == (before == 0 && a == b)) by (bit_vector);
            let pa = p@.take(i + 1);
            let ea = e@.take(i + 1);
            assert(pa.drop_last() =~= p@.take(i as int));
            assert(ea.drop_last() =~= e@.take(i as int));
            if p@.take(i as int) == e@.take(i as int) && a == b {
                assert(pa =~= ea);
            }
            if pa == ea {
                assert(pa[i as int] == ea[i as int]);
            }
        }
        i = i + 1;
    }
    assert(p@.take(i as int) =~= p@);
    assert(e@.take(i as int) =~= e@);
    acc == 0
}

// ---------------------------------------------------------------------------
// Requests
// ---------------------------------------------------------------------------

/// The position of the first `b` in bytes, or their length without one.
pub open spec fn first_byte(s: Seq<u8>, b: u8) -> int
    decreases s.len(),
{
    if s.len() == 0 || s[0] == b {
        0
    } else {
        1 + first_byte(s.drop_first(), b)
    }
}

/// Bytes with `+` for a space and `%` before the two digits of a byte.
pub open spec fn unescaped(s: Seq<u8>) -> Seq<u8>
    decreases s.len(),
{
    if s.len() == 0 {
        seq![]
    } else if s[0] == 43 {
        seq![32u8] + unescaped(s.drop_first())
    } else if s[0] == 37 && s.len() >= 3 && crypto::hex_nibble(s[1]) is Some && crypto::hex_nibble(
        s[2],
    ) is Some {
        crypto::hex_bytes(s.subrange(1, 3)) + unescaped(s.skip(3))
    } else {
        seq![s[0]] + unescaped(s.drop_first())
    }
}

/// A name and a value: what stands before the first `=` and behind it.
pub open spec fn pair_of(piece: Seq<u8>) -> (Seq<char>, Seq<char>) {
    let i = first_byte(piece, 61);
    let value = if i < piece.len() {
        piece.skip(i + 1)
    } else {
        seq![]
    };
    (text::lossy_text(unescaped(piece.take(i))), text::lossy_text(unescaped(value)))
}

/// The pairs of a query, which stand between `&`; where nothing stands, there
/// is none.
pub open spec fn query_pairs(query: Seq<u8>) -> Seq<(Seq<char>, Seq<char>)>
    decreases query.len(),
{
    let i = first_byte(query, 38);
    if query.len() == 0 {
        seq![]
    } else if i == 0 {
        query_pairs(query.drop_first())
    } else if 0 < i < query.len() {
        seq![pair_of(query.take(i))] + query_pairs(query.skip(i + 1))
    } else {
        seq![pair_of(query)]
    }
}

/// Pairs of texts as characters.
pub open spec fn pair_texts(v: Seq<(String, String)>) -> Seq<(Seq<char>, Seq<char>)> {
    v.map_values(|p: (String, String)| (p.0@, p.1@))
}

/// `url::form_urlencoded::parse`: the pairs of a query in their order, each
/// name and value with its escapes undone and read as UTF-8.
#[verifier::external_body]
pub(crate) fn parse_query(query: &[u8]) -> (r: Vec<(String, String)>)
    ensures
        pair_texts(r@) == query_pairs(query@),
{
    url::form_urlencoded::parse(query).into_owned().collect()
}

/// The value of a key: of several, the last.
pub open spec fn param_of(pairs: Seq<(Seq<char>, Seq<char>)>, key: Seq<char>) -> Option<Seq<char>>
    decreases pairs.len(),
{
    if pairs.len() == 0 {
        None
    } else if pairs.last().0 == key {
        Some(pairs.last().1)
    } else {
        param_of(pairs.drop_last(), key)
    }
}

fn find_param<'a>(pairs: &'a Vec<(String, String)>, key: &str) -> (r: Option<&'a String>)
    ensures
        r is Some == param_of(pair_texts(pairs@), key@) is Some,
        r matches Some(v) ==> param_of(pair_texts(pairs@), key@) == Some(v@),
{
    let ghost all = pair_texts(pairs@);
    let mut i: usize = pairs.len();
    assert(all.take(i as int) =~= all);
    while i > 0
        invariant
            i <= pairs@.len(),
            all == pair_texts(pairs@),
            param_of(all, key@) == param_of(all.take(i as int), key@),
        decreases i,
    {
        let p = &pairs[i - 1];
        assert(all.take(i as int).last() == (p.0@, p.1@));
        assert(all.take(i as int).drop_last() =~= all.take(i - 1));
        if text::str_eq(p.0.as_str(), key) {
            return Some(&p.1);
        }
        i = i - 1;
    }
    None
}

/// What a request gets.
#[derive(Debug)]
pub enum ShareRoute {
    MethodNotAllowed,
    NotFound,
    Forbidden,
    /// The list, in the form that is asked for, if one is.
    Serve { format: Option<String> },
}

/// The first line of a request, and of it the words.
pub open spec fn request_words(head: Seq<char>) -> Seq<Seq<char>> {
    let lines = text::lines_of(head);
    if lines.len() > 0 {
        text::words(lines[0])
    } else {
        seq![]
    }
}

/// The path and the query of a target.
pub open spec fn split_target(target: Seq<char>) -> (Seq<char>, Seq<char>) {
    let i = text::first_index(target, '?');
    if i < target.len() {
        (target.take(i), target.skip(i + 1))
    } else {
        (target, seq![])
    }
}

/// What a request gets, given the pairs of its query.
pub open spec fn is_answer(pairs: Seq<(Seq<char>, Seq<char>)>, token: Seq<char>, r: ShareRoute) -> bool {
    match param_of(pairs, "token"@) {
        Some(t) => if vstd::utf8::encode_utf8(t) == vstd::utf8::encode_utf8(token) {
            r matches ShareRoute::Serve { format } && (match param_of(pairs, "format"@) {
                Some(f) => format matches Some(x) && x@ == f,
                None => format is None,
            })
        } else {
            r is Forbidden
        },
        None => r is Forbidden,
    }
}

/// What a request gets, given the pairs of its query.
pub fn answer(pairs: &Vec<(String, String)>, token: &str) -> (r: ShareRoute)
    ensures
        is_answer(pair_texts(pairs@), token@, r),
{
    let provided: Option<&str> = match find_param(pairs, "token") {
        Some(t) => Some(t.as_str()),
        None => None,
    };
    if !token_valid(provided, token) {
        return ShareRoute::Forbidden;
    }
    ShareRoute::Serve {
        format: match find_param(pairs, "format") {
            Some(f) => Some(f.clone()),
            None => None,
        },
    }
}

/// What a request gets: only the list is there, only to be read, and only
/// with the token.
pub open spec fn is_route(head: Seq<char>, token: Seq<char>, r: ShareRoute) -> bool {
    let words = request_words(head);
    let method = if words.len() > 0 { words[0] } else { seq![] };
    let target = if words.len() > 1 { words[1] } else { seq![] };
    let (path, query) = split_target(target);
    if method != "GET"@ {
        r is MethodNotAllowed
    } else if path != "/sub"@ {
        r is NotFound
    } else {
        is_answer(query_pairs(vstd::utf8::encode_utf8(query)), token, r)
    }
}

/// What a request gets.
pub fn route(head: &str, token: &str) -> (r: ShareRoute)
    ensures
        is_route(head@, token@, r),
{
    let lines = text::split_lines(text::chars_of(head).as_slice());
    assert(text::texts(lines@).len() == lines@.len());
    let words: Vec<Vec<char>> = if lines.len() > 0 {
        assert(text::texts(lines@)[0] == lines@[0]@);
        text::split_words(lines[0].as_slice())
    } else {
        Vec::new()
    };
    assert(text::texts(words@) =~= request_words(head@));
    assert(text::texts(words@).len() == words@.len());
    let method: Vec<char> = if words.len() > 0 {
        assert(text::texts(words@)[0] == words@[0]@);
        let mut m: Vec<char> = Vec::new();
        text::append_chars(&mut m, words[0].as_slice());
        assert(m@ =~= words@[0]@);
        m
    } else {
        Vec::new()
    };
    let target: Vec<char> = if words.len() > 1 {
        assert(text::texts(words@)[1] == words@[1]@);
        let mut t: Vec<char> = Vec::new();
        text::append_chars(&mut t, words[1].as_slice());
        assert(t@ =~= words@[1]@);
        t
    } else {
        Vec::new()
    };
    let i: usize = text::find_char(target.as_slice(), '?');
    let path = vstd::slice::slice_subrange(target.as_slice(), 0, i);
    let start: usize = if i < target.len() {
        i + 1
    } else {
        target.len()
    };
    let query = vstd::slice::slice_subrange(target.as_slice(), start, target.len());
    proof {
        assert(path@ =~= split_target(target@).0);
        assert(query@ =~= split_target(target@).1);
    }
    if !text::chars_eq(method.as_slice(), text::chars_of("GET").as_slice()) {
        return ShareRoute::MethodNotAllowed;
    }
    if !text::chars_eq(path, text::chars_of("/sub").as_slice()) {
        return ShareRoute::NotFound;
    }
    let pairs = parse_query(text::utf8_bytes(query).as_slice());
    answer(&pairs, token)
}

/// The kind of content of a refusal.
pub const PLAIN_TEXT: &'static str = "text/plain; charset=utf-8";

/// What is answered where the list is not served.
pub open spec fn is_refusal(route: ShareRoute, r: Option<Vec<u8>>) -> bool {
    match route {
        ShareRoute::MethodNotAllowed => r matches Some(b) && b@ == response_bytes(
            405,
            "Method Not Allowed",
            PLAIN_TEXT,
            "only GET is supported",
        ),
        ShareRoute::NotFound => r matches Some(b) && b@ == response_bytes(
            404,
            "Not Found",
            PLAIN_TEXT,
            "not found",
        ),
        ShareRoute::Forbidden => r matches Some(b) && b@ == response_bytes(
            403,
            "Forbidden",
            PLAIN_TEXT,
            "invalid token",
        ),
        ShareRoute::Serve { format: _ } => r is None,
    }
}

/// The answer to a request that does not get the list.
pub fn refusal(route: &ShareRoute) -> (r: Option<Vec<u8>>)
    ensures
        is_refusal(*route, r),
{
    match route {
        ShareRoute::MethodNotAllowed => Some(
            respond(405, "Method Not Allowed", PLAIN_TEXT, "only GET is supported"),
        ),
        ShareRoute::NotFound => Some(respond(404, "Not Found", PLAIN_TEXT, "not found")),
        ShareRoute::Forbidden => Some(respond(403, "Forbidden", PLAIN_TEXT, "invalid token")),
        ShareRoute::Serve { format: _ } => None,
    }
}

/// The form in which the list is served: the one that is asked for, or the
/// usual one.
pub fn served_format(state: &ShareState, asked: Option<SubscriptionFormat>) -> (r:
    SubscriptionFormat)
    ensures
        r == (match asked {
            Some(f) => f,
            None => state.format,
        }),
{
    match asked {
        Some(f) => f,
        None => state.format,
    }
}

/// The answer with the list.
pub fn serve(content_type: &str, body: &str) -> (r: Vec<u8>)
    ensures
        r@ == response_bytes(200, "OK", content_type, body),
{
    respond(200, "OK", content_type, body)
}

/// The answer to a client that took too long.
pub fn timeout_response() -> (r: Vec<u8>)
    ensures
        r@ == response_bytes(408, "Request Timeout", PLAIN_TEXT, "timeout"),
{
    respond(408, "Request Timeout", PLAIN_TEXT, "timeout")
}

/// Without the token nothing is served, whatever else a request says.
pub proof fn law_no_token_no_list(head: Seq<char>, token: Seq<char>, r: ShareRoute)
    requires
        is_route(head, token, r),
        r is Serve,
    ensures
        ({
            let words = request_words(head);
            let target = if words.len() > 1 { words[1] } else { seq![] };
            let pairs = query_pairs(vstd::utf8::encode_utf8(split_target(target).1));
            param_of(pairs, "token"@) == Some(token)
        }),
{
    let words = request_words(head);
    let target = if words.len() > 1 { words[1] } else { seq![] };
    let pairs = query_pairs(vstd::utf8::encode_utf8(split_target(target).1));
    let t = param_of(pairs, "token"@)->0;
    vstd::utf8::encode_utf8_decode_utf8(t);
    vstd::utf8::encode_utf8_decode_utf8(token);
}

/// A text that needs no escapes in a query.
pub open spec fn is_plain(s: Seq<char>) -> bool {
    forall|i: int|
        0 <= i < s.len() ==> '\0' <= #[trigger] s[i] <= '\u{7f}' && s[i] != '&' && s[i] != '=' && s[i]
            != '+' && s[i] != '%'
}

proof fn lemma_first_byte(s: Seq<u8>, b: u8, i: int)
    requires
        0 <= i <= s.len(),
        forall|k: int| 0 <= k < i ==> s[k] != b,
        i < s.len() ==> s[i] == b,
    ensures
        first_byte(s, b) == i,
    decreases s.len(),
{
    if i > 0 {
        let t = s.drop_first();
        assert forall|k: int| 0 <= k < i - 1 implies t[k] != b by {
            assert(t[k] == s[k + 1]);
        }
        lemma_first_byte(t, b, i - 1);
    }
}

proof fn lemma_no_escapes(s: Seq<u8>)
    requires
        forall|k: int| 0 <= k < s.len() ==> s[k] != 43 && s[k] != 37,
    ensures
        unescaped(s) == s,
    decreases s.len(),
{
    if s.len() > 0 {
        lemma_no_escapes(s.drop_first());
        assert(seq![s[0]] + s.drop_first() =~= s);
    }
}

/// A plain text is read as it is written.
proof fn lemma_plain_text(s: Seq<char>)
    requires
        is_plain(s),
    ensures
        ({
            let b = vstd::utf8::encode_utf8(s);
            &&& b.len() == s.len()
            &&& forall|k: int|
                0 <= k < b.len() ==> #[trigger] b[k] == s[k] as u8 && b[k] != 38 && b[k] != 61
                    && b[k] != 43 && b[k] != 37
            &&& text::lossy_text(unescaped(b)) == s
        }),
{
    let b = vstd::utf8::encode_utf8(s);
    assert(vstd::utf8::is_ascii_chars(s));
    vstd::utf8::is_ascii_chars_encode_utf8(s);
    assert forall|k: int| 0 <= k < b.len() implies #[trigger] b[k] == s[k] as u8 && b[k] != 38
        && b[k] != 61 && b[k] != 43 && b[k] != 37 by {
        assert(s[k] <= '\u{7f}');
        assert(s[k] as u8 == s[k] as u32);
    }
    lemma_no_escapes(b);
    vstd::utf8::encode_utf8_valid_utf8(s);
    vstd::utf8::encode_utf8_decode_utf8(s);
}

/// A plain name and a plain value make one pair.
proof fn lemma_plain_pair(name: Seq<char>, value: Seq<char>)
    requires
        is_plain(name),
        is_plain(value),
    ensures
        ({
            let b = vstd::utf8::encode_utf8(name + seq!['='] + value);
            &&& b == vstd::utf8::encode_utf8(name) + seq![61u8] + vstd::utf8::encode_utf8(value)
            &&& forall|k: int| 0 <= k < b.len() ==> #[trigger] b[k] != 38
            &&& pair_of(b) == (name, value)
        }),
{
    let all = name + seq!['='] + value;
    let b = vstd::utf8::encode_utf8(all);
    let n = vstd::utf8::encode_utf8(name);
    let v = vstd::utf8::encode_utf8(value);
    assert(vstd::utf8::is_ascii_chars(all));
    vstd::utf8::is_ascii_chars_encode_utf8(all);
    lemma_plain_text(name);
    lemma_plain_text(value);
    assert forall|k: int| 0 <= k < b.len() implies #[trigger] b[k] == (n + seq![61u8] + v)[k] by {
        assert(b[k] == all[k] as u8);
        if k < name.len() {
            assert(n[k] == name[k] as u8);
        } else if k > name.len() {
            assert(v[k - name.len() - 1] == value[k - name.len() - 1] as u8);
        }
    }
    assert(b =~= n + seq![61u8] + v);
    lemma_first_byte(b, 61, n.len() as int);
    assert(b.take(n.len() as int) =~= n);
    assert(b.skip(n.len() as int + 1) =~= v);
}

/// The target of a request for the list, split.
proof fn lemma_list_target(query: Seq<char>)
    ensures
        split_target("/sub?"@ + query) == ("/sub"@, query),
{
    reveal_strlit("/sub?");
    reveal_strlit("/sub");
    let t = "/sub?"@ + query;
    reveal_with_fuel(text::first_index, 6);
    assert(t.drop_first()[0] == 's');
    assert(t.drop_first().drop_first()[0] == 'u');
    assert(t.drop_first().drop_first().drop_first()[0] == 'b');
    assert(t.drop_first().drop_first().drop_first().drop_first()[0] == '?');
    assert(text::first_index(t, '?') == 4);
    assert(t.take(4) =~= "/sub"@);
    assert(t.skip(5) =~= query);
}

proof fn lemma_token_is_plain(token: Seq<char>)
    requires
        is_token(token),
    ensures
        is_plain(token),
        is_plain("token"@),
        is_plain("format"@),
{
    reveal_strlit("token");
    reveal_strlit("format");
    assert forall|i: int| 0 <= i < token.len() implies '\0' <= #[trigger] token[i] <= '\u{7f}' && token[i]
        != '&' && token[i] != '=' && token[i] != '+' && token[i] != '%' by {
        assert(is_token_digit(token[i]));
    }
}

/// The address with the token gets the list, in the form that is set.
pub proof fn law_right_token_gets_the_list(head: Seq<char>, token: Seq<char>, r: ShareRoute)
    requires
        is_token(token),
        request_words(head).len() > 1,
        request_words(head)[0] == "GET"@,
        request_words(head)[1] == "/sub?"@ + ("token"@ + seq!['='] + token),
        is_route(head, token, r),
    ensures
        r matches ShareRoute::Serve { format } && format is None,
{
    let query = "token"@ + seq!['='] + token;
    let b = vstd::utf8::encode_utf8(query);
    lemma_list_target(query);
    lemma_token_is_plain(token);
    lemma_plain_pair("token"@, token);
    lemma_first_byte(b, 38, b.len() as int);
    let pairs = query_pairs(b);
    assert(pairs =~= seq![("token"@, token)]);
    reveal_strlit("token");
    reveal_strlit("format");
    reveal_with_fuel(param_of, 2);
    assert("token"@.len() != "format"@.len());
}

/// A form that is asked for by a plain name is handed on.
pub proof fn law_asked_form_is_handed_on(
    head: Seq<char>,
    token: Seq<char>,
    form: Seq<char>,
    r: ShareRoute,
)
    requires
        is_token(token),
        is_plain(form),
        request_words(head).len() > 1,
        request_words(head)[0] == "GET"@,
        request_words(head)[1] == "/sub?"@ + (("token"@ + seq!['='] + token) + seq!['&'] + (
        "format"@ + seq!['='] + form)),
        is_route(head, token, r),
    ensures
        r matches ShareRoute::Serve { format } && format matches Some(f) && f@ == form,
{
    let one = "token"@ + seq!['='] + token;
    let two = "format"@ + seq!['='] + form;
    let query = one + seq!['&'] + two;
    lemma_list_target(query);
    lemma_token_is_plain(token);
    lemma_plain_pair("token"@, token);
    lemma_plain_pair("format"@, form);
    let a = vstd::utf8::encode_utf8(one);
    let c = vstd::utf8::encode_utf8(two);
    let b = vstd::utf8::encode_utf8(query);
    assert(vstd::utf8::is_ascii_chars(one));
    assert(vstd::utf8::is_ascii_chars(two));
    assert(vstd::utf8::is_ascii_chars(query));
    vstd::utf8::is_ascii_chars_encode_utf8(one);
    vstd::utf8::is_ascii_chars_encode_utf8(two);
    vstd::utf8::is_ascii_chars_encode_utf8(query);
    assert forall|k: int| 0 <= k < b.len() implies #[trigger] b[k] == (a + seq![38u8] + c)[k] by {
        assert(b[k] == query[k] as u8);
        if k < one.len() {
            assert(a[k] == one[k] as u8);
        } else if k > one.len() {
            assert(c[k - one.len() - 1] == two[k - one.len() - 1] as u8);
        }
    }
    assert(b =~= a + seq![38u8] + c);
    lemma_first_byte(b, 38, a.len() as int);
    assert(b.take(a.len() as int) =~= a);
    assert(b.skip(a.len() as int + 1) =~= c);
    lemma_first_byte(c, 38, c.len() as int);
    reveal_strlit("token");
    reveal_strlit("format");
    let pairs = query_pairs(b);
    assert(query_pairs(c) =~= seq![("format"@, form)]);
    assert(pairs =~= seq![("token"@, token), ("format"@, form)]);
    assert(pairs.drop_last() =~= seq![("token"@, token)]);
    reveal_with_fuel(param_of, 3);
    assert("token"@.len() != "format"@.len());
}

/// A word of a request line.
pub open spec fn is_word(s: Seq<char>) -> bool {
    s.len() > 0 && forall|i: int| 0 <= i < s.len() ==> !text::is_space(#[trigger] s[i])
}

/// A request as it arrives, with `rest` behind its first line.
pub open spec fn request_head(method: Seq<char>, target: Seq<char>, rest: Seq<char>) -> Seq<char> {
    method + " "@ + target + " HTTP/1.1\r\n"@ + rest
}

proof fn lemma_request_words(method: Seq<char>, target: Seq<char>, rest: Seq<char>)
    requires
        is_word(method),
        is_word(target),
    ensures
        request_words(request_head(method, target, rest)).len() > 1,
        request_words(request_head(method, target, rest))[0] == method,
        request_words(request_head(method, target, rest))[1] == target,
{
    reveal_strlit(" ");
    reveal_strlit(" HTTP/1.1");
    reveal_strlit(" HTTP/1.1\r\n");
    let head = request_head(method, target, rest);
    let line = method + " "@ + target + " HTTP/1.1"@;
    let n = line.len() + 1;
    assert forall|k: int| 0 <= k < n implies head[k] != '\n' by {
        if k < method.len() {
            assert(head[k] == method[k]);
        } else if method.len() < k <= method.len() + target.len() {
            assert(head[k] == target[k - method.len() - 1]);
        }
    }
    assert(head[n as int] == '\n');
    text::lemma_first_index_unique(head, '\n', n as int);
    assert(head.take(n as int) =~= line.push('\r'));
    assert(line.push('\r').drop_last() =~= line);
    assert(text::lines_of(head)[0] == line);
    let behind = " "@ + target + " HTTP/1.1"@;
    let last = " HTTP/1.1"@;
    assert(line =~= method + behind);
    text::lemma_first_word(method, behind);
    assert(behind.drop_first() =~= target + last);
    text::lemma_first_word(target, last);
}

/// Only GET is served: any other method is turned away, whatever it asks for.
pub proof fn law_other_methods_are_refused(
    method: Seq<char>,
    target: Seq<char>,
    rest: Seq<char>,
    token: Seq<char>,
    r: ShareRoute,
)
    requires
        is_word(method),
        is_word(target),
        method != "GET"@,
        is_route(request_head(method, target, rest), token, r),
    ensures
        r is MethodNotAllowed,
{
    lemma_request_words(method, target, rest);
}

/// The path of a target is all of it before the first question mark.
pub open spec fn has_path(target: Seq<char>, path: Seq<char>) -> bool {
    &&& !path.contains('?')
    &&& target == path || exists|query: Seq<char>| target == #[trigger] (path + seq!['?'] + query)
}

proof fn lemma_path(target: Seq<char>, path: Seq<char>)
    requires
        has_path(target, path),
    ensures
        split_target(target).0 == path,
{
    assert forall|k: int| 0 <= k < path.len() implies target[k] != '?' by {
        assert(path.contains(path[k]) && target[k] == path[k]);
    }
    text::lemma_first_index_unique(target, '?', path.len() as int);
    assert(target.take(path.len() as int) =~= path);
}

/// Only one path is served: a GET for any other finds nothing.
pub proof fn law_other_paths_are_not_found(
    target: Seq<char>,
    path: Seq<char>,
    rest: Seq<char>,
    token: Seq<char>,
    r: ShareRoute,
)
    requires
        is_word(target),
        has_path(target, path),
        path != "/sub"@,
        is_route(request_head("GET"@, target, rest), token, r),
    ensures
        r is NotFound,
{
    reveal_strlit("GET");
    lemma_request_words("GET"@, target, rest);
    lemma_path(target, path);
}

/// A request for the list without a token is turned away, whatever the token is.
pub proof fn law_request_without_token_is_forbidden(
    rest: Seq<char>,
    token: Seq<char>,
    r: ShareRoute,
)
    requires
        is_route(request_head("GET"@, "/sub"@, rest), token, r),
    ensures
        r is Forbidden,
{
    reveal_strlit("GET");
    reveal_strlit("/sub");
    lemma_request_words("GET"@, "/sub"@, rest);
    assert(!"/sub"@.contains('?'));
    lemma_path("/sub"@, "/sub"@);
    text::lemma_first_index_unique("/sub"@, '?', 4);
    assert(split_target("/sub"@).1.len() == 0);
    let query = split_target("/sub"@).1;
    assert(query =~= seq![]);
    assert(vstd::utf8::encode_utf8(query).len() == 0);
}

/// The list is served exactly where the last token that the request gives is the right one, and
/// the request is turned away as forbidden exactly where it is another.
pub proof fn law_token_decides(
    pairs: Seq<(Seq<char>, Seq<char>)>,
    given: Seq<char>,
    token: Seq<char>,
    r: ShareRoute,
)
    requires
        is_answer(pairs.push(("token"@, given)), token, r),
    ensures
        r is Serve == (given == token),
        r is Forbidden == (given != token),
{
    let all = pairs.push(("token"@, given));
    assert(all.last() == ("token"@, given));
    if vstd::utf8::encode_utf8(given) == vstd::utf8::encode_utf8(token) {
        vstd::utf8::encode_utf8_decode_utf8(given);
        vstd::utf8::encode_utf8_decode_utf8(token);
    }
}

/// The last of the pairs with a key counts, and pairs with other keys do not.
pub proof fn law_last_parameter_counts(
    pairs: Seq<(Seq<char>, Seq<char>)>,
    key: Seq<char>,
    value: Seq<char>,
    other: Seq<char>,
)
    ensures
        param_of(pairs.push((key, value)), key) == Some(value),
        other != key ==> param_of(pairs.push((key, value)), other) == param_of(pairs, other),
{
    assert(pairs.push((key, value)).drop_last() =~= pairs);
}

/// In a query a plus stands for a blank, and a percent sign with two hexadecimal digits for the
/// byte that they write; any other byte stands for itself.
pub proof fn law_escapes_are_read(high: u8, low: u8, other: u8, rest: Seq<u8>)
    requires
        '0' as u8 <= high <= '9' as u8 || 'A' as u8 <= high <= 'F' as u8,
        '0' as u8 <= low <= '9' as u8 || 'A' as u8 <= low <= 'F' as u8,
        other != '+' as u8,
        other != '%' as u8,
    ensures
        ({
            let value = |d: u8| if d <= '9' as u8 { d - '0' as u8 } else { d - 'A' as u8 + 10 };
            &&& unescaped(seq!['+' as u8] + rest) == seq![' ' as u8] + unescaped(rest)
            &&& unescaped(seq!['%' as u8, high, low] + rest) == seq![
                (16 * value(high) + value(low)) as u8,
            ] + unescaped(rest)
            &&& unescaped(seq![other] + rest) == seq![other] + unescaped(rest)
        }),
{
    assert((seq!['+' as u8] + rest).drop_first() =~= rest);
    assert((seq![other] + rest).drop_first() =~= rest);
    let s = seq!['%' as u8, high, low] + rest;
    assert(s.skip(3) =~= rest);
    let pair = s.subrange(1, 3);
    assert(pair[0] == high && pair[1] == low);
    let value = |d: u8| if d <= '9' as u8 { d - '0' as u8 } else { d - 'A' as u8 + 10 };
    assert(crypto::hex_bytes(pair) =~= seq![(16 * value(high) + value(low)) as u8]);
}

/// A response says its status first, then the length of its body in bytes, and ends with a blank
/// line and the body.
pub proof fn law_response_carries_the_body(
    status: u16,
    reason: Seq<char>,
    content_type: Seq<char>,
    body_len: nat,
    body: Seq<char>,
)
    ensures
        ({
            let t = response_text(status, reason, content_type, body_len, body);
            &&& text::has_prefix(
                t,
                "HTTP/1.1 "@ + text::decimal(status as nat) + " "@ + reason + "\r\n"@,
            )
            &&& text::contains_text(t, "\r\nContent-Type: "@ + content_type + "\r\n"@)
            &&& text::contains_text(
                t,
                "\r\nContent-Length: "@ + text::decimal(body_len) + "\r\n"@,
            )
            &&& text::has_suffix(t, "\r\nConnection: close\r\n\r\n"@ + body)
        }),
{
    reveal_strlit("HTTP/1.1 ");
    reveal_strlit(" ");
    reveal_strlit("\r\n");
    reveal_strlit("\r\nContent-Type: ");
    reveal_strlit("\r\nContent-Length: ");
    reveal_strlit("\r\nConnection: close\r\n\r\n");
    reveal_strlit(
        "\r\nCache-Control: no-store, no-cache, must-revalidate\r\nPragma: no-cache\r\nConnection: close\r\n\r\n",
    );
    let t = response_text(status, reason, content_type, body_len, body);
    let s = text::decimal(status as nat);
    let n = text::decimal(body_len);
    let first = "HTTP/1.1 "@ + s + " "@ + reason + "\r\n"@;
    assert(t.take(first.len() as int) =~= first);
    let a = first.len() - 2;
    let kind = "\r\nContent-Type: "@ + content_type + "\r\n"@;
    assert(t.subrange(a, a + kind.len()) =~= kind);
    assert(text::occurs_at(t, kind, a));
    let b = a + kind.len() - 2;
    let length = "\r\nContent-Length: "@ + n + "\r\n"@;
    assert(t.subrange(b, b + length.len()) =~= length);
    assert(text::occurs_at(t, length, b));
    let end = "\r\nConnection: close\r\n\r\n"@ + body;
    assert(t.skip(t.len() - end.len()) =~= end);
}

/// Each refusal is a response with the status that belongs to it, and a request that is served
/// is not refused.
pub proof fn law_refusal_has_its_status(route: ShareRoute, r: Option<Vec<u8>>) -> (t: Seq<char>)
    requires
        is_refusal(route, r),
    ensures
        route is Serve ==> r is None,
        !(route is Serve) ==> (r matches Some(b) && b@ == vstd::utf8::encode_utf8(t)),
        route is MethodNotAllowed ==> text::has_prefix(t, "HTTP/1.1 405 "@),
        route is NotFound ==> text::has_prefix(t, "HTTP/1.1 404 "@),
        route is Forbidden ==> text::has_prefix(t, "HTTP/1.1 403 "@),
{
    reveal_strlit("HTTP/1.1 ");
    reveal_strlit("HTTP/1.1 405 ");
    reveal_strlit("HTTP/1.1 404 ");
    reveal_strlit("HTTP/1.1 403 ");
    reveal_strlit(" ");
    reveal_with_fuel(text::decimal, 4);
    assert(text::decimal(405) =~= seq!['4', '0', '5']);
    assert(text::decimal(404) =~= seq!['4', '0', '4']);
    assert(text::decimal(403) =~= seq!['4', '0', '3']);
    let t = match route {
        ShareRoute::MethodNotAllowed => response_text(
            405,
            "Method Not Allowed"@,
            PLAIN_TEXT@,
            "only GET is supported".spec_bytes().len(),
            "only GET is supported"@,
        ),
        ShareRoute::NotFound => response_text(
            404,
            "Not Found"@,
            PLAIN_TEXT@,
            "not found".spec_bytes().len(),
            "not found"@,
        ),
        ShareRoute::Forbidden => response_text(
            403,
            "Forbidden"@,
            PLAIN_TEXT@,
            "invalid token".spec_bytes().len(),
            "invalid token"@,
        ),
        ShareRoute::Serve { format: _ } => seq![],
    };
    if route is MethodNotAllowed {
        assert(t.take(13) =~= "HTTP/1.1 405 "@);
    } else if route is NotFound {
        assert(t.take(13) =~= "HTTP/1.1 404 "@);
    } else if route is Forbidden {
        assert(t.take(13) =~= "HTTP/1.1 403 "@);
    }
    t
}

/// The address of this machine itself is not handed out, be it of either kind.
pub proof fn law_loopback_is_not_shared(low: u32, ip: u32)
    requires
        low < 0x100_0000,
    ensures
        !usable_lan_ip(IpAddr::V4((0x7f00_0000 + low) as u32)),
        !usable_lan_ip(IpAddr::V6(1)),
        ip < 0x7f00_0000 || ip >= 0x8000_0000 ==> usable_lan_ip(IpAddr::V4(ip)),
{
}

/// A request is looked at as soon as its blank line is there, and one without is waited for up
/// to 16384 bytes.
pub proof fn law_request_is_whole_at_its_blank_line(all: Seq<u8>, k: int, r: HeadStep)
    requires
        is_head_step(all, r),
    ensures
        0 <= k && k + 4 <= all.len() && all.subrange(k, k + 4) == seq![13u8, 10, 13, 10] ==> (
        r matches HeadStep::Done(t) && t@ == text::lossy_text(all)),
        r is More ==> all.len() <= 16384,
        r is TooLarge ==> all.len() > 16384,
{
    if 0 <= k && k + 4 <= all.len() && all.subrange(k, k + 4) == seq![13u8, 10, 13, 10] {
        let s = all.subrange(k, k + 4);
        assert(s[0] == all[k] && s[1] == all[k + 1] && s[2] == all[k + 2] && s[3] == all[k + 3]);
        assert(http::is_blank_line(all, k));
        http::lemma_header_end(all);
    }
}

} // verus!
