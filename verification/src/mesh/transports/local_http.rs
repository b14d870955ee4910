//! The local HTTP transport: peer addresses, the HTTP/1.1 request a ping
//! or a query sends, and what the peer's answer means. The bytes travel
//! over a socket that the caller opens; everything decided before and
//! after that is here.
use crate::mesh::envelope::{json_str, push_json_str, uuid_text, ProtocolEnvelope};
use crate::mesh::identity::{owned, opt_view, PeerIdentity, TransportEndpoint, TransportEndpointView};
use crate::mesh::transport::{TransportCapacity, TransportError, TransportReceipt};
use crate::text::{
    all_digits, chars_of, decimal_value, digit_value, is_digit, unsigned_digits, exec_find_from, exec_matches_at, find_from,
    lemma_find_from, matches_at, parse_u16, parse_u16_chars, str_eq, string_of, trim, trim_bounds, trim_end_char,
    trim_end_char_str,
};
use vstd::prelude::*;
use vstd::utf8::encode_utf8;

verus! {

broadcast use vstd::string::group_string_axioms;

/* Peer addresses. */

/// Index of the first `c` at or after `i`, if any.
pub open spec fn index_of(s: Seq<char>, c: char, i: int) -> Option<int>
    decreases s.len() - i,
{
    if i < 0 || i >= s.len() {
        None
    } else if s[i] == c {
        Some(i)
    } else {
        index_of(s, c, i + 1)
    }
}

/// Index of the last `c` before `j`, if any.
pub open spec fn last_index_of(s: Seq<char>, c: char, j: int) -> Option<int>
    decreases j,
{
    if j <= 0 || j > s.len() {
        None
    } else if s[j - 1] == c {
        Some(j - 1)
    } else {
        last_index_of(s, c, j - 1)
    }
}

/// An `http://` address split into host, port (80 when none is given)
/// and path (`/` when none is given). Refused with
/// `only_http_supported_in_mesh_v0` without the scheme, `missing_host`
/// when the authority is blank and `invalid_port` when the text after the
/// last `:` of the authority is not a port number.
pub open spec fn parsed_http_url(url: Seq<char>) -> Result<(Seq<char>, u16, Seq<char>), Seq<char>> {
    if !matches_at(url, 0, "http://"@) {
        Err("only_http_supported_in_mesh_v0"@)
    } else {
        let rest = url.subrange(7, url.len() as int);
        let (authority, path) = match index_of(rest, '/', 0) {
            Some(k) => (rest.subrange(0, k), rest.subrange(k, rest.len() as int)),
            None => (rest, "/"@),
        };
        if trim(authority).len() == 0 {
            Err("missing_host"@)
        } else {
            match last_index_of(authority, ':', authority.len() as int) {
                Some(k) => match parse_u16(authority.subrange(k + 1, authority.len() as int)) {
                    Some(port) => Ok((authority.subrange(0, k), port, path)),
                    None => Err("invalid_port"@),
                },
                None => Ok((authority, 80, path)),
            }
        }
    }
}

pub proof fn lemma_index_of(s: Seq<char>, c: char, i: int)
    requires
        0 <= i,
    ensures
        match index_of(s, c, i) {
            Some(k) => i <= k < s.len() && s[k] == c && forall|m: int| i <= m < k ==> s[m] != c,
            None => forall|m: int| i <= m < s.len() ==> s[m] != c,
        },
    decreases s.len() - i,
{
    if i < s.len() && s[i] != c {
        lemma_index_of(s, c, i + 1);
    }
}

pub proof fn lemma_last_index_of(s: Seq<char>, c: char, j: int)
    requires
        j <= s.len(),
    ensures
        match last_index_of(s, c, j) {
            Some(k) => 0 <= k < j && s[k] == c,
            None => true,
        },
    decreases j,
{
    if j > 0 && s[j - 1] != c {
        lemma_last_index_of(s, c, j - 1);
    }
}

fn exec_index_of(v: &[char], c: char, i: usize) -> (r: Option<usize>)
    requires
        i <= v@.len(),
    ensures
        match r {
            Some(k) => index_of(v@, c, i as int) == Some(k as int),
            None => index_of(v@, c, i as int) is None,
        },
{
    let mut k = i;
    while k < v.len()
        invariant
            i <= k <= v@.len(),
            index_of(v@, c, i as int) == index_of(v@, c, k as int),
        decreases v@.len() - k,
    {
        if v[k] == c {
            return Some(k);
        }
        k = k + 1;
    }
    None
}

fn exec_last_index_of(v: &[char], c: char, j: usize) -> (r: Option<usize>)
    requires
        j <= v@.len(),
    ensures
        match r {
            Some(k) => last_index_of(v@, c, j as int) == Some(k as int),
            None => last_index_of(v@, c, j as int) is None,
        },
{
    let mut k = j;
    while k > 0
        invariant
            k <= j <= v@.len(),
            last_index_of(v@, c, j as int) == last_index_of(v@, c, k as int),
        decreases k,
    {
        if v[k - 1] == c {
            return Some(k - 1);
        }
        k = k - 1;
    }
    None
}

pub open spec fn parsed_view(r: Result<(String, u16, String), String>) -> Result<
    (Seq<char>, u16, Seq<char>),
    Seq<char>,
> {
    match r {
        Ok((h, p, path)) => Ok((h@, p, path@)),
        Err(e) => Err(e@),
    }
}

pub fn parse_http_url(url: &str) -> (r: Result<(String, u16, String), String>)
    ensures
        parsed_view(r) == parsed_http_url(url@),
{
    let v = chars_of(url);
    let scheme = chars_of("http://");
    proof {
        reveal_strlit("http://");
    }
    if !exec_matches_at(v.as_slice(), 0, scheme.as_slice()) {
        return Err(owned("only_http_supported_in_mesh_v0"));
    }
    let ghost rest = v@.subrange(7, v@.len() as int);
    let tail = string_of(v.as_slice(), 7, v.len());
    let w = chars_of(tail.as_str());
    assert(w@ == rest);
    let ghost spec_parts = match index_of(rest, '/', 0) {
        Some(k) => (rest.subrange(0, k), rest.subrange(k, rest.len() as int)),
        None => (rest, "/"@),
    };
    let (auth_end, path) = match exec_index_of(w.as_slice(), '/', 0) {
        Some(k) => {
            proof {
                lemma_index_of(w@, '/', 0);
            }
            let p = string_of(w.as_slice(), k, w.len());
            assert(spec_parts.0 == w@.subrange(0, k as int));
            assert(spec_parts.1 == p@);
            (k, p)
        },
        None => {
            let p = owned("/");
            assert(w@.subrange(0, w@.len() as int) =~= w@);
            assert(spec_parts.0 == w@.subrange(0, w@.len() as int));
            assert(spec_parts.1 == p@);
            (w.len(), p)
        },
    };
    let ghost authority = w@.subrange(0, auth_end as int);
    let a = chars_of(string_of(w.as_slice(), 0, auth_end).as_str());
    assert(a@ == authority);
    assert(authority == spec_parts.0);
    let (x, y) = trim_bounds(a.as_slice());
    if x == y {
        return Err(owned("missing_host"));
    }
    match exec_last_index_of(a.as_slice(), ':', a.len()) {
        Some(k) => {
            proof {
                lemma_last_index_of(a@, ':', a@.len() as int);
            }
            match parse_u16_chars(a.as_slice(), k + 1, a.len()) {
                Some(port) => Ok((string_of(a.as_slice(), 0, k), port, path)),
                None => Err(owned("invalid_port")),
            }
        },
        None => {
            assert(a@.subrange(0, a@.len() as int) =~= a@);
            Ok((string_of(a.as_slice(), 0, a.len()), 80, path))
        },
    }
}

/// A request path under a base path: the endpoint gets a leading `/` when
/// it has none, and is appended to the base path without its trailing
/// slashes (or taken alone when the base path is `/`).
pub open spec fn joined_path_spec(base_path: Seq<char>, endpoint: Seq<char>) -> Seq<char> {
    let e = if endpoint.len() > 0 && endpoint[0] == '/' {
        endpoint
    } else {
        "/"@ + endpoint
    };
    if base_path == "/"@ {
        e
    } else {
        trim_end_char(base_path, '/') + e
    }
}

pub fn joined_path(base_path: &str, endpoint: &str) -> (r: String)
    ensures
        r@ == joined_path_spec(base_path@, endpoint@),
{
    let ev = chars_of(endpoint);
    let e = if ev.len() > 0 && ev[0] == '/' {
        owned(endpoint)
    } else {
        let mut s = owned("/");
        s.append(endpoint);
        s
    };
    if str_eq(base_path, "/") {
        e
    } else {
        let mut s = trim_end_char_str(base_path, '/');
        s.append(e.as_str());
        s
    }
}

/* HTTP/1.1 request and response text. */

/// Decimal text of a number.
pub open spec fn dec_text(n: nat) -> Seq<char>
    decreases n,
{
    if n < 10 {
        seq![((48 + n) as int) as char]
    } else {
        dec_text(n / 10) + seq![((48 + n % 10) as int) as char]
    }
}

fn push_dec(out: &mut String, n: u64)
    ensures
        final(out)@ == old(out)@ + dec_text(n as nat),
    decreases n,
{
    if n >= 10 {
        push_dec(out, n / 10);
    }
    let d: u8 = (n % 10) as u8;
    out.push((48 + d) as char);
}

proof fn lemma_dec_text(n: nat)
    ensures
        dec_text(n).len() > 0,
        all_digits(dec_text(n)),
        decimal_value(dec_text(n)) == n,
    decreases n,
{
    let d: int = (n % 10) as int;
    assert(((48 + d) as char) as int == 48 + d);
    assert(('0' as int) == 48);
    let s = dec_text(n);
    if n >= 10 {
        lemma_dec_text(n / 10);
        assert(s.drop_last() =~= dec_text(n / 10));
        assert(s.last() == ((48 + d) as char));
        assert(n == (n / 10) * 10 + d);
        assert(decimal_value(s) == decimal_value(s.drop_last()) * 10 + digit_value(s.last()));
    } else {
        assert(d == n);
        assert(s.drop_last() =~= Seq::<char>::empty());
        assert(decimal_value(s) == decimal_value(s.drop_last()) * 10 + digit_value(s.last()));
    }
}

proof fn lemma_last_index_skip(s: Seq<char>, c: char, k: int, j: int)
    requires
        0 <= k <= j <= s.len(),
        forall|m: int| k <= m < j ==> s[m] != c,
    ensures
        last_index_of(s, c, j) == last_index_of(s, c, k),
    decreases j - k,
{
    if k < j {
        lemma_last_index_skip(s, c, k, j - 1);
    }
}

/// An address built from a host (not blank, without `/`), a port and a
/// path starting with `/` parses back to that host, port and path.
pub proof fn law_http_url_round_trip(host: Seq<char>, port: u16, path: Seq<char>)
    requires
        !crate::text::is_blank(host),
        forall|i: int| 0 <= i < host.len() ==> host[i] != '/',
        path.len() > 0,
        path[0] == '/',
    ensures
        parsed_http_url("http://"@ + host + ":"@ + dec_text(port as nat) + path) == Ok::<
            (Seq<char>, u16, Seq<char>),
            Seq<char>,
        >((host, port, path)),
{
    reveal_strlit("http://");
    reveal_strlit(":");
    let dt = dec_text(port as nat);
    lemma_dec_text(port as nat);
    let url = "http://"@ + host + ":"@ + dt + path;
    assert(url.subrange(0, 7) =~= "http://"@);
    let rest = url.subrange(7, url.len() as int);
    let authority = host + ":"@ + dt;
    assert(rest =~= authority + path);
    let pos = authority.len() as int;
    assert forall|m: int| 0 <= m < pos implies rest[m] != '/' by {
        if m < host.len() {
            assert(rest[m] == host[m]);
        } else if m > host.len() {
            assert(rest[m] == dt[m - host.len() - 1]);
            assert(is_digit(dt[m - host.len() - 1]));
        }
    }
    assert(rest[pos] == '/');
    lemma_index_of(rest, '/', 0);
    assert(index_of(rest, '/', 0) == Some(pos));
    assert(rest.subrange(0, pos) =~= authority);
    assert(rest.subrange(pos, rest.len() as int) =~= path);
    assert(trim(authority).len() > 0) by {
        if trim(authority).len() == 0 {
            crate::text::lemma_blank_all_ws(authority);
            assert(crate::text::is_ws(authority[host.len() as int]));
        }
    }
    assert forall|m: int| host.len() + 1 <= m < authority.len() implies authority[m] != ':' by {
        assert(is_digit(dt[m - host.len() - 1]));
    }
    lemma_last_index_skip(authority, ':', (host.len() + 1) as int, authority.len() as int);
    assert(last_index_of(authority, ':', (host.len() + 1) as int) == Some(host.len() as int));
    assert(authority.subrange((host.len() + 1) as int, authority.len() as int) =~= dt);
    assert(authority.subrange(0, host.len() as int) =~= host);
    assert(is_digit(dt[0]));
    assert(unsigned_digits(dt) == dt);
}

/// The length in bytes of a text's UTF-8 encoding, as `str::len` gives it.
pub open spec fn byte_count(s: Seq<char>) -> nat {
    (encode_utf8(s).len() as usize) as nat
}

/// The text of an HTTP/1.1 request to `host:port`: a `GET` asks for JSON,
/// any other method carries `body` as JSON with its length in bytes; the
/// connection closes after the answer.
pub open spec fn request_text(
    method: Seq<char>,
    path: Seq<char>,
    host: Seq<char>,
    port: u16,
    body: Seq<char>,
) -> Seq<char> {
    if method == "GET"@ {
        "GET "@ + path + " HTTP/1.1\r\nHost: "@ + host + ":"@ + dec_text(port as nat)
            + "\r\nAccept: application/json\r\nConnection: close\r\n\r\n"@
    } else {
        method + " "@ + path + " HTTP/1.1\r\nHost: "@ + host + ":"@ + dec_text(port as nat)
            + "\r\nContent-Type: application/json\r\nContent-Length: "@ + dec_text(
            byte_count(body),
        ) + "\r\nConnection: close\r\n\r\n"@ + body
    }
}

/// A request ready to be written to `host:port`.
#[derive(Debug)]
pub struct HttpExchange {
    pub host: String,
    pub port: u16,
    pub request: String,
}

pub open spec fn body_text(body: Option<&str>) -> Seq<char> {
    match body {
        Some(b) => b@,
        None => Seq::empty(),
    }
}

/// The request for `endpoint` of the node at `base_url`, or why the address
/// cannot be used.
pub open spec fn prepared_request(
    base_url: Seq<char>,
    method: Seq<char>,
    endpoint: Seq<char>,
    body: Seq<char>,
) -> Result<(Seq<char>, u16, Seq<char>), Seq<char>> {
    match parsed_http_url(base_url) {
        Err(e) => Err(e),
        Ok((host, port, base_path)) => Ok(
            (host, port, request_text(method, joined_path_spec(base_path, endpoint), host, port, body)),
        ),
    }
}

pub fn prepare_http_request(base_url: &str, method: &str, endpoint: &str, body: Option<&str>) -> (r:
    Result<HttpExchange, String>)
    ensures
        match r {
            Ok(x) => prepared_request(base_url@, method@, endpoint@, body_text(body)) == Ok::<
                (Seq<char>, u16, Seq<char>),
                Seq<char>,
            >((x.host@, x.port, x.request@)),
            Err(e) => prepared_request(base_url@, method@, endpoint@, body_text(body)) == Err::<
                (Seq<char>, u16, Seq<char>),
                Seq<char>,
            >(e@),
        },
{
    let (host, port, base_path) = match parse_http_url(base_url) {
        Ok(parts) => parts,
        Err(e) => {
            return Err(e);
        },
    };
    let path = joined_path(base_path.as_str(), endpoint);
    let b: &str = match body {
        Some(b) => b,
        None => "",
    };
    proof {
        reveal_strlit("");
    }
    let mut req = String::new();
    if str_eq(method, "GET") {
        req.append("GET ");
        req.append(path.as_str());
        req.append(" HTTP/1.1\r\nHost: ");
        req.append(host.as_str());
        req.append(":");
        push_dec(&mut req, port as u64);
        req.append("\r\nAccept: application/json\r\nConnection: close\r\n\r\n");
    } else {
        req.append(method);
        req.append(" ");
        req.append(path.as_str());
        req.append(" HTTP/1.1\r\nHost: ");
        req.append(host.as_str());
        req.append(":");
        push_dec(&mut req, port as u64);
        req.append("\r\nContent-Type: application/json\r\nContent-Length: ");
        push_dec(&mut req, b.len() as u64);
        req.append("\r\nConnection: close\r\n\r\n");
        req.append(b);
    }
    assert(req@ =~= request_text(method@, path@, host@, port, b@));
    Ok(HttpExchange { host, port, request: req })
}

/// A successful answer: the status line starts with `HTTP/1.1 2` or
/// `HTTP/1.0 2`.
pub open spec fn status_ok(response: Seq<char>) -> bool {
    matches_at(response, 0, "HTTP/1.1 2"@) || matches_at(response, 0, "HTTP/1.0 2"@)
}

/// The first line of a text, as `str::lines` yields it: up to the first
/// `\n`, without a `\r` just before it; `None` for an empty text.
pub open spec fn first_line(s: Seq<char>) -> Option<Seq<char>> {
    if s.len() == 0 {
        None
    } else {
        match index_of(s, '\n', 0) {
            Some(e) => if e > 0 && s[e - 1] == '\r' {
                Some(s.subrange(0, e - 1))
            } else {
                Some(s.subrange(0, e))
            },
            None => Some(s),
        }
    }
}

/// The body of an answer: the text after the first blank line (empty when
/// there is none). An answer whose status is not a success is refused with
/// `peer_http_error: ` and its status line (or `empty_response`).
pub open spec fn response_body(response: Seq<char>) -> Result<Seq<char>, Seq<char>> {
    if !status_ok(response) {
        Err(
            "peer_http_error: "@ + match first_line(response) {
                Some(l) => l,
                None => "empty_response"@,
            },
        )
    } else {
        match find_from(response, "\r\n\r\n"@, 0) {
            Some(k) => Ok(response.subrange(k + 4, response.len() as int)),
            None => Ok(Seq::empty()),
        }
    }
}

fn first_line_text(v: &[char]) -> (r: Option<String>)
    ensures
        opt_view(r) == first_line(v@),
{
    if v.len() == 0 {
        return None;
    }
    match exec_index_of(v, '\n', 0) {
        Some(e) => {
            proof {
                lemma_index_of(v@, '\n', 0);
            }
            if e > 0 && v[e - 1] == '\r' {
                Some(string_of(v, 0, e - 1))
            } else {
                Some(string_of(v, 0, e))
            }
        },
        None => {
            assert(v@.subrange(0, v@.len() as int) =~= v@);
            Some(string_of(v, 0, v.len()))
        },
    }
}

pub fn http_response_body(response: &str) -> (r: Result<String, String>)
    ensures
        match r {
            Ok(b) => response_body(response@) == Ok::<Seq<char>, Seq<char>>(b@),
            Err(e) => response_body(response@) == Err::<Seq<char>, Seq<char>>(e@),
        },
{
    let v = chars_of(response);
    let ok11 = chars_of("HTTP/1.1 2");
    let ok10 = chars_of("HTTP/1.0 2");
    if !(exec_matches_at(v.as_slice(), 0, ok11.as_slice()) || exec_matches_at(
        v.as_slice(),
        0,
        ok10.as_slice(),
    )) {
        let mut e = owned("peer_http_error: ");
        match first_line_text(v.as_slice()) {
            Some(l) => e.append(l.as_str()),
            None => e.append("empty_response"),
        }
        return Err(e);
    }
    let sep = chars_of("\r\n\r\n");
    proof {
        reveal_strlit("\r\n\r\n");
    }
    match exec_find_from(v.as_slice(), sep.as_slice(), 0) {
        Some(k) => {
            proof {
                lemma_find_from(v@, sep@, 0);
            }
            let n = v.len();
            assert(k + 4 <= n);
            Ok(string_of(v.as_slice(), k + 4, n))
        },
        None => Ok(String::new()),
    }
}

/* The ping a local HTTP transport sends. */

/// The `message` text of a JSON payload, as `serde_json` reads it: the
/// string under the `message` key of a payload that parses as a JSON
/// object; `None` when the payload does not parse, has no such key or the
/// value is not a string.
pub uninterp spec fn json_message_field(payload: Seq<char>) -> Option<Seq<char>>;

/// Reads the `message` string of a JSON payload with `serde_json`
/// (`from_str` into a `Value`, `get("message")`, `as_str`). Its result is
/// a function of the payload text alone.
#[verifier::external_body]
fn payload_message(payload: &str) -> (r: Option<String>)
    ensures
        opt_view(r) == json_message_field(payload@),
{
    match serde_json::from_str::<serde_json::Value>(payload) {
        Ok(value) => match value.get("message") {
            Some(message) => match message.as_str() {
                Some(text) => Some(text.to_string()),
                None => None,
            },
            None => None,
        },
        Err(_) => None,
    }
}

/// The JSON body of a ping: the message, the message id and the source,
/// keys in sorted order.
pub open spec fn ping_body(message: Seq<char>, source: Seq<char>, message_id: u128) -> Seq<char> {
    "{\"message\":"@ + json_str(message) + ",\"messageId\":\""@ + uuid_text(message_id)
        + "\",\"source\":"@ + json_str(source) + "}"@
}

fn ping_body_text(message: &str, source: &str, message_id: u128) -> (r: String)
    ensures
        r@ == ping_body(message@, source@, message_id),
{
    let mut out = owned("{\"message\":");
    push_json_str(&mut out, message);
    out.append(",\"messageId\":\"");
    let ghost a = out@;
    crate::mesh::envelope::push_uuid_text(&mut out, message_id);
    out.append("\",\"source\":");
    push_json_str(&mut out, source);
    out.append("}");
    assert(out@ =~= ping_body(message@, source@, message_id));
    out
}

/// The text a ping carries: the payload's `message`, or `ping`.
pub open spec fn ping_message(payload: Seq<char>) -> Seq<char> {
    match json_message_field(payload) {
        Some(m) => m,
        None => "ping"@,
    }
}

/// Whether `r` is the ping request carrying `message` from `source` for
/// the peer at `url`: refused without an address, refused with the
/// reason when the address cannot be used.
pub open spec fn ping_request_matches(
    message: Seq<char>,
    source: Seq<char>,
    message_id: u128,
    url: Option<Seq<char>>,
    r: Result<HttpExchange, TransportError>,
) -> bool {
    match url {
        None => r matches Err(e) && e.code@ == "peer_transport_unavailable"@ && e.message@
            == "local_http peer has no url"@,
        Some(u) => match prepared_request(
            u,
            "POST"@,
            "/v1/ping"@,
            ping_body(message, source, message_id),
        ) {
            Ok((h, p, req)) => r matches Ok(x) && x.host@ == h && x.port == p && x.request@ == req,
            Err(m) => r matches Err(e) && e.code@ == "transport_send_failed"@ && e.message@ == m,
        },
    }
}

/// The status a local HTTP transport reports.
pub open spec fn local_http_status() -> TransportEndpointView {
    TransportEndpointView {
        kind: "local_http"@,
        status: "available"@,
        url: None,
        metadata: "null"@,
    }
}

#[derive(Debug, Default)]
pub struct LocalHttpTransport;

impl LocalHttpTransport {
    pub fn kind(&self) -> (r: &'static str)
        ensures
            r@ == "local_http"@,
    {
        "local_http"
    }

    pub fn start(&self) -> (r: Result<(), TransportError>)
        ensures
            r is Ok,
    {
        Ok(())
    }

    pub fn stop(&self) -> (r: Result<(), TransportError>)
        ensures
            r is Ok,
    {
        Ok(())
    }

    pub fn status(&self) -> (r: TransportEndpoint)
        ensures
            r@ == local_http_status(),
    {
        TransportEndpoint {
            kind: owned("local_http"),
            status: owned("available"),
            url: None,
            metadata: owned("null"),
        }
    }

    pub fn capacity(&self) -> (r: TransportCapacity)
        ensures
            r == (TransportCapacity {
                max_message_bytes: 65536,
                recommended_chunk_bytes: 4096,
                max_in_flight: 8,
                estimated_throughput_kbps: 1600,
            }),
    {
        TransportCapacity::local_http()
    }

    pub fn capabilities(&self) -> (r: Vec<String>)
        ensures
            crate::mesh::identity::strings_view(r@) == seq!["mesh.control"@, "core.ping"@],
    {
        let mut r: Vec<String> = Vec::new();
        r.push(owned("mesh.control"));
        r.push(owned("core.ping"));
        assert(crate::mesh::identity::strings_view(r@) =~= seq!["mesh.control"@, "core.ping"@]);
        r
    }

    /// The ping request for a peer: a `POST /v1/ping` under the peer's
    /// address carrying the ping body, whose message is the payload's
    /// `message` text or `ping`. A peer without an address is refused with
    /// `peer_transport_unavailable`; an address that cannot be used, with
    /// `transport_send_failed` and the reason.
    pub fn ping_request(&self, envelope: &ProtocolEnvelope, target_peer: &PeerIdentity) -> (r:
        Result<HttpExchange, TransportError>)
        ensures
            ping_request_matches(
                ping_message(envelope.payload@),
                envelope.source_node_id@,
                envelope.message_id,
                opt_view(target_peer.url),
                r,
            ),
    {
        let message = match payload_message(envelope.payload.as_str()) {
            Some(m) => m,
            None => owned("ping"),
        };
        self.ping_request_with(message.as_str(), envelope, target_peer)
    }

    /// The ping request for a peer, carrying `message`.
    pub fn ping_request_with(
        &self,
        message: &str,
        envelope: &ProtocolEnvelope,
        target_peer: &PeerIdentity,
    ) -> (r: Result<HttpExchange, TransportError>)
        ensures
            ping_request_matches(
                message@,
                envelope.source_node_id@,
                envelope.message_id,
                opt_view(target_peer.url),
                r,
            ),
    {
        let url = match &target_peer.url {
            Some(u) => u,
            None => {
                return Err(
                    TransportError::new(
                        owned("peer_transport_unavailable"),
                        owned("local_http peer has no url"),
                    ),
                );
            },
        };
        let body = ping_body_text(message, envelope.source_node_id.as_str(), envelope.message_id);
        match prepare_http_request(url.as_str(), "POST", "/v1/ping", Some(body.as_str())) {
            Ok(x) => Ok(x),
            Err(e) => Err(TransportError::new(owned("transport_send_failed"), e)),
        }
    }

    /// What the answer to a ping means. `response` is the peer's raw answer,
    /// or why it could not be had. A refused answer, a failed exchange or an
    /// empty body is `transport_send_failed` with the reason; otherwise the
    /// ping went through on `local_http`.
    pub fn ping_result(&self, response: Result<String, String>) -> (r: Result<
        TransportReceipt,
        TransportError,
    >)
        ensures
            match response {
                Err(m) => r matches Err(e) && e.code@ == "transport_send_failed"@ && e.message@
                    == m@,
                Ok(raw) => match response_body(raw@) {
                    Err(m) => r matches Err(e) && e.code@ == "transport_send_failed"@
                        && e.message@ == m,
                    Ok(b) => if b.len() == 0 {
                        r matches Err(e) && e.code@ == "transport_send_failed"@ && e.message@
                            == "empty_response"@
                    } else {
                        r matches Ok(receipt) && receipt.transport@ == "local_http"@
                    },
                },
            },
    {
        match post_peer_ping_outcome(response) {
            Ok(()) => Ok(TransportReceipt { transport: owned("local_http") }),
            Err(e) => Err(TransportError::new(owned("transport_send_failed"), e)),
        }
    }
}

/// The outcome of posting a ping, from the raw answer (or the reason there
/// is none): the answer must be a success with a non-empty body.
pub fn post_peer_ping_outcome(response: Result<String, String>) -> (r: Result<(), String>)
    ensures
        match response {
            Err(m) => r == Err::<(), String>(m),
            Ok(raw) => match response_body(raw@) {
                Err(m) => r matches Err(e) && e@ == m,
                Ok(b) => if b.len() == 0 {
                    r matches Err(e) && e@ == "empty_response"@
                } else {
                    r is Ok
                },
            },
        },
{
    let raw = match response {
        Ok(raw) => raw,
        Err(e) => {
            return Err(e);
        },
    };
    let body = match http_response_body(raw.as_str()) {
        Ok(b) => b,
        Err(e) => {
            return Err(e);
        },
    };
    if body.as_str().is_empty() {
        Err(owned("empty_response"))
    } else {
        Ok(())
    }
}

} // verus!
