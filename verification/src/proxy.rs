//! The proxy: what a connection asks for, where it leads, and what is sent in
//! either direction.

use vstd::prelude::*;
use vstd::string::*;

use crate::headers;
use crate::number;
use crate::number::{decimal, parse_port};
use crate::registry;
use crate::registry::{Registry, ResponseAction};
use crate::target;
use crate::target::Url;
use crate::text;
use crate::text::{after_last, find_from, lines, range_text, same, starts, to_chars, words};

verus! {

/// Why a request cannot be served.
#[derive(Debug, Clone, Copy, PartialEq, Eq, Structural)]
pub enum ProxyError {
    /// A request for a connection names no host.
    InvalidConnect,
    /// A request has no first line.
    EmptyRequest,
    /// The first line of a request names no URL.
    MalformedRequest,
    /// The URL of a request cannot be read.
    InvalidUrl,
    /// The URL of a request has no host.
    MissingHost,
    /// The host cannot be named in a header field.
    InvalidHost,
}

impl ProxyError {
    /// What there is to say of it.
    pub fn message(&self) -> (r: &'static str)
        ensures
            r@ == match *self {
                ProxyError::InvalidConnect => "invalid CONNECT request"@,
                ProxyError::EmptyRequest => "empty request"@,
                ProxyError::MalformedRequest => "malformed HTTP request"@,
                ProxyError::InvalidUrl => "parse target URL"@,
                ProxyError::MissingHost => "missing host"@,
                ProxyError::InvalidHost => "failed to parse header value"@,
            },
    {
        match self {
            ProxyError::InvalidConnect => "invalid CONNECT request",
            ProxyError::EmptyRequest => "empty request",
            ProxyError::MalformedRequest => "malformed HTTP request",
            ProxyError::InvalidUrl => "parse target URL",
            ProxyError::MissingHost => "missing host",
            ProxyError::InvalidHost => "failed to parse header value",
        }
    }
}

/// The text that `String::from_utf8_lossy` makes of bytes.
pub uninterp spec fn lossy_text(bytes: Seq<u8>) -> Seq<char>;

/// `String::from_utf8_lossy`: the text that the bytes encode in UTF-8, with a
/// replacement character for what is no UTF-8.
#[verifier::external_body]
fn text_of(bytes: &[u8]) -> (r: String)
    ensures
        r@ == lossy_text(bytes@),
        vstd::utf8::valid_utf8(bytes@) ==> r@ == vstd::utf8::decode_utf8(bytes@),
{
    String::from_utf8_lossy(bytes).to_string()
}

/// The second word of a line.
pub open spec fn connect_host(line: Seq<char>) -> Option<Seq<char>> {
    let words = text::words_of(line);
    if words.len() < 2 {
        None
    } else {
        Some(words[1])
    }
}

/// The host and port that a request for a connection names.
pub fn parse_connect_host(line: &str) -> (r: Result<String, ProxyError>)
    ensures
        match connect_host(line@) {
            Some(host) => r is Ok && r->Ok_0@ == host,
            None => r == Err::<String, ProxyError>(ProxyError::InvalidConnect),
        },
{
    let parts = words(line);
    assert(text::texts(parts@).len() == parts@.len());
    if parts.len() < 2 {
        return Err(ProxyError::InvalidConnect);
    }
    Ok(parts[1].clone())
}

/// The host before the first colon, and the port behind it, which is that of
/// HTTPS unless it is written.
pub open spec fn host_and_port(host_port: Seq<char>) -> (Seq<char>, u16) {
    let colon = text::position(host_port, ':');
    let port = if colon == host_port.len() {
        None
    } else {
        number::port_value(host_port.skip(colon + 1))
    };
    (
        host_port.take(colon),
        match port {
            Some(p) => p,
            None => 443,
        },
    )
}

/// The host before the first colon, and the port behind it, which is that of
/// HTTPS unless it is written.
pub fn parse_host_port(host_port: &str) -> (r: (String, u16))
    ensures
        (r.0@, r.1) == host_and_port(host_port@),
{
    let chars = to_chars(host_port);
    let colon = find_from(&chars, 0, ':');
    assert(chars@.skip(0) =~= chars@);
    let host = range_text(&chars, 0, colon);
    assert(host@ =~= chars@.take(colon as int));
    if colon == chars.len() {
        return (host, 443);
    }
    let rest = range_text(&chars, colon + 1, chars.len());
    assert(rest@ =~= chars@.skip(colon + 1));
    match parse_port(rest.as_str()) {
        Some(port) => (host, port),
        None => (host, 443),
    }
}

/// What a connection asks for.
#[derive(Debug, Clone)]
pub enum Opening {
    /// A connection to this host and port.
    Connect(String, u16),
    /// A request to be passed on.
    Http,
}

/// What a connection asks for.
pub enum OpeningView {
    Connect(Seq<char>, u16),
    Http,
}

impl View for Opening {
    type V = OpeningView;

    open spec fn view(&self) -> OpeningView {
        match self {
            Opening::Connect(host, port) => OpeningView::Connect(host@, *port),
            Opening::Http => OpeningView::Http,
        }
    }
}

/// What a connection that opens with this line asks for.
pub open spec fn opened(line: Seq<char>) -> Result<OpeningView, ProxyError> {
    if text::begins(line, "CONNECT "@) {
        match connect_host(line) {
            Some(host_port) => {
                let (host, port) = host_and_port(host_port);
                Ok(OpeningView::Connect(host, port))
            },
            None => Err(ProxyError::InvalidConnect),
        }
    } else {
        Ok(OpeningView::Http)
    }
}

/// What a connection that opens with this line asks for.
pub fn read_opening(line: &str) -> (r: Result<Opening, ProxyError>)
    ensures
        match opened(line@) {
            Ok(o) => r is Ok && r->Ok_0@ == o,
            Err(e) => r == Err::<Opening, ProxyError>(e),
        },
{
    if starts(line, "CONNECT ") {
        match parse_connect_host(line) {
            Ok(host_port) => {
                let (host, port) = parse_host_port(host_port.as_str());
                Ok(Opening::Connect(host, port))
            },
            Err(e) => Err(e),
        }
    } else {
        Ok(Opening::Http)
    }
}

/// What a connection that opens with these bytes asks for.
pub fn handle_connection(first_line: &[u8]) -> (r: Result<Opening, ProxyError>)
    ensures
        match opened(lossy_text(first_line@)) {
            Ok(o) => r is Ok && r->Ok_0@ == o,
            Err(e) => r == Err::<Opening, ProxyError>(e),
        },
        vstd::utf8::valid_utf8(first_line@) ==> match opened(
            vstd::utf8::decode_utf8(first_line@),
        ) {
            Ok(o) => r is Ok && r->Ok_0@ == o,
            Err(e) => r == Err::<Opening, ProxyError>(e),
        },
{
    let line = text_of(first_line);
    read_opening(line.as_str())
}

/// What becomes of a connection.
#[derive(Debug, Clone, Copy, PartialEq, Eq, Structural)]
pub enum Route {
    /// It is looked into.
    Mitm,
    /// It is passed through and counted.
    Tunnel,
}

/// What becomes of a connection to a host: what leads to the registry is looked into.
pub fn handle_connect(registry: &Registry, host: &str) -> (r: Route)
    ensures
        r == if registry::hosts(registry.family()).contains(host@) {
            Route::Mitm
        } else {
            Route::Tunnel
        },
{
    let hosts = registry.known_hosts();
    let ghost all = registry::hosts(registry.family());
    let mut i: usize = 0;
    while i < hosts.len()
        invariant
            i <= hosts@.len(),
            all == hosts@.map_values(|s: &'static str| s@),
            all == registry::hosts(registry.family()),
            forall|j: int| 0 <= j < i ==> #[trigger] all[j] != host@,
        decreases hosts.len() - i,
    {
        assert(all[i as int] == hosts@[i as int]@);
        if same(hosts[i], host) {
            assert(all.contains(host@));
            return Route::Mitm;
        }
        i += 1;
    }
    assert(all.len() == hosts@.len());
    Route::Tunnel
}

/// Counts a connection that is passed through. The count starts again from
/// nothing where it can grow no further.
pub fn count_route(tunneled: usize, route: Route) -> (r: usize)
    ensures
        r == if route == Route::Mitm {
            tunneled as int
        } else if tunneled == usize::MAX {
            0
        } else {
            tunneled + 1
        },
{
    match route {
        Route::Mitm => tunneled,
        Route::Tunnel => if tunneled == usize::MAX {
            0
        } else {
            tunneled + 1
        },
    }
}

/// The URL of a request that came for this host.
pub open spec fn full_url(host: Seq<char>, uri: Seq<char>) -> Seq<char> {
    "https://"@ + host + uri
}

/// The header fields that a request is sent on with.
pub open spec fn fields_sent(
    family: registry::Ecosystem,
    url: Option<target::UrlView>,
    fields: Map<Seq<char>, Seq<Seq<u8>>>,
) -> Map<Seq<char>, Seq<Seq<u8>>> {
    match url {
        Some(u) if registry::asks_for_metadata(family, u) => registry::prepared(family, fields),
        _ => fields,
    }
}

/// Prepares a request for this host, and reads its URL.
pub fn before_request(
    registry: &Registry,
    host: &str,
    uri: &str,
    request_headers: &mut http::HeaderMap<http::HeaderValue>,
) -> (r: Option<Url>)
    requires
        registry.family() == registry::Ecosystem::Javascript ==> headers::fields_of(
            *old(request_headers),
        ).len() < headers::MAX_NAMES,
    ensures
        match target::url_of(full_url(host@, uri@)) {
            Some(u) => r is Some && r->Some_0@ == u,
            None => r is None,
        },
        headers::fields_of(*final(request_headers)) == fields_sent(
            registry.family(),
            target::url_of(full_url(host@, uri@)),
            headers::fields_of(*old(request_headers)),
        ),
{
    let mut raw = "https://".to_string();
    raw.append(host);
    raw.append(uri);
    let url = Url::parse(raw.as_str());
    match &url {
        Some(u) => {
            registry.prepare_request(u, request_headers);
        },
        None => {},
    }
    url
}

/// What is sent to a tool.
#[derive(Debug)]
pub struct Answer {
    pub status: u16,
    pub headers: http::HeaderMap<http::HeaderValue>,
    pub body: Vec<u8>,
}

/// What is sent to a tool.
pub struct AnswerView {
    pub status: u16,
    pub fields: Map<Seq<char>, Seq<Seq<u8>>>,
    pub body: Seq<u8>,
}

impl View for Answer {
    type V = AnswerView;

    open spec fn view(&self) -> AnswerView {
        AnswerView {
            status: self.status,
            fields: headers::fields_of(self.headers),
            body: self.body@,
        }
    }
}

/// What is sent to a tool in place of an answer.
pub open spec fn delivered(action: registry::Action, answer: AnswerView) -> AnswerView {
    match action {
        registry::Action::Passthrough => answer,
        registry::Action::Rewrite(body) => AnswerView {
            status: answer.status,
            fields: answer.fields.insert(
                "content-length"@,
                seq![vstd::utf8::encode_utf8(number::decimal_of(body.len()))],
            ).remove("content-encoding"@),
            body,
        },
        registry::Action::Block => AnswerView {
            status: 403,
            fields: headers::no_fields(),
            body: "Forbidden".spec_bytes(),
        },
    }
}

proof fn lemma_length_is_value(n: nat)
    ensures
        forall|i: int|
            0 <= i < vstd::utf8::encode_utf8(number::decimal_of(n)).len() ==> headers::is_value_byte(
                #[trigger] vstd::utf8::encode_utf8(number::decimal_of(n))[i],
            ),
{
    let d = number::decimal_of(n);
    number::lemma_decimal_digits(n);
    assert(vstd::utf8::is_ascii_chars(d)) by {
        assert forall|i: int| 0 <= i < d.len() implies 0 <= #[trigger] d[i] < 128 by {
            assert(number::is_digit(d[i]));
        }
    }
    vstd::utf8::is_ascii_chars_encode_utf8(d);
    assert forall|i: int| 0 <= i < vstd::utf8::encode_utf8(d).len() implies headers::is_value_byte(
        #[trigger] vstd::utf8::encode_utf8(d)[i],
    ) by {
        assert(number::is_digit(d[i]));
    }
}

/// What is sent to a tool in place of an answer.
pub fn deliver(action: ResponseAction, answer: Answer) -> (r: Answer)
    requires
        action is Rewrite ==> answer@.fields.len() < headers::MAX_NAMES,
    ensures
        r@ == delivered(action@, answer@),
{
    match action {
        ResponseAction::Passthrough => answer,
        ResponseAction::Rewrite { body } => {
            let mut changed = answer.headers;
            proof {
                reveal_strlit("content-length");
                reveal_strlit("content-encoding");
            }
            proof {
                lemma_length_is_value(body@.len());
            }
            match headers::value_from(decimal(body.len()).as_str()) {
                Ok(length) => {
                    headers::insert(&mut changed, "content-length", length);
                },
                Err(_) => {
                    assert(false);
                },
            }
            headers::remove(&mut changed, "content-encoding");
            Answer { status: answer.status, headers: changed, body }
        },
        ResponseAction::Block => Answer {
            status: 403,
            headers: headers::empty(),
            body: "Forbidden".as_bytes_vec(),
        },
    }
}

/// What the registry makes of an answer to a request for this URL. Where the
/// URL cannot be read, nothing.
pub open spec fn seen(
    family: registry::Ecosystem,
    registry: registry::RegistryView,
    url: Option<target::UrlView>,
    answer: AnswerView,
) -> (registry::RegistryView, registry::Action) {
    match url {
        Some(u) => registry::answered(
            family,
            registry,
            u,
            answer.fields,
            answer.body,
        ),
        None => (registry, registry::Action::Passthrough),
    }
}

/// The parts of a URL that was read, if it was.
pub open spec fn url_view(url: Option<Url>) -> Option<target::UrlView> {
    match url {
        Some(u) => Some(u@),
        None => None,
    }
}

/// Shows the registry an answer, and gives what is sent to the tool in its place.
pub fn after_response(registry: &mut Registry, url: &Option<Url>, answer: Answer) -> (r: Answer)
    requires
        *url matches Some(u) && registry::reads_body(old(registry).family(), u@, answer@.fields)
            ==> old(registry)@.checked < usize::MAX && answer@.fields.len() < headers::MAX_NAMES,
    ensures
        final(registry).family() == old(registry).family(),
        ({
            let (after, action) = seen(
                old(registry).family(),
                old(registry)@,
                url_view(*url),
                answer@,
            );
            final(registry)@ == after && r@ == delivered(action, answer@)
        }),
{
    let action = match url {
        Some(u) => registry.handle_response(
            u,
            answer.status,
            &answer.headers,
            answer.body.as_slice(),
        ),
        None => ResponseAction::Passthrough,
    };
    deliver(action, answer)
}

/// A blocked answer tells the tool that it is forbidden, and nothing of what
/// the registry sent.
pub proof fn lemma_blocked_is_forbidden(answer: AnswerView)
    ensures
        delivered(registry::Action::Block, answer).status == 403,
        delivered(registry::Action::Block, answer).body == "Forbidden".spec_bytes(),
        delivered(registry::Action::Block, answer).fields == headers::no_fields(),
{
}

/// An answer with another body says how long that body is and that it is not
/// compressed, and keeps its other fields and its status.
pub proof fn lemma_rewritten_fields(answer: AnswerView, body: Seq<u8>, name: Seq<char>)
    ensures
        ({
            let sent = delivered(registry::Action::Rewrite(body), answer);
            &&& sent.status == answer.status
            &&& sent.body == body
            &&& sent.fields.dom().contains("content-length"@)
            &&& sent.fields["content-length"@] == seq![
                vstd::utf8::encode_utf8(number::decimal_of(body.len())),
            ]
            &&& !registry::is_compressed(sent.fields)
            &&& name != "content-length"@ && name != "content-encoding"@ ==> (
            sent.fields.dom().contains(name) == answer.fields.dom().contains(name)) && (
            answer.fields.dom().contains(name) ==> sent.fields[name] == answer.fields[name])
        }),
{
    reveal_strlit("content-length");
    reveal_strlit("content-encoding");
    assert("content-length"@[8] == 'l');
    assert("content-encoding"@[8] == 'e');
}

/// Whether bytes may stand as the value of a header field.
pub open spec fn is_field_value(bytes: Seq<u8>) -> bool {
    forall|i: int| 0 <= i < bytes.len() ==> headers::is_value_byte(#[trigger] bytes[i])
}

/// Makes `host` the one host that a request names.
pub fn forward_headers(
    request_headers: &mut http::HeaderMap<http::HeaderValue>,
    host: &str,
) -> (r: Result<(), ProxyError>)
    requires
        is_field_value(vstd::utf8::encode_utf8(host@)) ==> headers::fields_of(
            *old(request_headers),
        ).len() < headers::MAX_NAMES,
    ensures
        ({
            let bytes = vstd::utf8::encode_utf8(host@);
            if is_field_value(bytes) {
                &&& r is Ok
                &&& headers::fields_of(*final(request_headers)) == headers::fields_of(
                    *old(request_headers),
                ).insert("host"@, seq![bytes])
            } else {
                &&& r == Err::<(), ProxyError>(ProxyError::InvalidHost)
                &&& headers::fields_of(*final(request_headers)) == headers::fields_of(
                    *old(request_headers),
                )
            }
        }),
{
    proof {
        reveal_strlit("host");
    }
    match headers::value_from(host) {
        Ok(value) => {
            headers::insert(request_headers, "host", value);
            Ok(())
        },
        Err(_) => Err(ProxyError::InvalidHost),
    }
}

/// The address of a port of a host.
pub open spec fn address_of(host: Seq<char>, port: u16) -> Seq<char> {
    host + ":"@ + number::decimal_of(port as nat)
}

/// The address of a port of a host.
pub fn address(host: &str, port: u16) -> (r: String)
    ensures
        r@ == address_of(host@, port),
{
    let mut out = host.to_string();
    out.append(":");
    out.append(decimal(port as usize).as_str());
    out
}

/// Whether a line, as it is read, is the last of the head of a request: it is
/// empty, or there are no more.
pub fn ends_head(line: &[u8]) -> (r: bool)
    ensures
        r == (line@ == seq![13u8, 10u8] || line@ == seq![10u8] || line@.len() == 0),
{
    let n = line.len();
    let r = n == 0 || (n == 1 && line[0] == 10) || (n == 2 && line[0] == 13 && line[1] == 10);
    proof {
        if n == 1 && line@[0] == 10 {
            assert(line@ =~= seq![10u8]);
        }
        if n == 2 && line@[0] == 13 && line@[1] == 10 {
            assert(line@ =~= seq![13u8, 10u8]);
        }
    }
    r
}

/// The method and the URL that the head of a request names.
pub open spec fn requested(head: Seq<char>) -> Result<(Seq<char>, Seq<char>), ProxyError> {
    let lines = text::lines_of(head);
    if lines.len() == 0 {
        Err(ProxyError::EmptyRequest)
    } else {
        let words = text::words_of(lines[0]);
        if words.len() < 2 {
            Err(ProxyError::MalformedRequest)
        } else {
            Ok((words[0], words[1]))
        }
    }
}

/// The method and the URL that the head of a request names.
pub fn read_request(head: &str) -> (r: Result<(String, String), ProxyError>)
    ensures
        match requested(head@) {
            Ok((method, url)) => r is Ok && r->Ok_0.0@ == method && r->Ok_0.1@ == url,
            Err(e) => r == Err::<(String, String), ProxyError>(e),
        },
{
    let all = lines(head);
    assert(text::texts(all@).len() == all@.len());
    if all.len() == 0 {
        return Err(ProxyError::EmptyRequest);
    }
    assert(text::texts(all@)[0] == all@[0]@);
    let parts = words(all[0].as_str());
    assert(text::texts(parts@).len() == parts@.len());
    if parts.len() < 2 {
        return Err(ProxyError::MalformedRequest);
    }
    Ok((parts[0].clone(), parts[1].clone()))
}

/// A request to be passed on: the address to connect to, and what to send there.
#[derive(Debug, Clone)]
pub struct Forward {
    pub address: String,
    pub request: String,
}

/// What stands in a request in place of its whole URL.
pub open spec fn path_and_query(url: target::UrlView) -> Seq<char> {
    match url.query {
        Some(query) => url.path + "?"@ + query,
        None => url.path,
    }
}

/// The address to connect to, and what to send there, if the URL has a host.
/// The port is that of HTTP unless it is written or known.
pub open spec fn forwarded(method: Seq<char>, url: target::UrlView) -> Option<(Seq<char>, Seq<char>)> {
    match url.host {
        Some(host) => Some(
            (
                address_of(
                    host,
                    match url.port {
                        Some(port) => port,
                        None => 80,
                    },
                ),
                method + " "@ + path_and_query(url) + " HTTP/1.1\r\nHost: "@ + host
                    + "\r\nConnection: close\r\n\r\n"@,
            ),
        ),
        None => None,
    }
}

/// The address to connect to, and what to send there.
pub fn forward(method: &str, url: &Url) -> (r: Result<Forward, ProxyError>)
    ensures
        match forwarded(method@, url@) {
            Some((address, request)) => r is Ok && r->Ok_0.address@ == address
                && r->Ok_0.request@ == request,
            None => r == Err::<Forward, ProxyError>(ProxyError::MissingHost),
        },
{
    match &url.host {
        None => Err(ProxyError::MissingHost),
        Some(host) => {
            let port: u16 = match url.port {
                Some(port) => port,
                None => 80,
            };
            let mut request = method.to_string();
            request.append(" ");
            request.append(url.path.as_str());
            match &url.query {
                Some(query) => {
                    request.append("?");
                    request.append(query.as_str());
                },
                None => {},
            }
            request.append(" HTTP/1.1\r\nHost: ");
            request.append(host.as_str());
            request.append("\r\nConnection: close\r\n\r\n");
            assert(request@ =~= forwarded(method@, url@)->Some_0.1);
            Ok(Forward { address: address(host.as_str(), port), request })
        },
    }
}

/// The address to connect to, and what to send there, for the head of a request.
pub open spec fn passed_on(head: Seq<char>) -> Result<(Seq<char>, Seq<char>), ProxyError> {
    match requested(head) {
        Err(e) => Err(e),
        Ok((method, raw)) => match target::url_of(raw) {
            None => Err(ProxyError::InvalidUrl),
            Some(url) => match forwarded(method, url) {
                None => Err(ProxyError::MissingHost),
                Some(plan) => Ok(plan),
            },
        },
    }
}

/// The address to connect to, and what to send there, for the head of a request.
pub fn handle_http(head: &[u8]) -> (r: Result<Forward, ProxyError>)
    ensures
        match passed_on(lossy_text(head@)) {
            Ok((address, request)) => r is Ok && r->Ok_0.address@ == address
                && r->Ok_0.request@ == request,
            Err(e) => r == Err::<Forward, ProxyError>(e),
        },
        vstd::utf8::valid_utf8(head@) ==> match passed_on(vstd::utf8::decode_utf8(head@)) {
            Ok((address, request)) => r is Ok && r->Ok_0.address@ == address
                && r->Ok_0.request@ == request,
            Err(e) => r == Err::<Forward, ProxyError>(e),
        },
{
    let head = text_of(head);
    match read_request(head.as_str()) {
        Err(e) => Err(e),
        Ok((method, raw)) => match Url::parse(raw.as_str()) {
            None => Err(ProxyError::InvalidUrl),
            Some(url) => forward(method.as_str(), &url),
        },
    }
}

/// The URL of the proxy at a port of this machine.
pub open spec fn proxy_url_of(port: u16) -> Seq<char> {
    "http://127.0.0.1:"@ + number::decimal_of(port as nat)
}

/// The URL of the proxy at a port of this machine.
pub fn proxy_url(port: u16) -> (r: String)
    ensures
        r@ == proxy_url_of(port),
{
    let mut out = "http://127.0.0.1:".to_string();
    out.append(decimal(port as usize).as_str());
    out
}

/// The port that stands behind the last colon of a URL, or 0.
pub open spec fn port_of(url: Seq<char>) -> u16 {
    match number::port_value(url.skip(text::last_position(url, ':') + 1)) {
        Some(port) => port,
        None => 0,
    }
}

/// The port that stands behind the last colon of a URL, or 0.
pub fn port(url: &str) -> (r: u16)
    ensures
        r == port_of(url@),
{
    let chars = to_chars(url);
    let start = after_last(&chars, ':');
    let rest = range_text(&chars, start, chars.len());
    assert(rest@ =~= chars@.skip(start as int));
    match parse_port(rest.as_str()) {
        Some(port) => port,
        None => 0,
    }
}

/// The port of the proxy can be read off its URL.
pub proof fn lemma_port_of_proxy_url(port: u16)
    ensures
        port_of(proxy_url_of(port)) == port,
{
    let head = "http://127.0.0.1:"@;
    let digits = number::decimal_of(port as nat);
    let url = proxy_url_of(port);
    reveal_strlit("http://127.0.0.1:");
    number::lemma_decimal_digits(port as nat);
    number::lemma_port_of_decimal(port);
    text::lemma_last_position(url, ':');
    let at = text::last_position(url, ':');
    assert(url[head.len() - 1] == ':');
    assert(at >= head.len() - 1);
    if at >= head.len() {
        assert(number::is_digit(digits[at - head.len()]));
    }
    assert(url.skip(at + 1) =~= digits);
}

/// The host and the port can be read off an address.
pub proof fn lemma_host_and_port(host: Seq<char>, port: u16)
    requires
        !host.contains(':'),
    ensures
        host_and_port(address_of(host, port)) == (host, port),
{
    let digits = number::decimal_of(port as nat);
    let address = address_of(host, port);
    reveal_strlit(":");
    number::lemma_port_of_decimal(port);
    text::lemma_position(address, ':');
    let at = text::position(address, ':');
    assert(address[host.len() as int] == ':');
    assert(at <= host.len());
    if at < host.len() {
        assert(host[at] == ':');
        assert(host.contains(':'));
    }
    assert(address.take(at) =~= host);
    assert(address.skip(at + 1) =~= digits);
}

/// A host without a port is asked for at the port of HTTPS.
pub proof fn lemma_host_alone(host: Seq<char>)
    requires
        !host.contains(':'),
    ensures
        host_and_port(host) == (host, 443u16),
{
    text::lemma_position(host, ':');
    assert(host.take(host.len() as int) =~= host);
}

proof fn lemma_word_cut(word: Seq<char>, rest: Seq<char>)
    requires
        word.len() > 0,
        forall|i: int| 0 <= i < word.len() ==> !text::is_space(#[trigger] word[i]),
        rest.len() == 0 || text::is_space(rest[0]),
    ensures
        text::words_of(word + rest) == seq![word] + text::words_of(rest),
{
    let s = word + rest;
    lemma_word_len_of(word, rest);
    assert(s[0] == word[0]);
    assert(s.take(word.len() as int) =~= word);
    assert(s.skip(word.len() as int) =~= rest);
}

proof fn lemma_word_len_of(word: Seq<char>, rest: Seq<char>)
    requires
        forall|i: int| 0 <= i < word.len() ==> !text::is_space(#[trigger] word[i]),
        rest.len() == 0 || text::is_space(rest[0]),
    ensures
        text::word_len(word + rest) == word.len(),
    decreases word.len(),
{
    let s = word + rest;
    if word.len() == 0 {
        assert(s =~= rest);
    } else {
        let tail = word.drop_first();
        assert(s[0] == word[0]);
        assert(s.drop_first() =~= tail + rest);
        assert(forall|i: int| 0 <= i < tail.len() ==> #[trigger] tail[i] == word[i + 1]);
        lemma_word_len_of(tail, rest);
    }
}

/// A request for a connection, as tools write it, asks for the host and the port
/// that it names.
pub proof fn lemma_connect_line(host: Seq<char>, port: u16)
    requires
        !host.contains(':'),
        forall|i: int| 0 <= i < host.len() ==> !text::is_space(#[trigger] host[i]),
    ensures
        opened("CONNECT "@ + address_of(host, port) + " HTTP/1.1\r\n"@) == Ok::<
            OpeningView,
            ProxyError,
        >(OpeningView::Connect(host, port)),
{
    let digits = number::decimal_of(port as nat);
    let address = address_of(host, port);
    let tail = " HTTP/1.1\r\n"@;
    let line = "CONNECT "@ + address + tail;
    reveal_strlit("CONNECT ");
    reveal_strlit(" HTTP/1.1\r\n");
    reveal_strlit(":");
    number::lemma_decimal_digits(port as nat);
    let verb = "CONNECT "@.take(7);
    assert(line.subrange(0, 8) =~= "CONNECT "@);
    assert(text::begins(line, "CONNECT "@));
    assert forall|i: int| 0 <= i < address.len() implies !text::is_space(#[trigger] address[i]) by {
        if i < host.len() {
            assert(address[i] == host[i]);
        } else if i > host.len() {
            assert(address[i] == digits[i - host.len() - 1]);
            assert(number::is_digit(digits[i - host.len() - 1]));
        }
    }
    let rest = seq![' '] + address + tail;
    assert(line =~= verb + rest);
    lemma_word_cut(verb, rest);
    assert(rest.drop_first() =~= address + tail);
    assert(text::words_of(rest) == text::words_of(address + tail));
    lemma_word_cut(address, tail);
    let words = text::words_of(line);
    assert(words =~= seq![verb] + (seq![address] + text::words_of(tail)));
    assert(words[1] == address);
    lemma_host_and_port(host, port);
}

} // verus!
