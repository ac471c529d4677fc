//! Laws of the proxy: what it lets pass, what it looks into, and what it sends in
//! either direction.

use vstd::prelude::*;
use vstd::string::*;

use super::words;
use crate::headers;
use crate::number;
use crate::proxy;
use crate::registry;
use crate::registry::Ecosystem;
use crate::target;
use crate::text;

verus! {

/// The hosts whose connections are looked into.
pub proof fn law_hosts(host: Seq<char>)
    ensures
        registry::hosts(Ecosystem::Javascript).contains(host) <==> host == "registry.npmjs.org"@
            || host == "registry.yarnpkg.com"@,
        registry::hosts(Ecosystem::Python).contains(host) <==> host == "pypi.org"@ || host
            == "files.pythonhosted.org"@ || host == "pypi.python.org"@ || host
            == "pythonhosted.org"@,
{
    let a = registry::hosts(Ecosystem::Javascript);
    let b = registry::hosts(Ecosystem::Python);
    assert(a[0] == "registry.npmjs.org"@ && a[1] == "registry.yarnpkg.com"@);
    assert(b[0] == "pypi.org"@ && b[1] == "files.pythonhosted.org"@ && b[2] == "pypi.python.org"@
        && b[3] == "pythonhosted.org"@);
}

/// The variables that lead a tool to the proxy, and that let it trust the proxy.
pub proof fn law_proxy_variables(proxy_url: Seq<char>, ca: Seq<char>)
    ensures
        registry::proxy_variables(Ecosystem::Javascript, proxy_url, ca) == seq![
            ("npm_config_proxy"@, proxy_url),
            ("npm_config_https_proxy"@, proxy_url),
            ("HTTP_PROXY"@, proxy_url),
            ("HTTPS_PROXY"@, proxy_url),
            ("NODE_EXTRA_CA_CERTS"@, ca),
        ],
        registry::proxy_variables(Ecosystem::Python, proxy_url, ca) == seq![
            ("HTTP_PROXY"@, proxy_url),
            ("HTTPS_PROXY"@, proxy_url),
            ("http_proxy"@, proxy_url),
            ("https_proxy"@, proxy_url),
            ("REQUESTS_CA_BUNDLE"@, ca),
            ("SSL_CERT_FILE"@, ca),
            ("PIP_CERT"@, ca),
        ],
{
}

/// A request for metadata asks for no encoding and, in Python, not only for what
/// has changed, and in JavaScript for JSON. All its other fields stay, and so do
/// all fields of every other request.
pub proof fn law_requests(
    url: Option<target::UrlView>,
    fields: Map<Seq<char>, Seq<Seq<u8>>>,
    name: Seq<char>,
)
    ensures
        ({
            let js = proxy::fields_sent(Ecosystem::Javascript, url, fields);
            let py = proxy::fields_sent(Ecosystem::Python, url, fields);
            let js_asks = url matches Some(u) && registry::asks_for_metadata(
                Ecosystem::Javascript,
                u,
            );
            let py_asks = url matches Some(u) && registry::asks_for_metadata(Ecosystem::Python, u);
            &&& !js_asks ==> js == fields
            &&& !py_asks ==> py == fields
            &&& js_asks ==> {
                &&& !js.dom().contains("accept-encoding"@)
                &&& js.dom().contains("accept"@)
                &&& js["accept"@] == seq!["application/json".spec_bytes()]
                &&& name != "accept"@ && name != "accept-encoding"@ ==> js.dom().contains(name)
                    == fields.dom().contains(name) && (fields.dom().contains(name) ==> js[name]
                    == fields[name])
            }
            &&& py_asks ==> {
                &&& !py.dom().contains("accept-encoding"@)
                &&& !py.dom().contains("if-none-match"@)
                &&& !py.dom().contains("if-modified-since"@)
                &&& name != "accept-encoding"@ && name != "if-none-match"@ && name
                    != "if-modified-since"@ ==> py.dom().contains(name) == fields.dom().contains(name)
                    && (fields.dom().contains(name) ==> py[name] == fields[name])
            }
        }),
{
    reveal_strlit("accept");
    reveal_strlit("accept-encoding");
    assert("accept"@.len() == 6);
    assert("accept-encoding"@.len() == 15);
}

/// An answer is taken to be compressed if it names an encoding other than `none`
/// and `identity`.
pub proof fn law_compressed(fields: Map<Seq<char>, Seq<Seq<u8>>>)
    ensures
        registry::is_compressed(fields) <==> fields.dom().contains("content-encoding"@) && (
        headers::visible_text(fields["content-encoding"@][0]) matches Some(encoding) && encoding
            != "none"@ && encoding != "identity"@),
{
}

/// Metadata that is compressed is blocked, and what is no metadata passes; neither
/// is counted.
pub proof fn law_unread_answers(
    family: Ecosystem,
    registry: registry::RegistryView,
    url: target::UrlView,
    fields: Map<Seq<char>, Seq<Seq<u8>>>,
    body: Seq<u8>,
)
    ensures
        !registry::asks_for_metadata(family, url) ==> registry::answered(
            family,
            registry,
            url,
            fields,
            body,
        ) == (registry, registry::Action::Passthrough),
        registry::asks_for_metadata(family, url) && fields.dom().contains("content-encoding"@) && (
        headers::visible_text(fields["content-encoding"@][0]) matches Some(encoding) && encoding
            != "none"@ && encoding != "identity"@) ==> registry::answered(
            family,
            registry,
            url,
            fields,
            body,
        ) == (registry, registry::Action::Block),
{
}

/// What is sent to a tool: an answer that passes as it is; one with another body
/// with the length of that body, without an encoding and otherwise as it is; and in
/// place of a blocked one, that it is forbidden and nothing else.
pub proof fn law_delivered(answer: proxy::AnswerView, body: Seq<u8>, name: Seq<char>)
    ensures
        proxy::delivered(registry::Action::Passthrough, answer) == answer,
        ({
            let sent = proxy::delivered(registry::Action::Rewrite(body), answer);
            &&& sent.status == answer.status
            &&& sent.body == body
            &&& sent.fields.dom().contains("content-length"@)
            &&& sent.fields["content-length"@] == seq![
                vstd::utf8::encode_utf8(number::decimal_of(body.len())),
            ]
            &&& !sent.fields.dom().contains("content-encoding"@)
            &&& name != "content-length"@ && name != "content-encoding"@ ==> sent.fields.dom().contains(
                name,
            ) == answer.fields.dom().contains(name) && (answer.fields.dom().contains(name)
                ==> sent.fields[name] == answer.fields[name])
        }),
        ({
            let sent = proxy::delivered(registry::Action::Block, answer);
            &&& sent.status == 403
            &&& sent.body == "Forbidden".spec_bytes()
            &&& forall|field: Seq<char>| !sent.fields.dom().contains(field)
        }),
{
    proxy::lemma_rewritten_fields(answer, body, name);
}

/// What comes back for a URL is shown to the registry as it is; where the URL
/// cannot be read, it passes.
pub proof fn law_shown(
    family: Ecosystem,
    registry: registry::RegistryView,
    url: target::UrlView,
    answer: proxy::AnswerView,
)
    ensures
        proxy::seen(family, registry, Some(url), answer) == registry::answered(
            family,
            registry,
            url,
            answer.fields,
            answer.body,
        ),
        proxy::seen(family, registry, None, answer) == (registry, registry::Action::Passthrough),
{
}

/// A connection asks for the host and the port that stand behind `CONNECT`, and
/// for the port of HTTPS where none can be read; every other line is a request.
pub proof fn law_opened(host: Seq<char>, port: Seq<char>, tail: Seq<char>, line: Seq<char>)
    requires
        host.len() > 0,
        !host.contains(':'),
        forall|i: int| 0 <= i < host.len() ==> !text::is_space(#[trigger] host[i]),
        forall|i: int| 0 <= i < port.len() ==> !text::is_space(#[trigger] port[i]),
        tail.len() == 0 || text::is_space(tail[0]),
        !text::begins(line, "CONNECT "@),
    ensures
        proxy::opened("CONNECT "@ + host + seq![':'] + port + tail) == Ok::<
            proxy::OpeningView,
            proxy::ProxyError,
        >(
            proxy::OpeningView::Connect(
                host,
                match number::port_value(port) {
                    Some(p) => p,
                    None => 443,
                },
            ),
        ),
        proxy::opened("CONNECT "@ + host + tail) == Ok::<proxy::OpeningView, proxy::ProxyError>(
            proxy::OpeningView::Connect(host, 443),
        ),
        proxy::opened(line) == Ok::<proxy::OpeningView, proxy::ProxyError>(
            proxy::OpeningView::Http,
        ),
{
    let address = host + seq![':'] + port;
    assert forall|i: int| 0 <= i < address.len() implies !text::is_space(#[trigger] address[i]) by {
        if i < host.len() {
            assert(address[i] == host[i]);
        } else if i > host.len() {
            assert(address[i] == port[i - host.len() - 1]);
        }
    }
    lemma_second_word(address, tail);
    assert("CONNECT "@ + host + seq![':'] + port + tail =~= "CONNECT "@ + address + tail);
    text::lemma_position(address, ':');
    let at = text::position(address, ':');
    assert(address[host.len() as int] == ':');
    if at < host.len() {
        assert(host[at] == ':');
        assert(host.contains(':'));
    }
    assert(address.take(at) =~= host);
    assert(address.skip(at + 1) =~= port);
    lemma_second_word(host, tail);
    proxy::lemma_host_alone(host);
}

proof fn lemma_second_word(word: Seq<char>, tail: Seq<char>)
    requires
        word.len() > 0,
        forall|i: int| 0 <= i < word.len() ==> !text::is_space(#[trigger] word[i]),
        tail.len() == 0 || text::is_space(tail[0]),
    ensures
        text::begins("CONNECT "@ + word + tail, "CONNECT "@),
        proxy::connect_host("CONNECT "@ + word + tail) == Some(word),
{
    reveal_strlit("CONNECT ");
    let verb = "CONNECT "@.take(7);
    let line = "CONNECT "@ + word + tail;
    assert("CONNECT "@.len() == 8);
    assert(line.subrange(0, 8) =~= "CONNECT "@);
    let rest = seq![' '] + (word + tail);
    assert(line =~= verb + rest);
    assert forall|i: int| 0 <= i < verb.len() implies !text::is_space(#[trigger] verb[i]) by {}
    words::law_words(' ', verb, rest);
    assert(rest.drop_first() =~= word + tail);
    assert(text::words_of(rest) == text::words_of(word + tail));
    words::law_words(' ', word, tail);
    assert(text::words_of(line)[1] == word);
}

/// What a connection asks for is the second word of its line; a line without one
/// asks for nothing that could be connected to.
pub proof fn law_connect_words(line: Seq<char>)
    ensures
        proxy::connect_host(line) == if text::words_of(line).len() < 2 {
            None
        } else {
            Some(text::words_of(line)[1])
        },
        text::begins(line, "CONNECT "@) && text::words_of(line).len() < 2 ==> proxy::opened(line)
            == Err::<proxy::OpeningView, proxy::ProxyError>(proxy::ProxyError::InvalidConnect),
        text::begins(line, "CONNECT "@) && text::words_of(line).len() >= 2 ==> proxy::opened(line)
            == Ok::<proxy::OpeningView, proxy::ProxyError>(
            proxy::OpeningView::Connect(
                proxy::host_and_port(text::words_of(line)[1]).0,
                proxy::host_and_port(text::words_of(line)[1]).1,
            ),
        ),
{
}

/// A host ends at the first colon, and what stands behind it is the port, if one
/// can be read there.
pub proof fn law_host_and_port(host: Seq<char>, port: Seq<char>)
    requires
        !host.contains(':'),
    ensures
        proxy::host_and_port(host + seq![':'] + port) == (
            host,
            match number::port_value(port) {
                Some(p) => p,
                None => 443,
            },
        ),
        proxy::host_and_port(host) == (host, 443u16),
{
    let address = host + seq![':'] + port;
    text::lemma_position(address, ':');
    let at = text::position(address, ':');
    assert(address[host.len() as int] == ':');
    if at < host.len() {
        assert(host[at] == ':');
        assert(host.contains(':'));
    }
    assert(address.take(at) =~= host);
    assert(address.skip(at + 1) =~= port);
    proxy::lemma_host_alone(host);
}

/// The port of a URL is what stands behind its last colon, or all of it where it
/// has none, if a port can be read there.
pub proof fn law_port_of(before: Seq<char>, behind: Seq<char>)
    requires
        !behind.contains(':'),
    ensures
        proxy::port_of(before + seq![':'] + behind) == match number::port_value(behind) {
            Some(p) => p,
            None => 0,
        },
        proxy::port_of(behind) == match number::port_value(behind) {
            Some(p) => p,
            None => 0,
        },
{
    let url = before + seq![':'] + behind;
    text::lemma_last_position(url, ':');
    text::lemma_last_position(behind, ':');
    let at = text::last_position(url, ':');
    assert(url[before.len() as int] == ':');
    assert(at >= before.len());
    if at > before.len() {
        assert(behind[at - before.len() - 1] == ':');
        assert(behind.contains(':'));
    }
    assert(url.skip(at + 1) =~= behind);
    assert(behind.skip(0) =~= behind);
}

/// Bytes can stand in a header field if none is a control character, other than
/// the tab.
pub proof fn law_field_values(bytes: Seq<u8>, i: int)
    requires
        0 <= i < bytes.len(),
    ensures
        proxy::is_field_value(bytes) ==> bytes[i] == 9 || 32 <= bytes[i] <= 126 || bytes[i] >= 128,
        !proxy::is_field_value(bytes) ==> exists|j: int|
            0 <= j < bytes.len() && ((#[trigger] bytes[j]) < 9 || 9 < bytes[j] < 32 || bytes[j]
                == 127),
{
    if proxy::is_field_value(bytes) {
        assert(headers::is_value_byte(bytes[i]));
    } else {
        let j = choose|j: int|
            0 <= j < bytes.len() && !headers::is_value_byte(#[trigger] bytes[j]);
        assert(bytes[j] < 9 || 9 < bytes[j] < 32 || bytes[j] == 127);
    }
}

/// What a request asks for stands in its first line, whatever follows.
pub proof fn law_requested_words(head: Seq<char>)
    ensures
        proxy::requested(head) == if text::lines_of(head).len() == 0 {
            Err::<(Seq<char>, Seq<char>), proxy::ProxyError>(proxy::ProxyError::EmptyRequest)
        } else if text::words_of(text::lines_of(head)[0]).len() < 2 {
            Err(proxy::ProxyError::MalformedRequest)
        } else {
            Ok(
                (
                    text::words_of(text::lines_of(head)[0])[0],
                    text::words_of(text::lines_of(head)[0])[1],
                ),
            )
        },
{
}

/// A request names its method and its URL in the first two words of its first
/// line; one without a line, or with less than two words in it, is refused.
pub proof fn law_requested(
    method: Seq<char>,
    url: Seq<char>,
    tail: Seq<char>,
    rest: Seq<char>,
)
    requires
        method.len() > 0,
        forall|i: int| 0 <= i < method.len() ==> !text::is_space(#[trigger] method[i]),
        url.len() > 0,
        forall|i: int| 0 <= i < url.len() ==> !text::is_space(#[trigger] url[i]),
        tail.len() == 0 || text::is_space(tail[0]),
        !tail.contains('\n'),
    ensures
        proxy::requested(method + seq![' '] + url + tail + seq!['\n'] + rest) == Ok::<
            (Seq<char>, Seq<char>),
            proxy::ProxyError,
        >((method, url)),
        proxy::requested(method + seq!['\n'] + rest) == Err::<
            (Seq<char>, Seq<char>),
            proxy::ProxyError,
        >(proxy::ProxyError::MalformedRequest),
        proxy::requested(Seq::<char>::empty()) == Err::<(Seq<char>, Seq<char>), proxy::ProxyError>(
            proxy::ProxyError::EmptyRequest,
        ),
{
    let line = method + seq![' '] + url + tail;
    assert(!line.contains('\n')) by {
        if line.contains('\n') {
            let i = choose|i: int| 0 <= i < line.len() && line[i] == '\n';
            let n = method.len();
            if i < n {
                assert(text::is_space(method[i]));
            } else if i > n && i < n + 1 + url.len() {
                assert(text::is_space(url[i - n - 1]));
            } else if i > n {
                assert(tail[i - n - 1 - url.len()] == '\n');
                assert(tail.contains('\n'));
            }
        }
    }
    words::law_lines(line, rest);
    assert(method + seq![' '] + url + tail + seq!['\n'] + rest =~= line + seq!['\n'] + rest);
    let cut = if line.last() == '\r' {
        line.drop_last()
    } else {
        line
    };
    let end = if tail.len() > 0 && tail.last() == '\r' {
        tail.drop_last()
    } else {
        tail
    };
    if tail.len() == 0 {
        assert(line.last() == url[url.len() - 1]);
    } else {
        assert(line.last() == tail.last());
    }
    assert(cut =~= method + (seq![' '] + (url + end)));
    let more = seq![' '] + (url + end);
    words::law_words(' ', method, more);
    assert(more.drop_first() =~= url + end);
    assert(text::words_of(more) == text::words_of(url + end));
    assert(end.len() > 0 ==> end[0] == tail[0]);
    words::law_words(' ', url, end);
    let head = line + seq!['\n'] + rest;
    assert(text::lines_of(head)[0] == cut);
    assert(text::words_of(cut)[0] == method);
    assert(text::words_of(cut)[1] == url);
    assert(text::words_of(cut).len() >= 2);
    assert(!method.contains('\n')) by {
        if method.contains('\n') {
            let i = choose|i: int| 0 <= i < method.len() && method[i] == '\n';
            assert(text::is_space(method[i]));
        }
    }
    words::law_lines(method, rest);
    assert(method[method.len() - 1] == method.last());
    let nothing = Seq::<char>::empty();
    words::law_words(' ', method, nothing);
    assert(method + nothing =~= method);
    assert(text::lines_of(method + seq!['\n'] + rest)[0] == method);
    assert(text::words_of(method).len() == 1);
}

/// A request is passed on to the host and port of its URL, at the port of HTTP
/// where there is none, with its method, path and query; without a host it is
/// refused.
pub proof fn law_forwarded(method: Seq<char>, url: target::UrlView, host: Seq<char>)
    requires
        url.host == Some(host),
    ensures
        proxy::forwarded(method, url) == Some(
            (
                host + seq![':'] + number::decimal_of(
                    (match url.port {
                        Some(port) => port,
                        None => 80,
                    }) as nat,
                ),
                method + seq![' '] + (match url.query {
                    Some(query) => url.path + seq!['?'] + query,
                    None => url.path,
                }) + " HTTP/1.1\r\nHost: "@ + host + "\r\nConnection: close\r\n\r\n"@,
            ),
        ),
        proxy::forwarded(method, target::UrlView { host: None, ..url }) is None,
{
    reveal_strlit(":");
    reveal_strlit(" ");
    reveal_strlit("?");
    assert(":"@ =~= seq![':']);
    assert(" "@ =~= seq![' ']);
    assert("?"@ =~= seq!['?']);
}

/// What is passed on is what the head of the request asks for; each way in which
/// it cannot be read has its own refusal.
pub proof fn law_passed_on(head: Seq<char>)
    ensures
        match proxy::requested(head) {
            Err(e) => proxy::passed_on(head) == Err::<(Seq<char>, Seq<char>), proxy::ProxyError>(e),
            Ok((method, raw)) => match target::url_of(raw) {
                None => proxy::passed_on(head) == Err::<(Seq<char>, Seq<char>), proxy::ProxyError>(
                    proxy::ProxyError::InvalidUrl,
                ),
                Some(url) => match url.host {
                    None => proxy::passed_on(head) == Err::<
                        (Seq<char>, Seq<char>),
                        proxy::ProxyError,
                    >(proxy::ProxyError::MissingHost),
                    Some(_) => proxy::passed_on(head) == Ok::<
                        (Seq<char>, Seq<char>),
                        proxy::ProxyError,
                    >(proxy::forwarded(method, url)->Some_0),
                },
            },
        },
{
}

/// The URL of a request that was looked into, the address of a host, and the URL
/// of the proxy.
pub proof fn law_addresses(host: Seq<char>, uri: Seq<char>, port: u16)
    ensures
        proxy::full_url(host, uri) == "https://"@ + host + uri,
        proxy::address_of(host, port) == host + seq![':'] + number::decimal_of(port as nat),
        proxy::proxy_url_of(port) == "http://127.0.0.1:"@ + number::decimal_of(port as nat),
        proxy::port_of(proxy::proxy_url_of(port)) == port,
{
    reveal_strlit(":");
    assert(":"@ =~= seq![':']);
    proxy::lemma_port_of_proxy_url(port);
}

} // verus!
