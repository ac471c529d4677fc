//! Laws of the values that contracts speak of: what stands for a list, a package
//! or an answer is all of it.

use vstd::prelude::*;

use crate::cert;
use crate::config;
use crate::headers;
use crate::instant;
use crate::json;
use crate::listing;
use crate::order;
use crate::proxy;
use crate::registry;
use crate::registry::npm;
use crate::registry::pypi;
use crate::sandbox;
use crate::target;
use crate::text;

verus! {

/// A list of strings stands for their texts, in order, and so do pairs.
pub proof fn law_texts(list: Seq<String>, pairs: Seq<(String, String)>, i: int)
    ensures
        text::texts(list).len() == list.len(),
        0 <= i < list.len() ==> text::texts(list)[i] == list[i]@,
        text::pairs(pairs).len() == pairs.len(),
        0 <= i < pairs.len() ==> text::pairs(pairs)[i] == (pairs[i].0@, pairs[i].1@),
{
}

/// What is known of a package stands for all of its parts.
pub proof fn law_records(
    package: registry::QuarantinedPackage,
    packages: Seq<registry::QuarantinedPackage>,
    action: registry::ResponseAction,
    decision: registry::InterceptDecision,
    i: int,
)
    ensures
        package@.name == package.name@,
        package@.versions == text::texts(package.quarantined_versions@),
        registry::quarantined_views(packages).len() == packages.len(),
        0 <= i < packages.len() ==> registry::quarantined_views(packages)[i] == packages[i]@,
        match action {
            registry::ResponseAction::Passthrough => action@ == registry::Action::Passthrough,
            registry::ResponseAction::Rewrite { body } => action@ == registry::Action::Rewrite(
                body@,
            ),
            registry::ResponseAction::Block => action@ == registry::Action::Block,
        },
        match decision {
            registry::InterceptDecision::Passthrough(args) => decision@
                == registry::Decision::Passthrough(text::texts(args@)),
            registry::InterceptDecision::Intercept(args) => decision@
                == registry::Decision::Intercept(text::texts(args@)),
        },
{
}

/// An answer, a URL, a policy and a command stand for all of their parts.
pub proof fn law_parts(
    answer: proxy::Answer,
    url: target::Url,
    policy: sandbox::SandboxPolicy,
    command: sandbox::WrappedCommand,
    opening: proxy::Opening,
)
    ensures
        answer@.status == answer.status,
        answer@.fields == headers::fields_of(answer.headers),
        answer@.body == answer.body@,
        url@.host == match url.host {
            Some(s) => Some(s@),
            None => None,
        },
        url@.port == url.port,
        url@.path == url.path@,
        url@.query == match url.query {
            Some(s) => Some(s@),
            None => None,
        },
        policy@.proxy_port == policy.proxy_port,
        policy@.cwd == policy.cwd@,
        policy@.home == policy.home@,
        policy@.sensitive_paths == text::texts(policy.sensitive_paths@),
        command@.program == command.program@,
        command@.args == text::texts(command.args@),
        command@.env == text::pairs(command.env@),
        match opening {
            proxy::Opening::Connect(host, port) => opening@ == proxy::OpeningView::Connect(
                host@,
                port,
            ),
            proxy::Opening::Http => opening@ == proxy::OpeningView::Http,
        },
        proxy::url_view(Some(url)) == Some(url@),
        proxy::url_view(None) is None,
{
}

/// The metadata of a package and a file of a release stand for all of their parts.
pub proof fn law_documents(meta: npm::NpmMetadata, file: pypi::PyPIFile)
    ensures
        meta@.name == meta.name@,
        meta@.dist_tags == listing::map_of(text::pairs(meta.dist_tags@)),
        meta@.time == listing::map_of(text::pairs(meta.time@)),
        meta@.versions == listing::map_of(json::members_of(meta.versions@)),
        meta@.extra == listing::map_of(json::members_of(meta.extra@)),
        file@.filename == file.filename@,
        file@.upload_time == match file.upload_time_iso_8601 {
            Some(s) => Some(s@),
            None => None,
        },
{
}

/// Instants and the lists of them stand for the numbers that they are, and what is
/// not known for what is not known.
pub proof fn law_instants(
    at: Option<i128>,
    list: Seq<Option<i128>>,
    published: Seq<(String, Option<i128>)>,
    uploaded: Seq<(String, Vec<Option<i128>>)>,
    i: int,
)
    ensures
        instant::instant_view(at) == match at {
            Some(t) => Some(t as int),
            None => None,
        },
        pypi::instants_view(list).len() == list.len(),
        0 <= i < list.len() ==> pypi::instants_view(list)[i] == instant::instant_view(list[i]),
        npm::published_view(published).len() == published.len(),
        0 <= i < published.len() ==> npm::published_view(published)[i] == (
            published[i].0@,
            instant::instant_view(published[i].1),
        ),
        pypi::uploads_view(uploaded).len() == uploaded.len(),
        0 <= i < uploaded.len() ==> pypi::uploads_view(uploaded)[i] == (
            uploaded[i].0@,
            pypi::instants_view(uploaded[i].1@),
        ),
{
}

/// An hour has 3600 seconds of a thousand million nanoseconds, and what is exactly
/// as old as asked for is old enough; what has no known time never is.
pub proof fn law_ages(now: int, hours: int, at: int, cutoff: int)
    ensures
        instant::hours_before(now, hours) == if -377_705_023_201_000_000_000 <= now - hours * (3600
            * 1_000_000_000) <= 253_402_207_200_999_999_999 {
            Some(now - hours * (3600 * 1_000_000_000))
        } else {
            None
        },
        instant::old_enough(cutoff, Some(at)) <==> at <= cutoff,
        !instant::old_enough(cutoff, None),
{
}

/// A registry that is new has checked nothing and withheld nothing.
pub proof fn law_fresh(cutoff: int)
    ensures
        registry::fresh(cutoff).cutoff == cutoff,
        registry::fresh(cutoff).checked == 0,
        registry::fresh(cutoff).quarantined.len() == 0,
{
}

/// Of the sources of a setting, the environment goes before the project, and the
/// project before the user.
pub proof fn law_layers<T>(a: Option<T>, b: Option<T>, c: Option<T>, x: T)
    ensures
        config::in_force(Some(x), b, c) == Some(x),
        config::in_force(None, Some(x), c) == Some(x),
        config::in_force(None, None, c) == c,
        config::in_force(a, b, c) is None <==> a is None && b is None && c is None,
{
}

/// The certificate of the authority names it, is good for no host and may sign
/// others; that of a host names the host, is good for it alone and may not.
pub proof fn law_subjects(host: Seq<char>)
    ensures
        cert::ca_subject() == (cert::Subject {
            common_name: "farthinder CA"@,
            hosts: seq![],
            is_ca: true,
        }),
        cert::subject_name(host) matches Some(name) ==> cert::host_subject(host) == (cert::Subject {
            common_name: host,
            hosts: seq![name],
            is_ca: false,
        }),
{
}

/// A certificate that was made for a host says so: its subject is the host, its
/// issuer the authority, its key the one beside it, and the key of the authority
/// checks its signature.
pub proof fn law_made_for(authority: cert::Authority, host: Seq<char>, made: cert::HostCert)
    requires
        cert::made_for(authority, host, made),
    ensures
        cert::subject_name(host) is Some,
        made@.0.subject.common_name == host,
        made@.0.subject.hosts == seq![cert::subject_name(host)->Some_0],
        !made@.0.subject.is_ca,
        made@.0.issuer == authority.name,
        made@.0.public_key == made@.1,
        made.is_signed_with(authority.public_key),
{
}

/// Documents that are alike differ in nothing but numbers that are written with a
/// fraction or an exponent, or that are too great.
pub proof fn law_alike(a: json::Json, b: json::Json, depth: nat)
    requires
        json::alike(a, b, depth),
    ensures
        match a {
            json::Json::Real(_) => b is Real,
            json::Json::Array(x) => b is Array && b->Array_0.len() == x.len() && forall|i: int|
                0 <= i < x.len() ==> json::alike(
                    #[trigger] x[i],
                    b->Array_0[i],
                    (depth - 1) as nat,
                ),
            json::Json::Object(m) => b is Object && b->Object_0.dom() == m.dom() && forall|
                k: Seq<char>,
            | #[trigger]
                m.dom().contains(k) ==> json::alike(m[k], b->Object_0[k], (depth - 1) as nat),
            _ => b == a,
        },
{
}

/// A text reads as a document if what is read of it is alike the document.
pub proof fn law_reads_as(body: Seq<u8>, doc: json::Json)
    requires
        json::reads_as(body, doc),
    ensures
        json::parsed_json(body) is Some,
        json::alike(json::parsed_json(body)->Some_0, doc, 127),
        json::plain(doc, 127) ==> json::parsed_json(body) == Some(doc),
{
}

/// The members of an object as they are written: a name, a colon and a value, and
/// more of them behind a comma.
pub proof fn law_entries(
    s: Seq<u8>,
    name: Seq<char>,
    n: int,
    doc: json::Json,
    m: int,
)
    requires
        0 < n <= s.len(),
        json::first_json(s) == Some((json::Json::Text(name), n)),
        json::skip_blanks(s.skip(n)).len() > 0,
        0 < m <= json::skip_blanks(s.skip(n)).skip(1).len(),
        json::first_json(json::skip_blanks(s.skip(n)).skip(1)) == Some((doc, m)),
    ensures
        ({
            let value = json::skip_blanks(s.skip(n)).skip(1);
            let rest = json::skip_blanks(value.skip(m));
            let entry = json::Entry { name, is_text: doc is Text, raw: value.take(m) };
            json::entries_from(s) == if rest.len() > 0 && rest[0] == 44 {
                seq![entry] + json::entries_from(rest.skip(1))
            } else {
                seq![entry]
            }
        }),
        json::object_entries(seq![123u8] + s) == json::entries_from(s),
{
    let whole = seq![123u8] + s;
    assert(whole.skip(1) =~= s);
    assert(json::skip_blanks(whole) == whole);
}

/// White space at the start of a JSON text is of no account: spaces, tabs and the
/// two ends of lines, and nothing else.
pub proof fn law_white_space(blanks: Seq<u8>, rest: Seq<u8>)
    requires
        forall|i: int|
            0 <= i < blanks.len() ==> (#[trigger] blanks[i]) == 32 || blanks[i] == 9 || blanks[i]
                == 10 || blanks[i] == 13,
        rest.len() > 0 ==> rest[0] != 32 && rest[0] != 9 && rest[0] != 10 && rest[0] != 13,
    ensures
        json::skip_blanks(blanks + rest) == rest,
        rest.len() == 0 || rest[0] != 123 ==> json::object_entries(blanks + rest).len() == 0,
        rest.len() > 0 && rest[0] == 123 ==> json::object_entries(blanks + rest)
            == json::entries_from(rest.skip(1)),
    decreases blanks.len(),
{
    let whole = blanks + rest;
    if blanks.len() == 0 {
        assert(whole =~= rest);
    } else {
        assert(whole[0] == blanks[0]);
        assert(whole.drop_first() =~= blanks.drop_first() + rest);
        law_white_space(blanks.drop_first(), rest);
    }
}

/// Where no name stands, or no value behind it, there are no members.
pub proof fn law_no_entries(s: Seq<u8>)
    ensures
        json::first_json(s) is None ==> json::entries_from(s).len() == 0,
        json::first_json(s) is Some && !(json::first_json(s)->Some_0.0 is Text)
            ==> json::entries_from(s).len() == 0,
        json::first_json(s) matches Some((name, n)) ==> 0 < n <= s.len() && json::skip_blanks(
            s.skip(n),
        ).len() == 0 ==> json::entries_from(s).len() == 0,
        json::first_json(s) matches Some((name, n)) ==> 0 < n <= s.len() && json::first_json(
            json::skip_blanks(s.skip(n)).skip(1),
        ) is None ==> json::entries_from(s).len() == 0,
{
}

/// The value of a header field is read if it is visible ASCII, spaces and tabs,
/// each byte as the character of its number.
pub proof fn law_visible_text(bytes: Seq<u8>, i: int)
    requires
        0 <= i < bytes.len(),
    ensures
        headers::visible_text(bytes) matches Some(s) ==> s.len() == bytes.len() && s[i] as int
            == bytes[i] && (bytes[i] == 9 || 32 <= bytes[i] <= 126),
        headers::visible_text(bytes) is None ==> exists|j: int|
            0 <= j < bytes.len() && ((#[trigger] bytes[j]) < 9 || 9 < bytes[j] < 32 || bytes[j]
                > 126),
{
    if headers::visible_text(bytes) is Some {
        assert(headers::is_visible(bytes[i]));
    } else {
        let j = choose|j: int| 0 <= j < bytes.len() && !headers::is_visible(#[trigger] bytes[j]);
        assert(bytes[j] < 9 || 9 < bytes[j] < 32 || bytes[j] > 126);
    }
}

/// In an ascending list, each name has the value beside it, and no other name has
/// one.
pub proof fn law_listed<T>(s: Seq<(Seq<char>, T)>, i: int, k: Seq<char>)
    requires
        order::ascending(listing::firsts(s)),
    ensures
        0 <= i < s.len() ==> listing::map_of(s).dom().contains(s[i].0) && listing::map_of(
            s,
        )[s[i].0] == s[i].1,
        listing::map_of(s).dom().contains(k) ==> exists|j: int|
            0 <= j < s.len() && (#[trigger] s[j]).0 == k,
        listing::listing(listing::map_of(s)) == s,
{
    listing::lemma_map_of(s);
    listing::lemma_firsts(s);
    if listing::map_of(s).dom().contains(k) {
        let j = choose|j: int| 0 <= j < listing::firsts(s).len() && listing::firsts(s)[j] == k;
        assert(s[j].0 == k);
    }
}

/// A field of a header is its first value, if that is visible ASCII; a path is cut
/// at its slashes, behind the one it begins with.
pub proof fn law_fields_and_segments(
    fields: Map<Seq<char>, Seq<Seq<u8>>>,
    name: Seq<char>,
    path: Seq<char>,
)
    ensures
        headers::field_text(fields, name) == if fields.dom().contains(name) {
            headers::visible_text(fields[name][0])
        } else {
            None
        },
        target::segments_of(seq!['/'] + path) == Some(text::split_on(path, '/')),
        path.len() == 0 || path[0] != '/' ==> target::segments_of(path) is None,
{
    assert((seq!['/'] + path).skip(1) =~= path);
}

/// What is written of a package: its name, tags, times and versions, and then
/// everything else in the order of the names.
pub proof fn law_written_members(meta: npm::Metadata)
    ensures
        npm::written_members(meta) == seq![
            ("name"@, json::Json::Text(meta.name)),
            ("dist-tags"@, json::text_object(meta.dist_tags)),
            ("time"@, json::text_object(meta.time)),
            ("versions"@, json::Json::Object(meta.versions)),
        ] + listing::listing(meta.extra),
{
}

} // verus!
