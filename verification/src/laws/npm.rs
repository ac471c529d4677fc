//! Laws of the answers of the JavaScript registry: what is too new leaves no trace
//! in them, and everything else stays.

use vstd::prelude::*;

use crate::headers;
use crate::instant;
use crate::json;
use crate::order;
use crate::registry;
use crate::registry::npm;
use crate::registry::Ecosystem;
use crate::target;
use crate::text;

verus! {

/// Whether a name among the times of a package is that of a version which came
/// later than the cutoff, or whose time cannot be read. The times of the creation
/// and of the last change of the package are no versions.
pub open spec fn too_new(cutoff: int, name: Seq<char>, when: Seq<char>) -> bool {
    &&& name != "created"@
    &&& name != "modified"@
    &&& match instant::instant_of(when) {
        Some(t) => t > cutoff,
        None => true,
    }
}

/// Whether a version that is left can become the latest: it has a time, is old
/// enough, and its name holds no hyphen.
pub open spec fn can_be_latest(
    cutoff: int,
    times: Map<Seq<char>, json::Json>,
    v: Seq<char>,
) -> bool {
    &&& times.dom().contains(v)
    &&& v != "created"@
    &&& v != "modified"@
    &&& !v.contains('-')
    &&& !too_new(cutoff, v, times[v]->Text_0)
}

/// Whether every member of an object is a text.
pub open spec fn are_texts(m: Map<Seq<char>, json::Json>) -> bool {
    forall|k: Seq<char>| #[trigger] m.dom().contains(k) ==> m[k] is Text
}

/// The parts of a document about a package.
pub struct Package {
    pub doc: Map<Seq<char>, json::Json>,
    pub name: Seq<char>,
    pub tags: Map<Seq<char>, json::Json>,
    pub times: Map<Seq<char>, json::Json>,
    pub versions: Map<Seq<char>, json::Json>,
}

/// Whether a text writes a document about a package: an object with a name, tags
/// and times that are texts, and versions, none of these written twice.
pub open spec fn tells_of(body: Seq<u8>, p: Package) -> bool {
    &&& json::parsed_json(body) == Some(json::Json::Object(p.doc))
    &&& p.doc.dom().contains("name"@) && p.doc["name"@] == json::Json::Text(p.name)
    &&& p.doc.dom().contains("dist-tags"@) && p.doc["dist-tags"@] == json::Json::Object(p.tags)
    &&& are_texts(p.tags)
    &&& p.doc.dom().contains("time"@) && p.doc["time"@] == json::Json::Object(p.times)
    &&& are_texts(p.times)
    &&& p.times.dom().finite()
    &&& p.doc.dom().contains("versions"@) && p.doc["versions"@] == json::Json::Object(p.versions)
    &&& forall|i: int, j: int|
        0 <= i < j < json::object_entries(body).len() && (#[trigger] json::object_entries(
            body,
        )[i]).name == (#[trigger] json::object_entries(body)[j]).name ==> {
            let twice = json::object_entries(body)[i].name;
            twice != "name"@ && twice != "dist-tags"@ && twice != "time"@ && twice != "versions"@
        }
    &&& forall|i: int, j: int|
        0 <= i < json::object_entries(body).len() && 0 <= j < json::object_entries(
            json::object_entries(body)[i].raw,
        ).len() && (json::object_entries(body)[i].name == "dist-tags"@ || json::object_entries(
            body,
        )[i].name == "time"@) ==> (#[trigger] json::object_entries(
            json::object_entries(body)[i].raw,
        )[j]).is_text
}

/// Whether an answer to a request for this URL is read: it is no download and no
/// part of the interface of the registry, and names no encoding, or one that is
/// none.
pub open spec fn is_read(url: target::UrlView, fields: Map<Seq<char>, Seq<Seq<u8>>>) -> bool {
    let path = url.path.take(text::position(url.path, '?'));
    &&& !text::ends(path, ".tgz"@)
    &&& !text::occurs(path, "/-/"@)
    &&& fields.dom().contains("content-encoding"@) ==> match headers::visible_text(
        fields["content-encoding"@][0],
    ) {
        Some(encoding) => encoding == "none"@ || encoding == "identity"@,
        None => true,
    }
}

/// The members of the object under a name in a document.
pub open spec fn part(doc: json::Json, name: Seq<char>) -> Map<Seq<char>, json::Json> {
    doc->Object_0[name]->Object_0
}

proof fn lemma_names()
    ensures
        "name"@ != "dist-tags"@,
        "name"@ != "time"@,
        "name"@ != "versions"@,
        "dist-tags"@ != "time"@,
        "dist-tags"@ != "versions"@,
        "time"@ != "versions"@,
{
    reveal_strlit("name");
    reveal_strlit("dist-tags");
    reveal_strlit("time");
    reveal_strlit("versions");
    assert("name"@[0] == 'n');
    assert("dist-tags"@[0] == 'd');
    assert("time"@[0] == 't');
    assert("versions"@[0] == 'v');
}

/// What is read of such a document.
proof fn lemma_read(body: Seq<u8>, p: Package)
    requires
        tells_of(body, p),
    ensures
        npm::metadata_in(body) is Some,
        ({
            let meta = npm::metadata_in(body)->Some_0;
            &&& meta.wf()
            &&& meta.name == p.name
            &&& meta.dist_tags.dom() == p.tags.dom()
            &&& forall|k: Seq<char>| #[trigger]
                p.tags.dom().contains(k) ==> p.tags[k] == json::Json::Text(meta.dist_tags[k])
            &&& meta.time.dom() == p.times.dom()
            &&& forall|k: Seq<char>| #[trigger]
                p.times.dom().contains(k) ==> p.times[k] == json::Json::Text(meta.time[k])
            &&& meta.versions == p.versions
            &&& forall|k: Seq<char>|
                meta.extra.dom().contains(k) <==> #[trigger] p.doc.dom().contains(k) && k != "name"@
                    && k != "dist-tags"@ && k != "time"@ && k != "versions"@
            &&& forall|k: Seq<char>| #[trigger]
                meta.extra.dom().contains(k) ==> meta.extra[k] == p.doc[k]
        }),
{
    lemma_names();
    let entries = json::object_entries(body);
    assert(npm::own_fields_once(entries));
    assert forall|i: int|
        0 <= i < entries.len() && ((#[trigger] entries[i]).name == "dist-tags"@ || entries[i].name
            == "time"@) implies npm::texts_only(entries[i].raw) by {
        let inner = json::object_entries(entries[i].raw);
        assert forall|j: int| 0 <= j < inner.len() implies (#[trigger] inner[j]).is_text by {}
    }
    assert(npm::well_written(body));
    let doc = json::Json::Object(p.doc);
    assert(json::text_map(json::Json::Object(p.tags)) is Some);
    assert(json::text_map(json::Json::Object(p.times)) is Some);
    let meta = npm::metadata_of(doc)->Some_0;
    assert(meta.dist_tags.dom() =~= p.tags.dom());
    assert(meta.time.dom() =~= p.times.dom());
    assert(npm::metadata_in(body) == Some(meta));
}

/// What is handed on, part by part.
proof fn lemma_handed_on(cutoff: int, body: Seq<u8>, p: Package)
    requires
        tells_of(body, p),
    ensures
        ({
            let out = registry::handed_on(Ecosystem::Javascript, cutoff, body);
            let rest = npm::quarantined(cutoff, npm::metadata_in(body)->Some_0);
            &&& out is Object
            &&& out->Object_0.dom() == p.doc.dom()
            &&& out->Object_0["dist-tags"@] is Object
            &&& out->Object_0["time"@] is Object
            &&& out->Object_0["versions"@] is Object
            &&& out->Object_0["name"@] == json::Json::Text(p.name)
            &&& part(out, "dist-tags"@).dom() == rest.dist_tags.dom()
            &&& forall|k: Seq<char>| #[trigger]
                rest.dist_tags.dom().contains(k) ==> part(out, "dist-tags"@)[k] == json::Json::Text(
                    rest.dist_tags[k],
                )
            &&& part(out, "time"@).dom() == rest.time.dom()
            &&& forall|k: Seq<char>| #[trigger]
                rest.time.dom().contains(k) ==> part(out, "time"@)[k] == json::Json::Text(
                    rest.time[k],
                )
            &&& part(out, "versions"@) == rest.versions
            &&& forall|k: Seq<char>| #[trigger]
                p.doc.dom().contains(k) && k != "dist-tags"@ && k != "time"@ && k != "versions"@
                    ==> out->Object_0[k] == p.doc[k]
        }),
{
    lemma_names();
    lemma_read(body, p);
    let meta = npm::metadata_in(body)->Some_0;
    let rest = npm::quarantined(cutoff, meta);
    let out = registry::handed_on(Ecosystem::Javascript, cutoff, body);
    assert(out == npm::document_of(rest));
    assert(rest.extra == meta.extra);
    let o = out->Object_0;
    assert forall|k: Seq<char>| o.dom().contains(k) == p.doc.dom().contains(k) by {
        if p.doc.dom().contains(k) {
            assert(meta.extra.dom().contains(k) || k == "name"@ || k == "dist-tags"@ || k == "time"@
                || k == "versions"@);
        }
        if meta.extra.dom().contains(k) {
            assert(p.doc.dom().contains(k));
        }
    }
    assert(o.dom() =~= p.doc.dom());
    assert(part(out, "dist-tags"@).dom() =~= rest.dist_tags.dom());
    assert(part(out, "time"@).dom() =~= rest.time.dom());
    assert forall|k: Seq<char>| #[trigger]
        p.doc.dom().contains(k) && k != "dist-tags"@ && k != "time"@ && k
            != "versions"@ implies o[k] == p.doc[k] by {
        if k != "name"@ {
            assert(meta.extra.dom().contains(k));
        }
    }
}

proof fn lemma_asks(url: target::UrlView, fields: Map<Seq<char>, Seq<Seq<u8>>>)
    requires
        is_read(url, fields),
    ensures
        registry::asks_for_metadata(Ecosystem::Javascript, url),
        !registry::is_compressed(fields),
{
}

/// Which versions are withheld, of such a document.
proof fn lemma_withheld(cutoff: int, body: Seq<u8>, p: Package)
    requires
        tells_of(body, p),
    ensures
        ({
            let meta = npm::metadata_in(body)->Some_0;
            let gone = npm::withheld(cutoff, npm::published(meta.time));
            &&& forall|v: Seq<char>|
                gone.contains(v) <==> #[trigger] p.times.dom().contains(v) && too_new(
                    cutoff,
                    v,
                    p.times[v]->Text_0,
                )
            &&& order::ascending(gone)
        }),
{
    lemma_read(body, p);
    let meta = npm::metadata_in(body)->Some_0;
    npm::lemma_withheld(cutoff, meta);
    let gone = npm::withheld(cutoff, npm::published(meta.time));
    assert forall|v: Seq<char>|
        gone.contains(v) <==> #[trigger] p.times.dom().contains(v) && too_new(
            cutoff,
            v,
            p.times[v]->Text_0,
        ) by {
        assert(gone.contains(v) <==> meta.time.dom().contains(v) && npm::is_release(v)
            && !instant::old_enough(cutoff, instant::instant_of(meta.time[v])));
        assert(meta.time.dom().contains(v) == p.times.dom().contains(v));
        if p.times.dom().contains(v) {
            assert(p.times[v] == json::Json::Text(meta.time[v]));
        }
    }
}

/// A version that is too new, or whose time cannot be read, is in no time, in no
/// description and behind no tag of the document that is handed on, and it is
/// recorded under the name of its package.
pub proof fn law_new_versions_go(
    registry: registry::RegistryView,
    url: target::UrlView,
    fields: Map<Seq<char>, Seq<Seq<u8>>>,
    body: Seq<u8>,
    p: Package,
    v: Seq<char>,
)
    requires
        is_read(url, fields),
        tells_of(body, p),
        p.times.dom().contains(v),
        v != "created"@,
        v != "modified"@,
        match instant::instant_of(p.times[v]->Text_0) {
            Some(t) => t > registry.cutoff,
            None => true,
        },
    ensures
        ({
            let (after, action) = registry::answered(
                Ecosystem::Javascript,
                registry,
                url,
                fields,
                body,
            );
            let out = registry::handed_on(Ecosystem::Javascript, registry.cutoff, body);
            &&& action is Rewrite
            &&& out is Object
            &&& out->Object_0["time"@] is Object && !part(out, "time"@).dom().contains(v)
            &&& out->Object_0["versions"@] is Object && !part(out, "versions"@).dom().contains(v)
            &&& out->Object_0["dist-tags"@] is Object && forall|tag: Seq<char>| #[trigger]
                part(out, "dist-tags"@).dom().contains(tag) ==> part(out, "dist-tags"@)[tag]
                    != json::Json::Text(v)
            &&& after.cutoff == registry.cutoff
            &&& after.checked == registry.checked + 1
            &&& after.quarantined.len() == registry.quarantined.len() + 1
            &&& after.quarantined.drop_last() == registry.quarantined
            &&& after.quarantined.last().name == p.name
            &&& after.quarantined.last().versions.contains(v)
        }),
{
    let cutoff = registry.cutoff;
    lemma_asks(url, fields);
    lemma_read(body, p);
    lemma_withheld(cutoff, body, p);
    lemma_handed_on(cutoff, body, p);
    let meta = npm::metadata_in(body)->Some_0;
    let gone = npm::withheld(cutoff, npm::published(meta.time));
    assert(gone.contains(v));
    npm::lemma_new_goes(cutoff, meta, v);
    let after = registry::answered(Ecosystem::Javascript, registry, url, fields, body).0;
    assert(after.quarantined.drop_last() =~= registry.quarantined);
    let out = registry::handed_on(Ecosystem::Javascript, cutoff, body);
    let rest = npm::quarantined(cutoff, meta);
    assert forall|tag: Seq<char>| #[trigger]
        part(out, "dist-tags"@).dom().contains(tag) implies part(out, "dist-tags"@)[tag]
        != json::Json::Text(v) by {
        assert(rest.dist_tags.dom().contains(tag));
    }
}

/// Whatever is no version that is too new stays as it is: its time, its
/// description and the tags that point at it, and it is not recorded. So do the
/// name and every other member of the document, and no member is added.
pub proof fn law_the_rest_stays(
    registry: registry::RegistryView,
    url: target::UrlView,
    fields: Map<Seq<char>, Seq<Seq<u8>>>,
    body: Seq<u8>,
    p: Package,
    k: Seq<char>,
)
    requires
        is_read(url, fields),
        tells_of(body, p),
        p.times.dom().contains(k) ==> k == "created"@ || k == "modified"@ || (instant::instant_of(
            p.times[k]->Text_0,
        ) matches Some(t) && t <= registry.cutoff),
    ensures
        ({
            let (after, action) = registry::answered(
                Ecosystem::Javascript,
                registry,
                url,
                fields,
                body,
            );
            let out = registry::handed_on(Ecosystem::Javascript, registry.cutoff, body);
            &&& out is Object
            &&& out->Object_0.dom() == p.doc.dom()
            &&& forall|m: Seq<char>| #[trigger]
                p.doc.dom().contains(m) && m != "dist-tags"@ && m != "time"@ && m != "versions"@
                    ==> out->Object_0[m] == p.doc[m]
            &&& part(out, "time"@).dom().contains(k) == p.times.dom().contains(k)
            &&& p.times.dom().contains(k) ==> part(out, "time"@)[k] == p.times[k]
            &&& part(out, "versions"@).dom().contains(k) == p.versions.dom().contains(k)
            &&& p.versions.dom().contains(k) ==> part(out, "versions"@)[k] == p.versions[k]
            &&& forall|tag: Seq<char>| #[trigger]
                p.tags.dom().contains(tag) && p.tags[tag] == json::Json::Text(k) ==> part(
                    out,
                    "dist-tags"@,
                ).dom().contains(tag) && part(out, "dist-tags"@)[tag] == p.tags[tag]
            &&& forall|tag: Seq<char>| #[trigger]
                part(out, "dist-tags"@).dom().contains(tag) && tag != "latest"@
                    ==> p.tags.dom().contains(tag) && part(out, "dist-tags"@)[tag] == p.tags[tag]
            &&& action is Rewrite ==> !after.quarantined.last().versions.contains(k)
        }),
{
    let cutoff = registry.cutoff;
    lemma_asks(url, fields);
    lemma_read(body, p);
    lemma_withheld(cutoff, body, p);
    lemma_handed_on(cutoff, body, p);
    let meta = npm::metadata_in(body)->Some_0;
    let rest = npm::quarantined(cutoff, meta);
    let gone = npm::withheld(cutoff, npm::published(meta.time));
    let out = registry::handed_on(Ecosystem::Javascript, cutoff, body);
    assert(!gone.contains(k)) by {
        if gone.contains(k) {
            assert(p.times.dom().contains(k));
        }
    }
    if p.times.dom().contains(k) {
        assert(rest.time.dom().contains(k));
    }
    assert forall|tag: Seq<char>| #[trigger]
        p.tags.dom().contains(tag) && p.tags[tag] == json::Json::Text(k) implies part(
        out,
        "dist-tags"@,
    ).dom().contains(tag) && part(out, "dist-tags"@)[tag] == p.tags[tag] by {
        assert(meta.dist_tags[tag] == k);
        assert(rest.dist_tags.dom().contains(tag));
    }
    assert forall|tag: Seq<char>| #[trigger]
        part(out, "dist-tags"@).dom().contains(tag) && tag != "latest"@ implies p.tags.dom().contains(
        tag,
    ) && part(out, "dist-tags"@)[tag] == p.tags[tag] by {
        assert(rest.dist_tags.dom().contains(tag));
        assert(p.tags.dom().contains(tag));
    }
}

/// Where nothing is too new, the answer passes as it is, is counted, and nothing
/// is recorded.
pub proof fn law_old_answers_pass(
    registry: registry::RegistryView,
    url: target::UrlView,
    fields: Map<Seq<char>, Seq<Seq<u8>>>,
    body: Seq<u8>,
    p: Package,
)
    requires
        is_read(url, fields),
        tells_of(body, p),
        forall|v: Seq<char>| #[trigger]
            p.times.dom().contains(v) ==> v == "created"@ || v == "modified"@ || (
            instant::instant_of(p.times[v]->Text_0) matches Some(t) && t <= registry.cutoff),
    ensures
        registry::answered(Ecosystem::Javascript, registry, url, fields, body) == (
            registry::RegistryView {
                cutoff: registry.cutoff,
                checked: registry.checked + 1,
                quarantined: registry.quarantined,
            },
            registry::Action::Passthrough,
        ),
{
    lemma_asks(url, fields);
    lemma_read(body, p);
    lemma_withheld(registry.cutoff, body, p);
    let meta = npm::metadata_in(body)->Some_0;
    let gone = npm::withheld(registry.cutoff, npm::published(meta.time));
    if gone.len() > 0 {
        let v = gone[0];
        assert(gone.contains(v));
        assert(p.times.dom().contains(v));
    }
}

/// Where `latest` is not there or points at a version that is too new, it is given
/// to a version without a hyphen in its name that is left; no other such version
/// has a later time, and of those with the same time none has a greater name. Where
/// no such version is left, there is no `latest`.
pub proof fn law_latest_moves(
    registry: registry::RegistryView,
    body: Seq<u8>,
    p: Package,
    w: Seq<char>,
)
    requires
        tells_of(body, p),
        p.tags.dom().contains("latest"@) ==> p.times.dom().contains(
            p.tags["latest"@]->Text_0,
        ) && too_new(
            registry.cutoff,
            p.tags["latest"@]->Text_0,
            p.times[p.tags["latest"@]->Text_0]->Text_0,
        ),
    ensures
        ({
            let out = registry::handed_on(Ecosystem::Javascript, registry.cutoff, body);
            let tags = part(out, "dist-tags"@);
            &&& can_be_latest(registry.cutoff, p.times, w) ==> {
                let x = tags["latest"@]->Text_0;
                &&& tags.dom().contains("latest"@)
                &&& tags["latest"@] is Text
                &&& can_be_latest(registry.cutoff, p.times, x)
                &&& order::text_lt(p.times[w]->Text_0, p.times[x]->Text_0) || (
                p.times[w]->Text_0 == p.times[x]->Text_0 && order::text_le(w, x))
            }
            &&& (forall|v: Seq<char>| !can_be_latest(registry.cutoff, p.times, v))
                ==> !tags.dom().contains("latest"@)
        }),
{
    let cutoff = registry.cutoff;
    lemma_read(body, p);
    lemma_withheld(cutoff, body, p);
    lemma_handed_on(cutoff, body, p);
    let meta = npm::metadata_in(body)->Some_0;
    let rest = npm::quarantined(cutoff, meta);
    let gone = npm::withheld(cutoff, npm::published(meta.time));
    let out = registry::handed_on(Ecosystem::Javascript, cutoff, body);
    let kept = npm::tags_without(meta.dist_tags, gone);
    assert(!kept.dom().contains("latest"@)) by {
        if meta.dist_tags.dom().contains("latest"@) {
            assert(p.tags.dom().contains("latest"@));
            let at = meta.dist_tags["latest"@];
            assert(p.times.dom().contains(at));
            assert(gone.contains(at));
        }
    }
    assert forall|v: Seq<char>|
        can_be_latest(cutoff, p.times, v) <==> rest.time.dom().contains(v) && #[trigger] npm::is_stable(
            v,
        ) by {
        if p.times.dom().contains(v) {
            assert(p.times[v] == json::Json::Text(meta.time[v]));
        }
    }
    let time = rest.time;
    assert(time.dom().subset_of(meta.time.dom()));
    vstd::set_lib::lemma_len_subset(time.dom(), meta.time.dom());
    if can_be_latest(cutoff, p.times, w) {
        assert(npm::is_stable(w));
        npm::lemma_newest_exists(time, w);
        let x = npm::newest(time)->Some_0;
        assert(npm::is_newest(time, x));
        assert(rest.dist_tags.dom().contains("latest"@));
        assert(rest.dist_tags["latest"@] == x);
        assert(part(out, "dist-tags"@)["latest"@] == json::Json::Text(x));
        assert(npm::is_stable(x));
        assert(time.dom().contains(w));
        assert(p.times.dom().contains(w) && p.times.dom().contains(x));
        assert(p.times[w] == json::Json::Text(meta.time[w]));
        assert(p.times[x] == json::Json::Text(meta.time[x]));
    }
    if forall|v: Seq<char>| !can_be_latest(cutoff, p.times, v) {
        if npm::newest(time) is Some {
            let x = npm::newest(time)->Some_0;
            assert(npm::is_newest(time, x));
            assert(npm::is_stable(x));
            assert(can_be_latest(cutoff, p.times, x));
        }
    }
}

/// What is recorded of a package names each version once.
pub proof fn law_recorded_once(
    registry: registry::RegistryView,
    url: target::UrlView,
    fields: Map<Seq<char>, Seq<Seq<u8>>>,
    body: Seq<u8>,
    p: Package,
)
    requires
        is_read(url, fields),
        tells_of(body, p),
        registry::answered(Ecosystem::Javascript, registry, url, fields, body).1 is Rewrite,
    ensures
        ({
            let after = registry::answered(
                Ecosystem::Javascript,
                registry,
                url,
                fields,
                body,
            ).0;
            let versions = after.quarantined.last().versions;
            &&& versions.len() > 0
            &&& forall|i: int, j: int|
                0 <= i < j < versions.len() ==> (#[trigger] versions[i]) != (#[trigger] versions[j])
                    && order::text_le(versions[i], versions[j])
        }),
{
    lemma_asks(url, fields);
    lemma_read(body, p);
    lemma_withheld(registry.cutoff, body, p);
    let after = registry::answered(Ecosystem::Javascript, registry, url, fields, body).0;
    let versions = after.quarantined.last().versions;
    assert forall|i: int, j: int| 0 <= i < j < versions.len() implies (#[trigger] versions[i]) != (
    #[trigger] versions[j]) && order::text_le(versions[i], versions[j]) by {
        assert(order::text_lt(versions[i], versions[j]));
    }
}

/// What cannot be read, is no object, lacks a name, tags, times or versions or has
/// something else there, or writes one of these twice, is no metadata: it passes
/// as it is and is not counted.
pub proof fn law_what_is_no_metadata_passes(
    registry: registry::RegistryView,
    url: target::UrlView,
    fields: Map<Seq<char>, Seq<Seq<u8>>>,
    body: Seq<u8>,
)
    requires
        is_read(url, fields),
        match json::parsed_json(body) {
            Some(json::Json::Object(m)) => {
                ||| !m.dom().contains("name"@) || !(m["name"@] is Text)
                ||| !m.dom().contains("dist-tags"@) || !(m["dist-tags"@] is Object) || !are_texts(
                    m["dist-tags"@]->Object_0,
                )
                ||| !m.dom().contains("time"@) || !(m["time"@] is Object) || !are_texts(
                    m["time"@]->Object_0,
                )
                ||| !m.dom().contains("versions"@) || !(m["versions"@] is Object)
                ||| exists|i: int, j: int|
                    0 <= i < j < json::object_entries(body).len() && (#[trigger] json::object_entries(
                        body,
                    )[i]).name == (#[trigger] json::object_entries(body)[j]).name && (
                    json::object_entries(body)[i].name == "name"@ || json::object_entries(
                        body,
                    )[i].name == "dist-tags"@ || json::object_entries(body)[i].name == "time"@
                        || json::object_entries(body)[i].name == "versions"@)
                ||| exists|i: int, j: int|
                    0 <= i < json::object_entries(body).len() && 0 <= j < json::object_entries(
                        json::object_entries(body)[i].raw,
                    ).len() && (json::object_entries(body)[i].name == "dist-tags"@
                        || json::object_entries(body)[i].name == "time"@) && !(
                    #[trigger] json::object_entries(json::object_entries(body)[i].raw)[j]).is_text
            },
            _ => true,
        },
    ensures
        registry::answered(Ecosystem::Javascript, registry, url, fields, body) == (
            registry,
            registry::Action::Passthrough,
        ),
{
    lemma_asks(url, fields);
    if npm::metadata_in(body) is Some {
        let entries = json::object_entries(body);
        assert(npm::well_written(body));
        assert(npm::own_fields_once(entries));
        let m = json::parsed_json(body)->Some_0->Object_0;
        assert(json::text_map(m["dist-tags"@]) is Some);
        assert(json::text_map(m["time"@]) is Some);
        if exists|i: int, j: int|
            0 <= i < entries.len() && 0 <= j < json::object_entries(entries[i].raw).len() && (
            entries[i].name == "dist-tags"@ || entries[i].name == "time"@) && !(
            #[trigger] json::object_entries(entries[i].raw)[j]).is_text {
            let (i, j) = choose|i: int, j: int|
                0 <= i < entries.len() && 0 <= j < json::object_entries(entries[i].raw).len() && (
                entries[i].name == "dist-tags"@ || entries[i].name == "time"@) && !(
                #[trigger] json::object_entries(entries[i].raw)[j]).is_text;
            assert(npm::texts_only(entries[i].raw));
        }
    }
}

/// Metadata is asked for by every URL whose path, up to a question mark, neither
/// ends in `.tgz` nor holds a slash, a hyphen and a slash.
pub proof fn law_metadata_urls(url: target::UrlView, path: Seq<char>, query: Seq<char>)
    requires
        !path.contains('?'),
        url.path == path || url.path == path + seq!['?'] + query,
    ensures
        registry::asks_for_metadata(Ecosystem::Javascript, url) <==> !text::ends(path, ".tgz"@)
            && !text::occurs(path, "/-/"@),
{
    let n = text::position(url.path, '?');
    text::lemma_position(url.path, '?');
    if url.path == path {
        assert(url.path.take(n) =~= path);
    } else {
        assert(url.path[path.len() as int] == '?');
        if n < path.len() {
            assert(path[n] == '?');
            assert(path.contains('?'));
        }
        assert(url.path.take(n) =~= path);
    }
}

/// Of any list of versions and times, those are withheld that are no `created` and
/// no `modified` and whose time is later than the cutoff or unknown, in the order
/// of the list.
pub proof fn law_withheld(cutoff: int, published: Seq<(Seq<char>, Option<int>)>)
    ensures
        npm::withheld(cutoff, published) == published.filter(
            |p: (Seq<char>, Option<int>)|
                p.0 != "created"@ && p.0 != "modified"@ && (p.1 matches Some(t) ==> t > cutoff),
        ).map_values(|p: (Seq<char>, Option<int>)| p.0),
{
    let bad = |p: (Seq<char>, Option<int>)|
        npm::is_release(p.0) && !instant::old_enough(cutoff, p.1);
    let own = |p: (Seq<char>, Option<int>)|
        p.0 != "created"@ && p.0 != "modified"@ && (p.1 matches Some(t) ==> t > cutoff);
    assert(bad =~= own);
}

/// A package counts as checked whatever becomes of it. If some of its versions are
/// withheld, they are recorded under its name and taken out of it.
pub proof fn law_reviewed(
    registry: registry::RegistryView,
    meta: npm::Metadata,
    published: Seq<(Seq<char>, Option<int>)>,
)
    ensures
        ({
            let (after, left) = npm::reviewed(registry, meta, published);
            let gone = npm::withheld(registry.cutoff, published);
            &&& after.cutoff == registry.cutoff
            &&& after.checked == registry.checked + 1
            &&& gone.len() == 0 ==> left is None && after.quarantined == registry.quarantined
            &&& gone.len() > 0 ==> left == Some(npm::pruned(meta, gone)) && after.quarantined
                == registry.quarantined.push(
                registry::Quarantined { name: meta.name, versions: gone },
            )
        }),
{
}

/// Whatever versions are taken out of the metadata, they lose their times, their
/// descriptions and the tags that point at them; nothing else goes, but that
/// `latest` may be given anew.
pub proof fn law_pruned(meta: npm::Metadata, removed: Seq<Seq<char>>, k: Seq<char>)
    ensures
        ({
            let rest = npm::pruned(meta, removed);
            &&& rest.name == meta.name
            &&& rest.extra == meta.extra
            &&& rest.time.dom().contains(k) <==> meta.time.dom().contains(k) && !removed.contains(k)
            &&& rest.time.dom().contains(k) ==> rest.time[k] == meta.time[k]
            &&& rest.versions.dom().contains(k) <==> meta.versions.dom().contains(k)
                && !removed.contains(k)
            &&& rest.versions.dom().contains(k) ==> rest.versions[k] == meta.versions[k]
            &&& meta.dist_tags.dom().contains(k) && !removed.contains(meta.dist_tags[k])
                ==> rest.dist_tags.dom().contains(k) && rest.dist_tags[k] == meta.dist_tags[k]
            &&& k != "latest"@ && rest.dist_tags.dom().contains(k) ==> meta.dist_tags.dom().contains(
                k,
            ) && !removed.contains(meta.dist_tags[k])
        }),
{
}

/// The newest version is one without a hyphen in its name, and no `created` and no
/// `modified`; no other such version has a later time, and of those with the same
/// time none has a greater name.
pub proof fn law_newest(time: Map<Seq<char>, Seq<char>>, v: Seq<char>, w: Seq<char>)
    requires
        npm::newest(time) == Some(v),
    ensures
        time.dom().contains(v),
        v != "created"@ && v != "modified"@ && !v.contains('-'),
        time.dom().contains(w) && w != "created"@ && w != "modified"@ && !w.contains('-')
            ==> order::text_lt(time[w], time[v]) || (time[w] == time[v] && order::text_le(w, v)),
{
    assert(npm::is_newest(time, v));
}

} // verus!
