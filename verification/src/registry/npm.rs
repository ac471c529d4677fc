//! The JavaScript registry.

use vstd::prelude::*;
use vstd::slice::slice_subrange;
use vstd::string::*;

use super::{
    arg, reject_compressed, InterceptDecision, QuarantinedPackage, RegistryState, RegistryStats,
    ResponseAction, ToolName,
};
use crate::headers;
use crate::instant;
use crate::instant::{parse_instant, CutoffChecker};
use crate::json;
use crate::listing;
use crate::listing::{drop_named, drop_valued, enter, names};
use crate::order;
use crate::order::at_most;
use crate::registry;
use crate::rule::Rules;
use crate::target;
use crate::target::Url;
use crate::text;
use crate::text::{find_from, mentions, range_text, same, strip_end, to_chars};

verus! {

/// Whether a package manager installs something under this subcommand.
pub open spec fn installs(s: Seq<char>) -> bool {
    ||| s == "install"@
    ||| s == "i"@
    ||| s == "ci"@
    ||| s == "add"@
    ||| s == "update"@
    ||| s == "upgrade"@
}

/// What to do with a call of a tool of the JavaScript family. Other tools pass.
pub open spec fn decision(tool: ToolName, args: Seq<Seq<char>>) -> registry::Decision {
    let first = registry::arg_at(args, 0);
    let intercepted = match tool {
        ToolName::Npx | ToolName::Bunx => true,
        ToolName::Npm | ToolName::Bun => installs(first),
        ToolName::Yarn | ToolName::Pnpm => first.len() == 0 || installs(first),
        _ => false,
    };
    if intercepted {
        registry::Decision::Intercept(args)
    } else {
        registry::Decision::Passthrough(args)
    }
}

/// What to do with a call of a tool of the JavaScript family.
pub fn decide(tool: ToolName, args: Vec<String>) -> (r: InterceptDecision)
    ensures
        r@ == decision(tool, text::texts(args@)),
{
    let first = arg(&args, 0);
    let installing = same(first, "install") || same(first, "i") || same(first, "ci") || same(
        first,
        "add",
    ) || same(first, "update") || same(first, "upgrade");
    let intercepted = match tool {
        ToolName::Npx | ToolName::Bunx => true,
        ToolName::Npm | ToolName::Bun => installing,
        ToolName::Yarn | ToolName::Pnpm => first.is_empty() || installing,
        _ => false,
    };
    if intercepted {
        InterceptDecision::Intercept(args)
    } else {
        InterceptDecision::Passthrough(args)
    }
}

/// What the registry says of a package.
pub struct Metadata {
    pub name: Seq<char>,
    pub dist_tags: Map<Seq<char>, Seq<char>>,
    pub time: Map<Seq<char>, Seq<char>>,
    pub versions: Map<Seq<char>, json::Json>,
    pub extra: Map<Seq<char>, json::Json>,
}

/// What the registry says of a package: its name, the version behind each tag,
/// the time of each version, the versions, and everything else. The lists are
/// in ascending order of their names.
pub struct NpmMetadata {
    pub name: String,
    pub dist_tags: Vec<(String, String)>,
    pub time: Vec<(String, String)>,
    pub versions: Vec<(String, serde_json::Value)>,
    pub extra: Vec<(String, serde_json::Value)>,
}

/// Whether a member of the document has a place of its own in the metadata.
pub open spec fn is_own_field(name: Seq<char>) -> bool {
    name == "name"@ || name == "dist-tags"@ || name == "time"@ || name == "versions"@
}

/// The four names differ.
proof fn lemma_own_fields()
    ensures
        "name"@ != "dist-tags"@,
        "name"@ != "time"@,
        "name"@ != "versions"@,
        "dist-tags"@ != "time"@,
        "dist-tags"@ != "versions"@,
        "time"@ != "versions"@,
{
    reveal_strlit("name");
    reveal_strlit("dist-tags");
    reveal_strlit("time");
    reveal_strlit("versions");
    assert("name"@[0] == 'n');
    assert("dist-tags"@[0] == 'd');
    assert("time"@[0] == 't');
    assert("versions"@[0] == 'v');
}

impl View for NpmMetadata {
    type V = Metadata;

    open spec fn view(&self) -> Metadata {
        Metadata {
            name: self.name@,
            dist_tags: listing::map_of(text::pairs(self.dist_tags@)),
            time: listing::map_of(text::pairs(self.time@)),
            versions: listing::map_of(json::members_of(self.versions@)),
            extra: listing::map_of(json::members_of(self.extra@)),
        }
    }
}

impl NpmMetadata {
    /// Whether the lists are in order, and everything else is indeed something else.
    pub open spec fn wf(self) -> bool {
        &&& order::ascending(listing::firsts(text::pairs(self.dist_tags@)))
        &&& order::ascending(listing::firsts(text::pairs(self.time@)))
        &&& order::ascending(listing::firsts(json::members_of(self.versions@)))
        &&& order::ascending(listing::firsts(json::members_of(self.extra@)))
        &&& self@.wf()
    }
}

impl Metadata {
    /// Whether everything else is indeed something else.
    pub open spec fn wf(self) -> bool {
        forall|k: Seq<char>| #[trigger] self.extra.dom().contains(k) ==> !is_own_field(k)
    }
}

/// The object under a name, if there is one.
pub open spec fn object_at(doc: json::Json, name: Seq<char>) -> Option<Map<Seq<char>, json::Json>> {
    match json::member(doc, name) {
        Some(json::Json::Object(m)) => Some(m),
        _ => None,
    }
}

/// The object of texts under a name, if there is one.
pub open spec fn texts_at(doc: json::Json, name: Seq<char>) -> Option<Map<Seq<char>, Seq<char>>> {
    match json::member(doc, name) {
        Some(x) => json::text_map(x),
        None => None,
    }
}

/// What a document says of a package, if it has a name, tags, times and versions.
pub open spec fn metadata_of(doc: json::Json) -> Option<Metadata> {
    match (
        json::as_text(json::member(doc, "name"@)),
        texts_at(doc, "dist-tags"@),
        texts_at(doc, "time"@),
        object_at(doc, "versions"@),
    ) {
        (Some(name), Some(dist_tags), Some(time), Some(versions)) => Some(
            Metadata {
                name,
                dist_tags,
                time,
                versions,
                extra: doc->Object_0.remove("name"@).remove("dist-tags"@).remove("time"@).remove(
                    "versions"@,
                ),
            },
        ),
        _ => None,
    }
}

/// The document that says this of a package.
pub open spec fn document_of(meta: Metadata) -> json::Json {
    json::Json::Object(
        meta.extra.insert("name"@, json::Json::Text(meta.name)).insert(
            "dist-tags"@,
            json::text_object(meta.dist_tags),
        ).insert("time"@, json::text_object(meta.time)).insert(
            "versions"@,
            json::Json::Object(meta.versions),
        ),
    )
}

/// Metadata written as a document is read back from it.
pub proof fn lemma_document_of(meta: Metadata)
    requires
        meta.wf(),
    ensures
        metadata_of(document_of(meta)) == Some(meta),
{
    lemma_own_fields();
    json::lemma_text_object(meta.dist_tags);
    json::lemma_text_object(meta.time);
    let o = document_of(meta)->Object_0;
    let rest = o.remove("name"@).remove("dist-tags"@).remove("time"@).remove("versions"@);
    assert forall|k: Seq<char>| rest.dom().contains(k) == meta.extra.dom().contains(k) by {
        if meta.extra.dom().contains(k) {
            assert(!is_own_field(k));
        }
    }
    assert forall|k: Seq<char>| meta.extra.dom().contains(k) implies rest[k] == meta.extra[k] by {
        assert(!is_own_field(k));
    }
    assert(rest =~= meta.extra);
}

/// Whether no member with a place of its own is written twice.
pub open spec fn own_fields_once(entries: Seq<json::Entry>) -> bool {
    forall|i: int, j: int|
        0 <= i < j < entries.len() && is_own_field((#[trigger] entries[i]).name) ==> entries[i].name
            != (#[trigger] entries[j]).name
}

/// Whether every member of the object that a text writes is a text.
pub open spec fn texts_only(raw: Seq<u8>) -> bool {
    forall|i: int|
        0 <= i < json::object_entries(raw).len() ==> (
        #[trigger] json::object_entries(raw)[i]).is_text
}

/// Whether a text writes each member with a place of its own once, and nothing
/// but texts under the tags and the times, not even where a later one of the
/// same name follows.
pub open spec fn well_written(body: Seq<u8>) -> bool {
    let entries = json::object_entries(body);
    &&& own_fields_once(entries)
    &&& forall|i: int|
        0 <= i < entries.len() && ((#[trigger] entries[i]).name == "dist-tags"@ || entries[i].name
            == "time"@) ==> texts_only(entries[i].raw)
}

/// What an answer says of a package, if it is metadata.
pub open spec fn metadata_in(body: Seq<u8>) -> Option<Metadata> {
    match json::parsed_json(body) {
        Some(doc) if well_written(body) => metadata_of(doc),
        _ => None,
    }
}

/// Whether no member with a place of its own is written twice among these.
pub fn fields_once(entries: &Vec<json::RawEntry>) -> (r: bool)
    ensures
        forall|body: Seq<u8>|
            r == own_fields_once(#[trigger] json::entry_views(body, entries@)),
{
    let mut i: usize = 0;
    while i < entries.len()
        invariant
            i <= entries@.len(),
            forall|k: int, l: int|
                0 <= k < i && k < l < entries@.len() && is_own_field((#[trigger] entries@[k]).name@)
                    ==> entries@[k].name@ != (#[trigger] entries@[l]).name@,
        decreases entries.len() - i,
    {
        let name = entries[i].name.as_str();
        if same(name, "name") || same(name, "dist-tags") || same(name, "time") || same(
            name,
            "versions",
        ) {
            let mut j: usize = i + 1;
            while j < entries.len()
                invariant
                    i < j <= entries@.len(),
                    i < entries@.len(),
                    name@ == entries@[i as int].name@,
                    is_own_field(name@),
                    forall|l: int|
                        i < l < j ==> name@ != (#[trigger] entries@[l]).name@,
                decreases entries.len() - j,
            {
                if same(name, entries[j].name.as_str()) {
                    proof {
                        assert forall|body: Seq<u8>| !own_fields_once(
                            #[trigger] json::entry_views(body, entries@),
                        ) by {
                            let v = json::entry_views(body, entries@);
                            assert(v[i as int].name == v[j as int].name);
                        }
                    }
                    return false;
                }
                j += 1;
            }
        }
        i += 1;
    }
    proof {
        assert forall|body: Seq<u8>| own_fields_once(
            #[trigger] json::entry_views(body, entries@),
        ) by {
            let v = json::entry_views(body, entries@);
            assert forall|k: int, l: int|
                0 <= k < l < v.len() && is_own_field((#[trigger] v[k]).name) implies v[k].name != (
            #[trigger] v[l]).name by {
                assert(v[k].name == entries@[k].name@);
                assert(v[l].name == entries@[l].name@);
            }
        }
    }
    true
}

fn has_texts_only(raw: &[u8]) -> (r: bool)
    ensures
        r == texts_only(raw@),
{
    let entries = json::read_entries(raw);
    let ghost all = json::object_entries(raw@);
    let mut i: usize = 0;
    while i < entries.len()
        invariant
            i <= entries@.len(),
            all == json::entry_views(raw@, entries@),
            all == json::object_entries(raw@),
            forall|k: int| 0 <= k < i ==> (#[trigger] all[k]).is_text,
        decreases entries.len() - i,
    {
        assert(all[i as int].is_text == entries@[i as int].is_text);
        if !entries[i].is_text {
            return false;
        }
        i += 1;
    }
    assert(all.len() == entries@.len());
    true
}

fn is_well_written(body: &[u8]) -> (r: bool)
    ensures
        r == well_written(body@),
{
    let entries = json::read_entries(body);
    let ghost all = json::object_entries(body@);
    if !fields_once(&entries) {
        return false;
    }
    let mut i: usize = 0;
    while i < entries.len()
        invariant
            i <= entries@.len(),
            all == json::entry_views(body@, entries@),
            all == json::object_entries(body@),
            json::places_in(body@.len(), entries@),
            forall|k: int|
                0 <= k < i && ((#[trigger] all[k]).name == "dist-tags"@ || all[k].name == "time"@)
                    ==> texts_only(all[k].raw),
        decreases entries.len() - i,
    {
        let entry = &entries[i];
        assert(entries@[i as int].start <= entries@[i as int].end <= body@.len());
        assert(all[i as int].name == entry.name@);
        assert(all[i as int].raw == body@.subrange(entry.start as int, entry.end as int));
        if same(entry.name.as_str(), "dist-tags") || same(entry.name.as_str(), "time") {
            if !has_texts_only(slice_subrange(body, entry.start, entry.end)) {
                return false;
            }
        }
        i += 1;
    }
    assert(all.len() == entries@.len());
    true
}

/// Reads what a document says of a package.
pub(crate) fn read_metadata(doc: serde_json::Value) -> (r: Option<NpmMetadata>)
    ensures
        match metadata_of(json::json_of(doc)) {
            Some(m) => r is Some && r->Some_0@ == m && r->Some_0.wf(),
            None => r is None,
        },
{
    proof {
        lemma_own_fields();
    }
    let mut rest = doc;
    let name = match json::remove(&mut rest, "name") {
        Some(x) => match json::as_str(&x) {
            Some(s) => s.to_string(),
            None => {
                return None;
            },
        },
        None => {
            return None;
        },
    };
    let dist_tags = match json::remove(&mut rest, "dist-tags") {
        Some(x) => match json::into_texts(x) {
            Some(m) => m,
            None => {
                return None;
            },
        },
        None => {
            return None;
        },
    };
    let time = match json::remove(&mut rest, "time") {
        Some(x) => match json::into_texts(x) {
            Some(m) => m,
            None => {
                return None;
            },
        },
        None => {
            return None;
        },
    };
    let versions = match json::remove(&mut rest, "versions") {
        Some(x) => match json::into_members(x) {
            Some(m) => m,
            None => {
                return None;
            },
        },
        None => {
            return None;
        },
    };
    match json::into_members(rest) {
        Some(extra) => {
            proof {
                listing::lemma_map_of(json::members_of(versions@));
                listing::lemma_map_of(json::members_of(extra@));
            }
            Some(NpmMetadata { name, dist_tags, time, versions, extra })
        },
        None => None,
    }
}

/// Whether a name among the times of a package is that of a version.
pub open spec fn is_release(v: Seq<char>) -> bool {
    v != "created"@ && v != "modified"@
}

/// Whether a name among the times of a package is that of a version without
/// a pre-release suffix.
pub open spec fn is_stable(v: Seq<char>) -> bool {
    is_release(v) && !v.contains('-')
}

/// Versions and their times as mathematical values.
pub open spec fn published_view(v: Seq<(String, Option<i128>)>) -> Seq<(Seq<char>, Option<int>)> {
    v.map_values(|p: (String, Option<i128>)| (p.0@, instant::instant_view(p.1)))
}

/// The times of a package read as instants, in ascending order of the names.
pub open spec fn published(time: Map<Seq<char>, Seq<char>>) -> Seq<(Seq<char>, Option<int>)> {
    listing::listing(time).map_values(
        |p: (Seq<char>, Seq<char>)| (p.0, instant::instant_of(p.1)),
    )
}

/// The versions among those published that are too new, or of no known time.
pub open spec fn withheld(cutoff: int, published: Seq<(Seq<char>, Option<int>)>) -> Seq<Seq<char>> {
    listing::firsts(
        published.filter(
            |p: (Seq<char>, Option<int>)| is_release(p.0) && !instant::old_enough(cutoff, p.1),
        ),
    )
}

/// Reads the times of a package as instants.
fn read_times(time: &Vec<(String, String)>) -> (r: Vec<(String, Option<i128>)>)
    ensures
        published_view(r@) == text::pairs(time@).map_values(
            |p: (Seq<char>, Seq<char>)| (p.0, instant::instant_of(p.1)),
        ),
{
    let ghost want = text::pairs(time@).map_values(
        |p: (Seq<char>, Seq<char>)| (p.0, instant::instant_of(p.1)),
    );
    let mut out: Vec<(String, Option<i128>)> = Vec::new();
    let mut i: usize = 0;
    while i < time.len()
        invariant
            i <= time@.len(),
            published_view(out@) == want.take(i as int),
            want == text::pairs(time@).map_values(
                |p: (Seq<char>, Seq<char>)| (p.0, instant::instant_of(p.1)),
            ),
        decreases time.len() - i,
    {
        let ghost before = published_view(out@);
        out.push((time[i].0.clone(), parse_instant(time[i].1.as_str())));
        assert(published_view(out@) =~= before.push(want[i as int]));
        assert(want.take(i + 1) =~= want.take(i as int).push(want[i as int]));
        i += 1;
    }
    assert(want.take(time@.len() as int) =~= want);
    out
}

/// The versions among those published that are too new, or of no known time.
pub fn withheld_versions(checker: &CutoffChecker, published: &Vec<(String, Option<i128>)>) -> (r: Vec<
    String,
>)
    ensures
        text::texts(r@) == withheld(checker.spec_cutoff(), published_view(published@)),
{
    let ghost all = published_view(published@);
    let ghost bad = |p: (Seq<char>, Option<int>)|
        is_release(p.0) && !instant::old_enough(checker.spec_cutoff(), p.1);
    let mut out: Vec<String> = Vec::new();
    let mut i: usize = 0;
    proof {
        listing::lemma_filter_ends(all, bad);
        assert(text::texts(out@) =~= listing::firsts(all.take(0).filter(bad)));
    }
    while i < published.len()
        invariant
            i <= published@.len(),
            all == published_view(published@),
            bad == (|p: (Seq<char>, Option<int>)|
                is_release(p.0) && !instant::old_enough(checker.spec_cutoff(), p.1)),
            text::texts(out@) == listing::firsts(all.take(i as int).filter(bad)),
        decreases published.len() - i,
    {
        let version = published[i].0.as_str();
        proof {
            listing::lemma_filter_step(all, i as int, bad);
        }
        let ghost before = text::texts(out@);
        let ghost kept = all.take(i as int).filter(bad);
        if !same(version, "created") && !same(version, "modified") && !checker.is_old_enough(
            published[i].1,
        ) {
            out.push(published[i].0.clone());
            assert(text::texts(out@) =~= before.push(all[i as int].0));
            assert(listing::firsts(kept.push(all[i as int])) =~= listing::firsts(kept).push(
                all[i as int].0,
            ));
        }
        i += 1;
    }
    proof {
        listing::lemma_filter_ends(all, bad);
    }
    out
}

/// Whether `v` is the stable version with the latest time, as times are written;
/// of several with that time, the one with the greatest name.
pub open spec fn is_newest(time: Map<Seq<char>, Seq<char>>, v: Seq<char>) -> bool {
    &&& time.dom().contains(v)
    &&& is_stable(v)
    &&& forall|w: Seq<char>| #[trigger]
        time.dom().contains(w) && is_stable(w) ==> order::text_lt(time[w], time[v]) || (time[w]
            == time[v] && order::text_le(w, v))
}

/// The stable version with the latest time, if there is a stable version.
pub open spec fn newest(time: Map<Seq<char>, Seq<char>>) -> Option<Seq<char>> {
    if exists|v: Seq<char>| is_newest(time, v) {
        Some(choose|v: Seq<char>| is_newest(time, v))
    } else {
        None
    }
}

/// At most one version is the newest.
pub proof fn lemma_newest(time: Map<Seq<char>, Seq<char>>, v: Seq<char>)
    requires
        is_newest(time, v),
    ensures
        newest(time) == Some(v),
{
    order::lemma_text_order();
    let w = newest(time)->Some_0;
    assert(is_newest(time, w));
    assert(time.dom().contains(v) && time.dom().contains(w));
}

/// Where there is a stable version, one of them is the newest.
pub proof fn lemma_newest_exists(time: Map<Seq<char>, Seq<char>>, v: Seq<char>)
    requires
        time.dom().finite(),
        time.dom().contains(v),
        is_stable(v),
    ensures
        newest(time) is Some,
    decreases time.dom().len(),
{
    order::lemma_text_order();
    let rest = time.remove(v);
    if exists|w: Seq<char>| rest.dom().contains(w) && #[trigger] is_stable(w) {
        let w = choose|w: Seq<char>| rest.dom().contains(w) && #[trigger] is_stable(w);
        lemma_newest_exists(rest, w);
        let x = newest(rest)->Some_0;
        assert(is_newest(rest, x));
        let v_wins = order::text_lt(time[x], time[v]) || (time[x] == time[v] && order::text_le(
            x,
            v,
        ));
        let best = if v_wins {
            v
        } else {
            x
        };
        assert forall|u: Seq<char>| #[trigger]
            time.dom().contains(u) && is_stable(u) implies order::text_lt(time[u], time[best]) || (
        time[u] == time[best] && order::text_le(u, best)) by {
            assert(order::text_le(time[x], time[v]) || order::text_le(time[v], time[x]));
            assert(order::text_le(x, v) || order::text_le(v, x));
            if u != v {
                assert(rest.dom().contains(u));
                assert(order::text_le(time[u], time[x]));
            }
        }
        assert(is_newest(time, best));
    } else {
        assert forall|u: Seq<char>| #[trigger]
            time.dom().contains(u) && is_stable(u) implies order::text_lt(time[u], time[v]) || (
        time[u] == time[v] && order::text_le(u, v)) by {
            if u != v {
                assert(rest.dom().contains(u));
            }
        }
        assert(is_newest(time, v));
    }
}

/// The stable version with the latest time, if there is a stable version.
pub fn recalculate_latest(time: &Vec<(String, String)>) -> (r: Option<String>)
    requires
        order::ascending(listing::firsts(text::pairs(time@))),
    ensures
        target::text_view(r) == newest(listing::map_of(text::pairs(time@))),
        r is None ==> forall|w: Seq<char>| #[trigger]
            listing::map_of(text::pairs(time@)).dom().contains(w) ==> !is_stable(w),
{
    let ghost s = text::pairs(time@);
    let ghost m = listing::map_of(s);
    let mut best: Option<usize> = None;
    let mut i: usize = 0;
    proof {
        order::lemma_text_order();
        listing::lemma_firsts(s);
        listing::lemma_map_of(s);
    }
    while i < time.len()
        invariant
            i <= time@.len(),
            s == text::pairs(time@),
            order::ascending(listing::firsts(s)),
            match best {
                Some(b) => {
                    &&& b < i
                    &&& is_stable(s[b as int].0)
                    &&& forall|j: int|
                        0 <= j < i && is_stable((#[trigger] s[j]).0) ==> order::text_lt(
                            s[j].1,
                            s[b as int].1,
                        ) || (s[j].1 == s[b as int].1 && order::text_le(s[j].0, s[b as int].0))
                },
                None => forall|j: int| 0 <= j < i ==> !is_stable((#[trigger] s[j]).0),
            },
        decreases time.len() - i,
    {
        let version = time[i].0.as_str();
        let chars = to_chars(version);
        let dash = find_from(&chars, 0, '-');
        proof {
            order::lemma_text_order();
            listing::lemma_firsts(s);
            assert(chars@.skip(0) =~= s[i as int].0);
            text::lemma_position(chars@, '-');
        }
        if !same(version, "created") && !same(version, "modified") && dash == chars.len() {
            match best {
                None => {
                    best = Some(i);
                },
                Some(b) => {
                    assert(order::text_lt(listing::firsts(s)[b as int], listing::firsts(s)[i as int]));
                    if at_most(time[b].1.as_str(), time[i].1.as_str()) {
                        proof {
                            assert forall|j: int|
                                0 <= j < i + 1 && is_stable(
                                    (#[trigger] s[j]).0,
                                ) implies order::text_lt(s[j].1, s[i as int].1) || (s[j].1
                                == s[i as int].1 && order::text_le(s[j].0, s[i as int].0)) by {
                                if j < i {
                                    assert(order::text_lt(
                                        listing::firsts(s)[j],
                                        listing::firsts(s)[i as int],
                                    ));
                                    assert(order::text_le(s[j].1, s[b as int].1));
                                    assert(order::text_le(s[b as int].1, s[i as int].1));
                                }
                            }
                        }
                        best = Some(i);
                    } else {
                        assert(order::text_le(s[i as int].1, s[b as int].1));
                    }
                },
            }
        } else {
            assert(!is_stable(s[i as int].0));
        }
        i += 1;
    }
    proof {
        assert forall|w: Seq<char>| #[trigger] m.dom().contains(w) implies exists|j: int|
            0 <= j < s.len() && (#[trigger] s[j]).0 == w && s[j].1 == m[w] by {
            let j = choose|j: int| 0 <= j < listing::firsts(s).len() && listing::firsts(s)[j] == w;
            assert(s[j].0 == w);
            assert(m[s[j].0] == s[j].1);
        }
    }
    match best {
        Some(b) => {
            proof {
                assert(m.dom().contains(s[b as int].0) && m[s[b as int].0] == s[b as int].1);
                assert(is_newest(m, s[b as int].0));
                lemma_newest(m, s[b as int].0);
            }
            Some(time[b].0.clone())
        },
        None => None,
    }
}

/// The tags that point at none of these versions.
pub open spec fn tags_without(
    tags: Map<Seq<char>, Seq<char>>,
    removed: Seq<Seq<char>>,
) -> Map<Seq<char>, Seq<char>> {
    Map::new(
        |k: Seq<char>| tags.dom().contains(k) && !removed.contains(tags[k]),
        |k: Seq<char>| tags[k],
    )
}

/// The tags with `latest` among them, if there is a stable version to give it to.
pub open spec fn with_latest(
    tags: Map<Seq<char>, Seq<char>>,
    time: Map<Seq<char>, Seq<char>>,
) -> Map<Seq<char>, Seq<char>> {
    match newest(time) {
        Some(v) if !tags.dom().contains("latest"@) => tags.insert("latest"@, v),
        _ => tags,
    }
}

/// The metadata without these versions, their times and the tags that point at
/// them. Where `latest` was such a tag, it moves to the newest stable version left.
pub open spec fn pruned(meta: Metadata, removed: Seq<Seq<char>>) -> Metadata {
    Metadata {
        dist_tags: with_latest(
            tags_without(meta.dist_tags, removed),
            listing::without(meta.time, removed),
        ),
        time: listing::without(meta.time, removed),
        versions: listing::without(meta.versions, removed),
        ..meta
    }
}

proof fn lemma_drop_pairs(s: Seq<(String, String)>, removed: Seq<Seq<char>>)
    requires
        order::ascending(listing::firsts(text::pairs(s))),
    ensures
        ({
            let t = s.filter(|p: (String, String)| !removed.contains(p.0@));
            &&& order::ascending(listing::firsts(text::pairs(t)))
            &&& listing::map_of(text::pairs(t)) == listing::without(listing::map_of(text::pairs(s)), removed)
        }),
{
    let f = |p: (String, String)| (p.0@, p.1@);
    let good = |q: (Seq<char>, Seq<char>)| !removed.contains(q.0);
    let t = s.filter(|p: (String, String)| !removed.contains(p.0@));
    assert((|p: (String, String)| !removed.contains(p.0@)) =~= (|a: (String, String)| good(f(a))));
    listing::lemma_filter_view(s, f, good);
    assert(text::pairs(s) =~= s.map_values(f));
    assert(text::pairs(t) =~= t.map_values(f));
    listing::lemma_filter_map(text::pairs(s), good);
    assert(listing::map_of(text::pairs(t)) =~= listing::without(listing::map_of(text::pairs(s)), removed));
}

proof fn lemma_drop_tags(s: Seq<(String, String)>, removed: Seq<Seq<char>>)
    requires
        order::ascending(listing::firsts(text::pairs(s))),
    ensures
        ({
            let t = s.filter(|p: (String, String)| !removed.contains(p.1@));
            &&& order::ascending(listing::firsts(text::pairs(t)))
            &&& listing::map_of(text::pairs(t)) == tags_without(
                listing::map_of(text::pairs(s)),
                removed,
            )
        }),
{
    let f = |p: (String, String)| (p.0@, p.1@);
    let good = |q: (Seq<char>, Seq<char>)| !removed.contains(q.1);
    let t = s.filter(|p: (String, String)| !removed.contains(p.1@));
    assert((|p: (String, String)| !removed.contains(p.1@)) =~= (|a: (String, String)| good(f(a))));
    listing::lemma_filter_view(s, f, good);
    assert(text::pairs(s) =~= s.map_values(f));
    assert(text::pairs(t) =~= t.map_values(f));
    listing::lemma_filter_map(text::pairs(s), good);
    assert(listing::map_of(text::pairs(t)) =~= tags_without(
        listing::map_of(text::pairs(s)),
        removed,
    ));
}

proof fn lemma_drop_members(s: Seq<(String, serde_json::Value)>, removed: Seq<Seq<char>>)
    requires
        order::ascending(listing::firsts(json::members_of(s))),
    ensures
        ({
            let t = s.filter(|p: (String, serde_json::Value)| !removed.contains(p.0@));
            &&& order::ascending(listing::firsts(json::members_of(t)))
            &&& listing::map_of(json::members_of(t)) == listing::without(
                listing::map_of(json::members_of(s)),
                removed,
            )
        }),
{
    let f = |p: (String, serde_json::Value)| (p.0@, json::json_of(p.1));
    let good = |q: (Seq<char>, json::Json)| !removed.contains(q.0);
    let t = s.filter(|p: (String, serde_json::Value)| !removed.contains(p.0@));
    assert((|p: (String, serde_json::Value)| !removed.contains(p.0@)) =~= (
    |a: (String, serde_json::Value)| good(f(a))));
    listing::lemma_filter_view(s, f, good);
    assert(json::members_of(s) =~= s.map_values(f));
    assert(json::members_of(t) =~= t.map_values(f));
    listing::lemma_filter_map(json::members_of(s), good);
    assert(listing::map_of(json::members_of(t)) =~= listing::without(
        listing::map_of(json::members_of(s)),
        removed,
    ));
}

/// What a bounded document says of a package can be written without some of the
/// versions as a bounded document.
proof fn lemma_pruned_is_bounded(doc: json::Json, removed: Seq<Seq<char>>)
    requires
        json::bounded(doc, 127),
        metadata_of(doc) is Some,
    ensures
        json::bounded(document_of(pruned(metadata_of(doc)->Some_0, removed)), 127),
{
    let meta = metadata_of(doc)->Some_0;
    let rest = pruned(meta, removed);
    let all = doc->Object_0;
    let tags = all["dist-tags"@]->Object_0;
    let times = all["time"@]->Object_0;
    assert(json::bounded(all["dist-tags"@], 126));
    assert(json::bounded(all["time"@], 126));
    assert(json::bounded(all["versions"@], 126));
    assert(meta.dist_tags.dom() =~= tags.dom());
    assert(meta.time.dom() =~= times.dom());
    let kept = tags_without(meta.dist_tags, removed);
    assert(kept.dom().subset_of(tags.dom()));
    vstd::set_lib::lemma_len_subset(kept.dom(), tags.dom());
    assert(rest.time.dom().subset_of(times.dom()));
    vstd::set_lib::lemma_len_subset(rest.time.dom(), times.dom());
    json::lemma_bounded_texts(rest.dist_tags, 126);
    json::lemma_bounded_texts(rest.time, 126);
    json::lemma_bounded_submap(meta.versions, rest.versions, 126);
    json::lemma_bounded_submap(all, meta.extra, 127);
    let named = meta.extra.insert("name"@, json::Json::Text(meta.name));
    json::lemma_bounded_insert(meta.extra, "name"@, json::Json::Text(meta.name), 127);
    let tagged = named.insert("dist-tags"@, json::text_object(rest.dist_tags));
    json::lemma_bounded_insert(named, "dist-tags"@, json::text_object(rest.dist_tags), 127);
    let timed = tagged.insert("time"@, json::text_object(rest.time));
    json::lemma_bounded_insert(tagged, "time"@, json::text_object(rest.time), 127);
    json::lemma_bounded_insert(timed, "versions"@, json::Json::Object(rest.versions), 127);
}

/// Takes versions out of the metadata.
pub fn prune(meta: NpmMetadata, removed: &Vec<String>) -> (r: NpmMetadata)
    requires
        meta.wf(),
    ensures
        r.wf(),
        r@ == pruned(meta@, text::texts(removed@)),
{
    let mut time = meta.time;
    let mut versions = meta.versions;
    let mut dist_tags = meta.dist_tags;
    let ghost gone = text::texts(removed@);
    proof {
        lemma_drop_pairs(time@, gone);
        lemma_drop_members(versions@, gone);
        lemma_drop_tags(dist_tags@, gone);
    }
    drop_named(&mut time, removed);
    drop_named(&mut versions, removed);
    drop_valued(&mut dist_tags, removed);
    let ghost tags = listing::map_of(text::pairs(dist_tags@));
    proof {
        listing::lemma_firsts(text::pairs(dist_tags@));
        listing::lemma_map_of(text::pairs(dist_tags@));
    }
    let has_latest = names(&dist_tags, "latest");
    proof {
        let s = text::pairs(dist_tags@);
        if has_latest {
            let i = choose|i: int|
                0 <= i < dist_tags@.len() && (#[trigger] dist_tags@[i]).0@ == "latest"@;
            assert(s[i].0 == "latest"@);
            assert(tags.dom().contains(s[i].0));
        }
        if tags.dom().contains("latest"@) {
            let i = choose|i: int|
                0 <= i < listing::firsts(s).len() && listing::firsts(s)[i] == "latest"@;
            assert(dist_tags@[i].0@ == "latest"@);
        }
    }
    if !has_latest {
        match recalculate_latest(&time) {
            Some(latest) => {
                enter(&mut dist_tags, "latest".to_string(), latest);
            },
            None => {},
        }
    }
    let ghost extra = meta@.extra;
    assert(forall|k: Seq<char>| #[trigger] extra.dom().contains(k) ==> !is_own_field(k));
    let r = NpmMetadata { name: meta.name, dist_tags, time, versions, extra: meta.extra };
    assert(r@.extra == extra);
    r
}

/// The members of the document that says this of a package, in the order in
/// which they are written.
pub open spec fn written_members(meta: Metadata) -> Seq<(Seq<char>, json::Json)> {
    seq![
        ("name"@, json::Json::Text(meta.name)),
        ("dist-tags"@, json::text_object(meta.dist_tags)),
        ("time"@, json::text_object(meta.time)),
        ("versions"@, json::Json::Object(meta.versions)),
    ] + listing::listing(meta.extra)
}

/// Writes the metadata. Reading gives it back, but that fractions may be rounded.
pub(crate) fn write_metadata(meta: NpmMetadata) -> (r: Result<Vec<u8>, serde_json::Error>)
    requires
        meta.wf(),
        json::bounded(document_of(meta@), 127),
    ensures
        r is Ok,
        r->Ok_0@ == json::rendered_members(written_members(meta@)),
        json::reads_as(r->Ok_0@, document_of(meta@)),
{
    let ghost m = meta@;
    let mut extra = meta.extra;
    let ghost others = json::members_of(extra@);
    proof {
        lemma_own_fields();
        listing::lemma_map_of(json::members_of(meta.versions@));
        listing::lemma_map_of(others);
    }
    let dist_tags = json::from_texts(&meta.dist_tags);
    let time = json::from_texts(&meta.time);
    let versions = json::from_members(meta.versions);
    let mut members: Vec<(String, serde_json::Value)> = vec![
        ("name".to_string(), json::from_text(meta.name)),
        ("dist-tags".to_string(), dist_tags),
        ("time".to_string(), time),
        ("versions".to_string(), versions),
    ];
    members.append(&mut extra);
    proof {
        let s = json::members_of(members@);
        assert(s =~= written_members(m));
        let o = document_of(m)->Object_0;
        listing::lemma_firsts(others);
        assert forall|i: int| 4 <= i < s.len() implies #[trigger] s[i] == others[i - 4]
            && m.extra.dom().contains(s[i].0) && m.extra[s[i].0] == s[i].1 && !is_own_field(
            s[i].0,
        ) by {
            assert(s[i] == others[i - 4]);
            assert(m.extra.dom().contains(others[i - 4].0));
        }
        assert forall|i: int, j: int| 0 <= i < j < s.len() implies (#[trigger] s[i]).0 != (
        #[trigger] s[j]).0 by {
            if i >= 4 && s[i].0 == s[j].0 {
                assert(listing::firsts(others)[i - 4] == listing::firsts(others)[j - 4]);
                order::lemma_ascending_distinct(listing::firsts(others), i - 4, j - 4);
            }
        }
        assert forall|k: Seq<char>| #[trigger] o.dom().contains(k) implies listing::firsts(
            s,
        ).contains(k) by {
            listing::lemma_firsts(s);
            if k == "name"@ {
                assert(listing::firsts(s)[0] == k);
            } else if k == "dist-tags"@ {
                assert(listing::firsts(s)[1] == k);
            } else if k == "time"@ {
                assert(listing::firsts(s)[2] == k);
            } else if k == "versions"@ {
                assert(listing::firsts(s)[3] == k);
            } else {
                assert(m.extra.dom().contains(k));
                let j = choose|j: int|
                    0 <= j < listing::firsts(others).len() && listing::firsts(others)[j] == k;
                assert(s[j + 4] == others[j]);
                assert(listing::firsts(s)[j + 4] == k);
            }
        }
        assert(listing::object_of(s, o));
        assert forall|i: int| 0 <= i < members@.len() implies json::bounded(
            json::json_of((#[trigger] members@[i]).1),
            126,
        ) by {
            assert(s[i] == (members@[i].0@, json::json_of(members@[i].1)));
            assert(o.dom().contains(s[i].0));
        }
    }
    json::render_members(&members)
}

/// Whether a URL asks for what the registry says of a package, not for a download.
pub open spec fn asks_for_metadata(url: target::UrlView) -> bool {
    let path = url.path.take(text::position(url.path, '?'));
    !text::ends(path, ".tgz"@) && !text::occurs(path, "/-/"@)
}

/// The hosts of the registry.
pub open spec fn hosts() -> Seq<Seq<char>> {
    seq!["registry.npmjs.org"@, "registry.yarnpkg.com"@]
}

/// The header fields of a request for metadata: it asks for JSON, uncompressed.
pub open spec fn prepared(fields: Map<Seq<char>, Seq<Seq<u8>>>) -> Map<Seq<char>, Seq<Seq<u8>>> {
    fields.insert("accept"@, seq!["application/json".spec_bytes()]).remove("accept-encoding"@)
}

/// The variables that send the tools through the proxy and let them trust it.
pub open spec fn proxy_variables(proxy_url: Seq<char>, ca_cert_path: Seq<char>) -> Seq<
    (Seq<char>, Seq<char>),
> {
    seq![
        ("npm_config_proxy"@, proxy_url),
        ("npm_config_https_proxy"@, proxy_url),
        ("HTTP_PROXY"@, proxy_url),
        ("HTTPS_PROXY"@, proxy_url),
        ("NODE_EXTRA_CA_CERTS"@, ca_cert_path),
    ]
}

/// What the registry remembers once it has seen a package with these times, and
/// the metadata to hand on in place of what came, if versions were withheld.
pub open spec fn reviewed(
    registry: registry::RegistryView,
    meta: Metadata,
    published: Seq<(Seq<char>, Option<int>)>,
) -> (registry::RegistryView, Option<Metadata>) {
    let removed = withheld(registry.cutoff, published);
    if removed.len() == 0 {
        (registry::RegistryView { checked: registry.checked + 1, ..registry }, None)
    } else {
        (
            registry::RegistryView {
                checked: registry.checked + 1,
                quarantined: registry.quarantined.push(
                    registry::Quarantined { name: meta.name, versions: removed },
                ),
                ..registry
            },
            Some(pruned(meta, removed)),
        )
    }
}

/// Whether the registry reads what an answer to a request for this URL holds.
pub open spec fn reads_body(url: target::UrlView, fields: Map<Seq<char>, Seq<Seq<u8>>>) -> bool {
    asks_for_metadata(url) && !registry::is_compressed(fields)
}

/// What the registry remembers of an answer that reads like this, and what
/// becomes of the answer.
pub open spec fn answered(
    registry: registry::RegistryView,
    url: target::UrlView,
    fields: Map<Seq<char>, Seq<Seq<u8>>>,
    read: Option<Metadata>,
) -> (registry::RegistryView, registry::Action) {
    if !asks_for_metadata(url) {
        (registry, registry::Action::Passthrough)
    } else if registry::is_compressed(fields) {
        (registry, registry::Action::Block)
    } else {
        match read {
            Some(meta) => {
                let (after, left) = reviewed(registry, meta, published(meta.time));
                match left {
                    Some(rest) => (
                        after,
                        registry::Action::Rewrite(json::rendered_members(written_members(rest))),
                    ),
                    None => (after, registry::Action::Passthrough),
                }
            },
            None => (registry, registry::Action::Passthrough),
        }
    }
}

/// The metadata without what is too new.
pub open spec fn quarantined(cutoff: int, meta: Metadata) -> Metadata {
    pruned(meta, withheld(cutoff, published(meta.time)))
}

/// The registry of the JavaScript tools.
#[derive(Debug)]
pub struct NpmRegistry {
    checker: CutoffChecker,
    state: RegistryState,
}

impl View for NpmRegistry {
    type V = registry::RegistryView;

    closed spec fn view(&self) -> registry::RegistryView {
        registry::RegistryView {
            cutoff: self.checker.spec_cutoff(),
            checked: self.state.packages_checked as int,
            quarantined: registry::quarantined_views(self.state.quarantined@),
        }
    }
}

impl NpmRegistry {
    /// A registry that withholds what is younger than the rules allow, by the
    /// clock of the machine. There is none if the rules reach back too far.
    pub fn new(rules: Rules) -> (r: Option<NpmRegistry>)
        ensures
            exists|now: int|
                {
                    &&& instant::FIRST_INSTANT <= now <= instant::LAST_INSTANT
                    &&& match #[trigger] instant::hours_before(now, rules.age() as int) {
                        Some(t) => r is Some && r->Some_0@ == registry::fresh(t),
                        None => r is None,
                    }
                },
    {
        match CutoffChecker::new(rules.min_age_hours()) {
            Some(checker) => Some(NpmRegistry::with_checker(checker)),
            None => None,
        }
    }

    /// A registry that withholds what the checker does not find old enough.
    pub fn with_checker(checker: CutoffChecker) -> (r: NpmRegistry)
        ensures
            r@ == registry::fresh(checker.spec_cutoff()),
    {
        let r = NpmRegistry { checker, state: RegistryState::new() };
        assert(registry::quarantined_views(r.state.quarantined@) =~= seq![]);
        r
    }

    /// The last instant that is old enough.
    pub fn test_cutoff(&self) -> (r: i128)
        ensures
            r == self@.cutoff,
    {
        self.checker.cutoff()
    }

    /// Whether a URL asks for what the registry says of a package, not for a download.
    pub fn is_metadata_url(url: &Url) -> (r: bool)
        ensures
            r == asks_for_metadata(url@),
    {
        let chars = to_chars(url.path.as_str());
        let end = find_from(&chars, 0, '?');
        assert(chars@.skip(0) =~= chars@);
        let path = range_text(&chars, 0, end);
        assert(path@ =~= url@.path.take(text::position(url@.path, '?')));
        strip_end(path.as_str(), ".tgz").is_none() && !mentions(path.as_str(), "/-/")
    }

    /// The hosts of the registry.
    pub fn known_hosts(&self) -> (r: Vec<&'static str>)
        ensures
            r@.map_values(|s: &'static str| s@) == hosts(),
    {
        let r = vec!["registry.npmjs.org", "registry.yarnpkg.com"];
        assert(r@.map_values(|s: &'static str| s@) =~= hosts());
        r
    }

    /// Makes a request for metadata ask for JSON, uncompressed.
    pub fn prepare_request(&self, url: &Url, headers: &mut http::HeaderMap<http::HeaderValue>)
        requires
            asks_for_metadata(url@) ==> headers::fields_of(*old(headers)).len()
                < headers::MAX_NAMES,
        ensures
            headers::fields_of(*final(headers)) == if asks_for_metadata(url@) {
                prepared(headers::fields_of(*old(headers)))
            } else {
                headers::fields_of(*old(headers))
            },
    {
        if !NpmRegistry::is_metadata_url(url) {
            return;
        }
        proof {
            reveal_strlit("accept");
            reveal_strlit("accept-encoding");
            reveal_strlit("application/json");
        }
        broadcast use is_ascii_spec_bytes;

        assert("application/json".is_ascii());
        match headers::value_from("application/json") {
            Ok(value) => {
                headers::insert(headers, "accept", value);
            },
            Err(_) => {
                assert(false);
            },
        }
        headers::remove(headers, "accept-encoding");
    }

    /// Counts a package with these times, and takes the versions that are too
    /// new out of its metadata, if there are any.
    pub fn review(&mut self, meta: NpmMetadata, published: &Vec<(String, Option<i128>)>) -> (r: Option<
        NpmMetadata,
    >)
        requires
            meta.wf(),
            old(self)@.checked < usize::MAX,
        ensures
            ({
                let (after, left) = reviewed(old(self)@, meta@, published_view(published@));
                &&& final(self)@ == after
                &&& match left {
                    Some(m) => r is Some && r->Some_0@ == m && r->Some_0.wf(),
                    None => r is None,
                }
            }),
    {
        let removed = withheld_versions(&self.checker, published);
        self.state.packages_checked += 1;
        if removed.len() == 0 {
            return None;
        }
        let ghost before = registry::quarantined_views(self.state.quarantined@);
        let name = meta.name.clone();
        let rest = prune(meta, &removed);
        let package = QuarantinedPackage { name, quarantined_versions: removed };
        self.state.quarantined.push(package);
        assert(registry::quarantined_views(self.state.quarantined@) =~= before.push(package@));
        Some(rest)
    }

    /// Decides what becomes of an answer. What is too new is taken out of the
    /// metadata of a package; what is not metadata passes.
    pub fn handle_response(
        &mut self,
        url: &Url,
        _status: u16,
        response_headers: &http::HeaderMap<http::HeaderValue>,
        body: &[u8],
    ) -> (r: ResponseAction)
        requires
            reads_body(url@, headers::fields_of(*response_headers)) ==> old(self)@.checked
                < usize::MAX,
        ensures
            (final(self)@, r@) == answered(
                old(self)@,
                url@,
                headers::fields_of(*response_headers),
                metadata_in(body@),
            ),
            reads_body(url@, headers::fields_of(*response_headers)) ==> registry::finite_releases(
                registry::Ecosystem::Javascript,
                body@,
            ),
            r is Rewrite ==> json::reads_as(
                r->body@,
                document_of(quarantined(old(self)@.cutoff, metadata_in(body@)->Some_0)),
            ),
            r is Rewrite ==> registry::passes_again(
                registry::Ecosystem::Javascript,
                old(self)@.cutoff,
                url@,
                headers::fields_of(*response_headers),
                r->body@,
            ),
    {
        if !NpmRegistry::is_metadata_url(url) {
            return ResponseAction::Passthrough;
        }
        match reject_compressed(response_headers) {
            Some(action) => {
                return action;
            },
            None => {},
        }
        let doc = match json::parse(body) {
            Ok(doc) => doc,
            Err(_) => {
                return ResponseAction::Passthrough;
            },
        };
        if !is_well_written(body) {
            return ResponseAction::Passthrough;
        }
        let meta = match read_metadata(doc) {
            Some(meta) => meta,
            None => {
                return ResponseAction::Passthrough;
            },
        };
        let times = read_times(&meta.time);
        let ghost read = meta@;
        proof {
            listing::lemma_map_of(text::pairs(meta.time@));
            listing::lemma_listed_is_finite(text::pairs(meta.time@), meta@.time);
            lemma_pruned_is_bounded(
                json::json_of(doc),
                withheld(self@.cutoff, published_view(times@)),
            );
        }
        match self.review(meta, &times) {
            Some(rest) => match write_metadata(rest) {
                Ok(body) => {
                    proof {
                        assert forall|later: registry::RegistryView|
                            later.cutoff == old(self)@.cutoff implies registry::passed_again(
                            registry::Ecosystem::Javascript,
                            later,
                            url@,
                            headers::fields_of(*response_headers),
                            body@,
                        ) by {
                            lemma_second_pass(
                                later,
                                read,
                                url@,
                                headers::fields_of(*response_headers),
                                body@,
                            );
                        }
                    }
                    ResponseAction::Rewrite { body }
                },
                Err(_) => ResponseAction::Block,
            },
            None => ResponseAction::Passthrough,
        }
    }

    /// What the registry has done so far.
    pub fn stats(&self) -> (r: RegistryStats)
        ensures
            r.connections_tunneled == 0,
            r.packages_checked == self@.checked,
            registry::quarantined_views(r.packages_quarantined@) == self@.quarantined,
            r.downloads_blocked@.len() == 0,
    {
        self.state.stats()
    }

    /// The variables that send the tools through the proxy and let them trust it.
    pub fn proxy_env_vars(&self, proxy_url: &str, ca_cert_path: &str) -> (r: Vec<(String, String)>)
        ensures
            text::pairs(r@) == proxy_variables(proxy_url@, ca_cert_path@),
    {
        let r = vec![
            ("npm_config_proxy".to_string(), proxy_url.to_string()),
            ("npm_config_https_proxy".to_string(), proxy_url.to_string()),
            ("HTTP_PROXY".to_string(), proxy_url.to_string()),
            ("HTTPS_PROXY".to_string(), proxy_url.to_string()),
            ("NODE_EXTRA_CA_CERTS".to_string(), ca_cert_path.to_string()),
        ];
        assert(text::pairs(r@) =~= proxy_variables(proxy_url@, ca_cert_path@));
        r
    }
}

/// Exactly the versions are withheld whose time is too new or cannot be read,
/// each named once, in ascending order.
pub proof fn lemma_withheld(cutoff: int, meta: Metadata)
    requires
        meta.time.dom().finite(),
    ensures
        forall|v: Seq<char>|
            withheld(cutoff, published(meta.time)).contains(v) <==> meta.time.dom().contains(v)
                && is_release(v) && !instant::old_enough(
                cutoff,
                instant::instant_of(meta.time[v]),
            ),
        order::ascending(withheld(cutoff, published(meta.time))),
{
    let m = meta.time;
    let s = listing::listing(m);
    listing::lemma_finite_listing(m);
    listing::lemma_firsts(s);
    let all = published(m);
    let bad = |p: (Seq<char>, Option<int>)|
        is_release(p.0) && !instant::old_enough(cutoff, p.1);
    let kept = all.filter(bad);
    listing::lemma_filter_has(all, bad);
    listing::lemma_firsts(kept);
    listing::lemma_firsts(all);
    assert(listing::firsts(all) =~= listing::firsts(s));
    listing::lemma_filter_ascending(all, bad);
    assert forall|v: Seq<char>|
        withheld(cutoff, all).contains(v) <==> m.dom().contains(v) && is_release(v)
            && !instant::old_enough(cutoff, instant::instant_of(m[v])) by {
        if withheld(cutoff, all).contains(v) {
            let i = choose|i: int|
                0 <= i < listing::firsts(kept).len() && listing::firsts(kept)[i] == v;
            assert(kept.contains(kept[i]));
            assert(all.contains(kept[i]) && bad(kept[i]));
            let j = choose|j: int| 0 <= j < all.len() && all[j] == kept[i];
            assert(all[j] == (s[j].0, instant::instant_of(s[j].1)));
            assert(m.dom().contains(s[j].0) && m[s[j].0] == s[j].1);
        }
        if m.dom().contains(v) && is_release(v) && !instant::old_enough(
            cutoff,
            instant::instant_of(m[v]),
        ) {
            let j = choose|j: int| 0 <= j < listing::firsts(s).len() && listing::firsts(s)[j] == v;
            assert(m[s[j].0] == s[j].1);
            assert(all[j] == (v, instant::instant_of(m[v])));
            assert(all.contains(all[j]) && bad(all[j]));
            assert(kept.contains(all[j]));
            let i = choose|i: int| 0 <= i < kept.len() && kept[i] == all[j];
            assert(listing::firsts(kept)[i] == v);
        }
    }
}

/// Every version whose time is handed on is old enough.
pub proof fn lemma_only_old_stays(cutoff: int, meta: Metadata, v: Seq<char>)
    requires
        meta.time.dom().finite(),
        quarantined(cutoff, meta).time.dom().contains(v),
        is_release(v),
    ensures
        instant::old_enough(cutoff, instant::instant_of(quarantined(cutoff, meta).time[v])),
{
    lemma_withheld(cutoff, meta);
}

/// A version that is old enough keeps its time, its description and its tags.
pub proof fn lemma_old_stays(cutoff: int, meta: Metadata, v: Seq<char>)
    requires
        meta.time.dom().finite(),
        meta.time.dom().contains(v),
        instant::old_enough(cutoff, instant::instant_of(meta.time[v])),
    ensures
        ({
            let rest = quarantined(cutoff, meta);
            &&& rest.time.dom().contains(v) && rest.time[v] == meta.time[v]
            &&& rest.versions.dom().contains(v) == meta.versions.dom().contains(v)
            &&& meta.versions.dom().contains(v) ==> rest.versions[v] == meta.versions[v]
            &&& forall|tag: Seq<char>| #[trigger]
                meta.dist_tags.dom().contains(tag) && meta.dist_tags[tag] == v
                    ==> rest.dist_tags.dom().contains(tag) && rest.dist_tags[tag] == v
        }),
{
    lemma_withheld(cutoff, meta);
}

/// A version that is too new, or of no known time, leaves no trace: no time, no
/// description and no tag.
pub proof fn lemma_new_goes(cutoff: int, meta: Metadata, v: Seq<char>)
    requires
        meta.time.dom().finite(),
        meta.time.dom().contains(v),
        is_release(v),
        !instant::old_enough(cutoff, instant::instant_of(meta.time[v])),
    ensures
        ({
            let rest = quarantined(cutoff, meta);
            &&& !rest.time.dom().contains(v)
            &&& !rest.versions.dom().contains(v)
            &&& forall|tag: Seq<char>| #[trigger]
                rest.dist_tags.dom().contains(tag) ==> rest.dist_tags[tag] != v
        }),
{
    lemma_withheld(cutoff, meta);
    let removed = withheld(cutoff, published(meta.time));
    let time = listing::without(meta.time, removed);
    if newest(time) is Some {
        assert(is_newest(time, newest(time)->Some_0));
    }
}

/// Where `latest` pointed at a version that is withheld, or was not there, it
/// points at the newest stable version left, as long as there is one.
pub proof fn lemma_latest_moves(cutoff: int, meta: Metadata)
    requires
        meta.time.dom().finite(),
        meta.dist_tags.dom().contains("latest"@) ==> withheld(
            cutoff,
            published(meta.time),
        ).contains(meta.dist_tags["latest"@]),
        exists|v: Seq<char>|
            quarantined(cutoff, meta).time.dom().contains(v) && #[trigger] is_stable(v),
    ensures
        ({
            let rest = quarantined(cutoff, meta);
            &&& rest.dist_tags.dom().contains("latest"@)
            &&& is_newest(rest.time, rest.dist_tags["latest"@])
        }),
{
    let time = quarantined(cutoff, meta).time;
    assert(time.dom().subset_of(meta.time.dom()));
    vstd::set_lib::lemma_len_subset(time.dom(), meta.time.dom());
    let v = choose|v: Seq<char>| time.dom().contains(v) && #[trigger] is_stable(v);
    lemma_newest_exists(time, v);
    assert(is_newest(time, newest(time)->Some_0));
}

/// The name of the package, everything else that the registry says of it, and
/// the times of its creation and last change stay as they are.
pub proof fn lemma_rest_unchanged(cutoff: int, meta: Metadata)
    requires
        meta.time.dom().finite(),
    ensures
        ({
            let rest = quarantined(cutoff, meta);
            &&& rest.name == meta.name
            &&& rest.extra == meta.extra
            &&& forall|k: Seq<char>| #[trigger]
                meta.time.dom().contains(k) && !is_release(k) ==> rest.time.dom().contains(k)
                    && rest.time[k] == meta.time[k]
        }),
{
    lemma_withheld(cutoff, meta);
}

proof fn lemma_nothing_left_to_withhold(cutoff: int, meta: Metadata)
    requires
        meta.time.dom().finite(),
    ensures
        withheld(cutoff, published(quarantined(cutoff, meta).time)).len() == 0,
{
    let rest = quarantined(cutoff, meta);
    lemma_withheld(cutoff, meta);
    assert(rest.time.dom().subset_of(meta.time.dom()));
    vstd::set_lib::lemma_len_subset(rest.time.dom(), meta.time.dom());
    lemma_withheld(cutoff, rest);
    let again = withheld(cutoff, published(rest.time));
    if again.len() > 0 {
        assert(again.contains(again[0]));
    }
}

/// What is alike a document that says something of a package says the same of
/// its name, its tags and its times.
proof fn lemma_alike_metadata(doc: json::Json, meta: Metadata)
    requires
        meta.wf(),
        json::alike(doc, document_of(meta), 127),
    ensures
        metadata_of(doc) is Some,
        metadata_of(doc)->Some_0.time == meta.time,
{
    let want = document_of(meta);
    lemma_own_fields();
    lemma_document_of(meta);
    json::lemma_alike_member(doc, want, 127, "name"@);
    json::lemma_alike_member(doc, want, 127, "dist-tags"@);
    json::lemma_alike_member(doc, want, 127, "time"@);
    json::lemma_alike_member(doc, want, 127, "versions"@);
    json::lemma_alike_texts(json::member(doc, "dist-tags"@)->Some_0, meta.dist_tags, 126);
    json::lemma_alike_texts(json::member(doc, "time"@)->Some_0, meta.time, 126);
    json::lemma_text_object(meta.dist_tags);
    json::lemma_text_object(meta.time);
}

/// An answer from which everything too new was taken passes unchanged when it
/// comes again, whatever the registry has seen since, and nothing is withheld
/// for it.
pub proof fn lemma_second_pass(
    registry: registry::RegistryView,
    meta: Metadata,
    url: target::UrlView,
    fields: Map<Seq<char>, Seq<Seq<u8>>>,
    body: Seq<u8>,
)
    requires
        meta.wf(),
        meta.time.dom().finite(),
        !registry::is_compressed(fields),
        json::reads_as(body, document_of(quarantined(registry.cutoff, meta))),
    ensures
        registry::passed_again(registry::Ecosystem::Javascript, registry, url, fields, body),
{
    let rest = quarantined(registry.cutoff, meta);
    assert(rest.extra == meta.extra);
    assert(rest.wf());
    if metadata_in(body) is Some {
        lemma_alike_metadata(json::parsed_json(body)->Some_0, rest);
    }
    lemma_nothing_left_to_withhold(registry.cutoff, meta);
}

} // verus!
