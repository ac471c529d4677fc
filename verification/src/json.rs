//! JSON documents, which `serde_json` reads, holds and writes.
//!
//! Contracts speak of a document as a [`Json`]. Every function here that is
//! not proved calls one operation of `serde_json` and says what it does to the
//! document or returns of it.

use vstd::prelude::*;
use vstd::slice::slice_subrange;

use crate::listing;
use crate::order;
use crate::text;

verus! {

/// A JSON document.
pub enum Json {
    Null,
    Bool(bool),
    /// A number written without fraction and exponent that 64 bits can hold.
    Integer(int),
    /// Any other number, by the text that it is written as.
    Real(Seq<char>),
    Text(Seq<char>),
    Array(Seq<Json>),
    Object(Map<Seq<char>, Json>),
}

/// A document as `serde_json` holds it.
#[verifier::external_type_specification]
#[verifier::external_body]
pub struct ExValue(serde_json::Value);

/// Why `serde_json` could not read or write a document.
#[verifier::external_type_specification]
#[verifier::external_body]
pub struct ExError(serde_json::Error);

/// The document that a `serde_json::Value` holds.
pub uninterp spec fn json_of(v: serde_json::Value) -> Json;

/// What `serde_json::from_slice` reads from a text, if it is a JSON text.
pub uninterp spec fn parsed_json(body: Seq<u8>) -> Option<Json>;

/// What `serde_json::to_vec` writes for a document.
pub uninterp spec fn rendered_json(doc: Json) -> Seq<u8>;

/// What `serde_json` writes for an object with these members, in this order.
pub uninterp spec fn rendered_members(members: Seq<(Seq<char>, Json)>) -> Seq<u8>;

/// What a `StreamDeserializer` of `serde_json` reads first from a text that may
/// go on behind it: a document, and the number of bytes up to its end.
pub uninterp spec fn first_json(body: Seq<u8>) -> Option<(Json, int)>;

/// The documents that the values hold.
pub open spec fn jsons(v: Seq<serde_json::Value>) -> Seq<Json> {
    v.map_values(|x: serde_json::Value| json_of(x))
}

/// The names and documents of the members.
pub open spec fn members_of(v: Seq<(String, serde_json::Value)>) -> Seq<(Seq<char>, Json)> {
    v.map_values(|p: (String, serde_json::Value)| (p.0@, json_of(p.1)))
}

/// The member of `doc` with the name `key`, if `doc` is an object that has one.
pub open spec fn member(doc: Json, key: Seq<char>) -> Option<Json> {
    match doc {
        Json::Object(m) => if m.dom().contains(key) {
            Some(m[key])
        } else {
            None
        },
        _ => None,
    }
}

/// The characters of `doc`, if it is a text.
pub open spec fn as_text(doc: Option<Json>) -> Option<Seq<char>> {
    match doc {
        Some(Json::Text(s)) => Some(s),
        _ => None,
    }
}

/// Whether `doc` holds no number that is a `Real`, and nests arrays and objects
/// at most `depth` deep: such a document survives being written and read.
pub open spec fn plain(doc: Json, depth: nat) -> bool
    decreases depth,
{
    match doc {
        Json::Real(_) => false,
        Json::Integer(n) => i64::MIN <= n <= u64::MAX,
        Json::Array(a) => depth > 0 && forall|i: int|
            0 <= i < a.len() ==> plain(#[trigger] a[i], (depth - 1) as nat),
        Json::Object(m) => depth > 0 && forall|k: Seq<char>|
            #[trigger]
            m.dom().contains(k) ==> plain(m[k], (depth - 1) as nat),
        _ => true,
    }
}

/// Whether `doc` nests arrays and objects at most `depth` deep, and none of its
/// objects has more members than can be counted.
pub open spec fn bounded(doc: Json, depth: nat) -> bool
    decreases depth,
{
    match doc {
        Json::Array(a) => depth > 0 && forall|i: int|
            0 <= i < a.len() ==> bounded(#[trigger] a[i], (depth - 1) as nat),
        Json::Object(m) => depth > 0 && m.dom().finite() && forall|k: Seq<char>|
            #[trigger]
            m.dom().contains(k) ==> bounded(m[k], (depth - 1) as nat),
        _ => true,
    }
}

/// Whether two documents, nested at most `depth` deep, are alike but for numbers
/// that are a `Real` in both.
pub open spec fn alike(a: Json, b: Json, depth: nat) -> bool
    decreases depth,
{
    match (a, b) {
        (Json::Real(_), Json::Real(_)) => true,
        (Json::Array(x), Json::Array(y)) => depth > 0 && x.len() == y.len() && forall|i: int|
            0 <= i < x.len() ==> alike(#[trigger] x[i], y[i], (depth - 1) as nat),
        (Json::Object(m), Json::Object(n)) => depth > 0 && m.dom() == n.dom() && forall|
            k: Seq<char>,
        |
            #[trigger]
            m.dom().contains(k) ==> alike(m[k], n[k], (depth - 1) as nat),
        _ => a == b,
    }
}

/// `serde_json::from_slice`: reads the document that `body` writes, or fails
/// where `body` is no JSON text or nests too deep.
#[verifier::external_body]
pub(crate) fn parse(body: &[u8]) -> (r: Result<serde_json::Value, serde_json::Error>)
    ensures
        match parsed_json(body@) {
            Some(doc) => r is Ok && json_of(r->Ok_0) == doc,
            None => r is Err,
        },
        r is Ok ==> bounded(json_of(r->Ok_0), 127),
{
    serde_json::from_slice(body)
}

/// Whether a text reads as a document, but that fractions may be rounded.
pub open spec fn reads_as(body: Seq<u8>, doc: Json) -> bool {
    match parsed_json(body) {
        Some(d) => alike(d, doc, 127) && (plain(doc, 127) ==> d == doc),
        None => false,
    }
}

/// `serde_json::to_vec`: writes the document, which never fails: the names of
/// members are texts, numbers are finite, and there is always room for more. What
/// it wrote reads as the document, but that fractions may be rounded: `from_slice`
/// reads a number by multiplying or dividing its digits by a power of ten. That
/// takes no number with the at most 17 digits that are written beyond the
/// greatest there is.
#[verifier::external_body]
pub(crate) fn render(doc: &serde_json::Value) -> (r: Result<Vec<u8>, serde_json::Error>)
    requires
        bounded(json_of(*doc), 127),
    ensures
        r is Ok,
        r->Ok_0@ == rendered_json(json_of(*doc)),
        reads_as(r->Ok_0@, json_of(*doc)),
{
    serde_json::to_vec(doc)
}

/// `Serializer::collect_map` of `serde`, on a `serde_json::Serializer`: writes
/// an object with these members in this order, which never fails. What it wrote
/// reads as an object of these members, in the way of [`render`].
#[verifier::external_body]
pub(crate) fn render_members(members: &Vec<(String, serde_json::Value)>) -> (r: Result<
    Vec<u8>,
    serde_json::Error,
>)
    requires
        forall|i: int|
            0 <= i < members@.len() ==> bounded(json_of((#[trigger] members@[i]).1), 126),
    ensures
        r is Ok,
        r->Ok_0@ == rendered_members(members_of(members@)),
        forall|m: Map<Seq<char>, Json>| #[trigger]
            listing::object_of(members_of(members@), m) ==> reads_as(r->Ok_0@, Json::Object(m)),
{
    let mut out = Vec::new();
    let mut serializer = serde_json::Serializer::new(&mut out);
    serde::Serializer::collect_map(&mut serializer, members.iter().map(|m| (&m.0, &m.1)))?;
    Ok(out)
}

/// `Value::get` with a name: the member of that name, if the document is an
/// object and has one.
#[verifier::external_body]
pub(crate) fn get<'a>(doc: &'a serde_json::Value, key: &str) -> (r: Option<&'a serde_json::Value>)
    ensures
        match member(json_of(*doc), key@) {
            Some(x) => r is Some && json_of(*r->Some_0) == x,
            None => r is None,
        },
{
    doc.get(key)
}

/// `Value::get_mut` with a name: the member of that name, to be changed in place.
#[verifier::external_body]
pub(crate) fn get_mut<'a>(doc: &'a mut serde_json::Value, key: &str) -> (r: Option<
    &'a mut serde_json::Value,
>)
    ensures
        match r {
            Some(x) => {
                &&& member(json_of(*old(doc)), key@) == Some(json_of(*x))
                &&& json_of(*final(doc)) == Json::Object(
                    json_of(*old(doc))->Object_0.insert(key@, json_of(*final(x))),
                )
            },
            None => {
                &&& member(json_of(*old(doc)), key@) is None
                &&& *final(doc) == *old(doc)
            },
        },
{
    doc.get_mut(key)
}

/// `Value::as_str`: the characters of a text.
#[verifier::external_body]
pub(crate) fn as_str(doc: &serde_json::Value) -> (r: Option<&str>)
    ensures
        match json_of(*doc) {
            Json::Text(s) => r is Some && r->Some_0@ == s,
            _ => r is None,
        },
{
    doc.as_str()
}

/// `Value::as_bool`: the value of a Boolean.
#[verifier::external_body]
pub(crate) fn as_bool(doc: &serde_json::Value) -> (r: Option<bool>)
    ensures
        r == match json_of(*doc) {
            Json::Bool(b) => Some(b),
            _ => None,
        },
{
    doc.as_bool()
}

/// `Value::as_i64`: the value of an integer that 64 signed bits can hold.
#[verifier::external_body]
pub(crate) fn as_i64(doc: &serde_json::Value) -> (r: Option<i64>)
    ensures
        match json_of(*doc) {
            Json::Integer(n) => if i64::MIN <= n <= i64::MAX {
                r == Some(n as i64)
            } else {
                r is None
            },
            _ => r is None,
        },
{
    doc.as_i64()
}

/// `Value::is_null`.
#[verifier::external_body]
pub(crate) fn is_null(doc: &serde_json::Value) -> (r: bool)
    ensures
        r == (json_of(*doc) is Null),
{
    doc.is_null()
}

/// `Value::is_object`.
#[verifier::external_body]
pub(crate) fn is_object(doc: &serde_json::Value) -> (r: bool)
    ensures
        r == (json_of(*doc) is Object),
{
    doc.is_object()
}

/// `Value::as_array`: the elements of an array, in order.
#[verifier::external_body]
pub(crate) fn as_array(doc: &serde_json::Value) -> (r: Option<&Vec<serde_json::Value>>)
    ensures
        match r {
            Some(a) => json_of(*doc) == Json::Array(jsons(a@)),
            None => !(json_of(*doc) is Array),
        },
{
    doc.as_array()
}

/// `Value::as_array_mut`: the elements of an array, to be changed in place.
#[verifier::external_body]
pub(crate) fn as_array_mut(doc: &mut serde_json::Value) -> (r: Option<
    &mut Vec<serde_json::Value>,
>)
    ensures
        match r {
            Some(a) => {
                &&& json_of(*old(doc)) == Json::Array(jsons(a@))
                &&& json_of(*final(doc)) == Json::Array(jsons(final(a)@))
            },
            None => {
                &&& !(json_of(*old(doc)) is Array)
                &&& *final(doc) == *old(doc)
            },
        },
{
    doc.as_array_mut()
}

/// `Map::keys` on the map of an object: the names of its members, in ascending
/// order, since the map is a `BTreeMap`.
#[verifier::external_body]
pub(crate) fn keys(doc: &serde_json::Value) -> (r: Option<Vec<String>>)
    ensures
        match r {
            Some(names) => {
                &&& json_of(*doc) is Object
                &&& order::ascending(text::texts(names@))
                &&& forall|k: Seq<char>|
                    text::texts(names@).contains(k) <==> #[trigger] json_of(
                        *doc,
                    )->Object_0.dom().contains(k)
            },
            None => !(json_of(*doc) is Object),
        },
{
    doc.as_object().map(|m| m.keys().cloned().collect())
}

/// `Map::into_iter` on the map of an object: its members, in ascending order
/// of their names, since the map is a `BTreeMap`.
#[verifier::external_body]
pub(crate) fn into_members(doc: serde_json::Value) -> (r: Option<Vec<(String, serde_json::Value)>>)
    ensures
        match r {
            Some(members) => {
                &&& json_of(doc) is Object
                &&& listing::lists(members_of(members@), json_of(doc)->Object_0)
            },
            None => !(json_of(doc) is Object),
        },
{
    match doc {
        serde_json::Value::Object(map) => Some(map.into_iter().collect()),
        _ => None,
    }
}

/// `Map::from_iter`: an object with the given members.
#[verifier::external_body]
pub(crate) fn from_members(members: Vec<(String, serde_json::Value)>) -> (r: serde_json::Value)
    requires
        order::ascending(listing::firsts(members_of(members@))),
    ensures
        json_of(r) is Object,
        listing::lists(members_of(members@), json_of(r)->Object_0),
{
    serde_json::Value::Object(members.into_iter().collect())
}

/// `Value::String`: a text.
#[verifier::external_body]
pub(crate) fn from_text(s: String) -> (r: serde_json::Value)
    ensures
        json_of(r) == Json::Text(s@),
{
    serde_json::Value::String(s)
}

/// `Map::remove` on the map of an object: takes the member of that name out.
#[verifier::external_body]
pub(crate) fn remove(doc: &mut serde_json::Value, key: &str) -> (r: Option<serde_json::Value>)
    ensures
        match member(json_of(*old(doc)), key@) {
            Some(x) => r is Some && json_of(r->Some_0) == x && json_of(*final(doc)) == Json::Object(
                json_of(*old(doc))->Object_0.remove(key@),
            ),
            None => r is None && *final(doc) == *old(doc),
        },
{
    doc.as_object_mut().and_then(|m| m.remove(key))
}

/// The texts that the members of `doc` are, if `doc` is an object of texts.
pub open spec fn text_map(doc: Json) -> Option<Map<Seq<char>, Seq<char>>> {
    match doc {
        Json::Object(m) => if forall|k: Seq<char>| #[trigger] m.dom().contains(k) ==> m[k] is Text {
            Some(Map::new(|k: Seq<char>| m.dom().contains(k), |k: Seq<char>| m[k]->Text_0))
        } else {
            None
        },
        _ => None,
    }
}

/// The object of these texts.
pub open spec fn text_object(m: Map<Seq<char>, Seq<char>>) -> Json {
    Json::Object(Map::new(|k: Seq<char>| m.dom().contains(k), |k: Seq<char>| Json::Text(m[k])))
}

/// An object of texts holds the texts that it was made of.
pub proof fn lemma_text_object(m: Map<Seq<char>, Seq<char>>)
    ensures
        text_map(text_object(m)) == Some(m),
{
    assert(text_map(text_object(m))->Some_0 =~= m);
}

/// The members of an object of texts, in ascending order of their names.
pub(crate) fn into_texts(doc: serde_json::Value) -> (r: Option<Vec<(String, String)>>)
    ensures
        match text_map(json_of(doc)) {
            Some(m) => {
                &&& r is Some
                &&& order::ascending(listing::firsts(text::pairs(r->Some_0@)))
                &&& listing::map_of(text::pairs(r->Some_0@)) == m
            },
            None => r is None,
        },
{
    let ghost doc_json = json_of(doc);
    match into_members(doc) {
        None => None,
        Some(members) => {
            let ghost all = members_of(members@);
            let ghost o = doc_json->Object_0;
            let mut out: Vec<(String, String)> = Vec::new();
            let mut i: usize = 0;
            while i < members.len()
                invariant
                    i <= members@.len(),
                    out@.len() == i,
                    all == members_of(members@),
                    listing::lists(all, o),
                    doc_json == json_of(doc),
                    doc_json == Json::Object(o),
                    forall|j: int|
                        0 <= j < i ==> all[j].0 == (#[trigger] out@[j]).0@ && all[j].1 == Json::Text(
                            out@[j].1@,
                        ),
                decreases members.len() - i,
            {
                assert(all[i as int] == (members@[i as int].0@, json_of(members@[i as int].1)));
                match as_str(&members[i].1) {
                    Some(s) => {
                        out.push((members[i].0.clone(), s.to_string()));
                    },
                    None => {
                        proof {
                            assert(o.dom().contains(all[i as int].0));
                            assert(!(o[all[i as int].0] is Text));
                        }
                        return None;
                    },
                }
                i += 1;
            }
            proof {
                let pairs = text::pairs(out@);
                listing::lemma_firsts(all);
                listing::lemma_firsts(pairs);
                assert(pairs.len() == all.len());
                assert forall|j: int| 0 <= j < all.len() implies #[trigger] pairs[j].0 == all[j].0
                    && all[j].1 == Json::Text(pairs[j].1) by {
                    assert(all[j].0 == out@[j].0@);
                }
                assert(listing::firsts(pairs) =~= listing::firsts(all));
                assert forall|k: Seq<char>| #[trigger] o.dom().contains(k) implies o[k] is Text by {
                    let j = choose|j: int|
                        0 <= j < listing::firsts(all).len() && listing::firsts(all)[j] == k;
                    assert(all[j].0 == k);
                    assert(pairs[j].0 == all[j].0);
                }
                let m = text_map(doc_json)->Some_0;
                assert forall|j: int| 0 <= j < pairs.len() implies m.dom().contains(
                    (#[trigger] pairs[j]).0,
                ) && m[pairs[j].0] == pairs[j].1 by {
                    assert(o.dom().contains(all[j].0) && o[all[j].0] == all[j].1);
                }
                assert(listing::lists(pairs, m));
                listing::lemma_map_of(pairs);
            }
            Some(out)
        },
    }
}

/// The object of these texts.
pub(crate) fn from_texts(list: &Vec<(String, String)>) -> (r: serde_json::Value)
    requires
        order::ascending(listing::firsts(text::pairs(list@))),
    ensures
        json_of(r) == text_object(listing::map_of(text::pairs(list@))),
{
    let ghost pairs = text::pairs(list@);
    let mut members: Vec<(String, serde_json::Value)> = Vec::new();
    let mut i: usize = 0;
    while i < list.len()
        invariant
            i <= list@.len(),
            members@.len() == i,
            pairs == text::pairs(list@),
            forall|j: int|
                0 <= j < i ==> pairs[j].0 == (#[trigger] members@[j]).0@ && json_of(members@[j].1)
                    == Json::Text(pairs[j].1),
        decreases list.len() - i,
    {
        members.push((list[i].0.clone(), from_text(list[i].1.clone())));
        i += 1;
    }
    let ghost all = members_of(members@);
    proof {
        listing::lemma_firsts(all);
        listing::lemma_firsts(pairs);
        assert forall|j: int| 0 <= j < all.len() implies #[trigger] all[j] == (
            pairs[j].0,
            Json::Text(pairs[j].1),
        ) by {
            assert(pairs[j].0 == members@[j].0@);
        }
        assert(listing::firsts(all) =~= listing::firsts(pairs));
    }
    let r = from_members(members);
    proof {
        let m = listing::map_of(pairs);
        let o = text_object(m)->Object_0;
        listing::lemma_map_of(pairs);
        assert forall|j: int| 0 <= j < all.len() implies o.dom().contains((#[trigger] all[j]).0)
            && o[all[j].0] == all[j].1 by {
            assert(m.dom().contains(pairs[j].0) && m[pairs[j].0] == pairs[j].1);
        }
        assert(listing::lists(all, o));
        listing::lemma_map_of(all);
    }
    r
}

/// A document that is alike another has the same members, alike those of the other.
pub proof fn lemma_alike_member(a: Json, b: Json, depth: nat, key: Seq<char>)
    requires
        alike(a, b, depth),
    ensures
        match (member(a, key), member(b, key)) {
            (Some(x), Some(y)) => depth > 0 && alike(x, y, (depth - 1) as nat),
            (None, None) => true,
            _ => false,
        },
{
    match (a, b) {
        (Json::Object(m), Json::Object(n)) => {
            assert(m.dom().contains(key) == n.dom().contains(key));
        },
        _ => {},
    }
}

/// An object of texts is bounded if it has a finite number of them.
pub proof fn lemma_bounded_texts(texts: Map<Seq<char>, Seq<char>>, depth: nat)
    requires
        texts.dom().finite(),
        depth > 0,
    ensures
        bounded(text_object(texts), depth),
{
    let m = text_object(texts)->Object_0;
    assert(m.dom() =~= texts.dom());
    assert forall|k: Seq<char>| #[trigger] m.dom().contains(k) implies bounded(
        m[k],
        (depth - 1) as nat,
    ) by {
        assert(m[k] is Text);
    }
}

/// A bounded object stays so when it loses members.
pub proof fn lemma_bounded_submap(m: Map<Seq<char>, Json>, n: Map<Seq<char>, Json>, depth: nat)
    requires
        bounded(Json::Object(m), depth),
        n.submap_of(m),
    ensures
        bounded(Json::Object(n), depth),
{
    assert(n.dom().subset_of(m.dom()));
    vstd::set_lib::lemma_len_subset(n.dom(), m.dom());
    assert forall|k: Seq<char>| #[trigger] n.dom().contains(k) implies bounded(
        n[k],
        (depth - 1) as nat,
    ) by {
        assert(m.dom().contains(k) && m[k] == n[k]);
    }
}

/// A bounded object stays so when it gets a bounded member.
pub proof fn lemma_bounded_insert(m: Map<Seq<char>, Json>, key: Seq<char>, doc: Json, depth: nat)
    requires
        depth > 0,
        bounded(Json::Object(m), depth),
        bounded(doc, (depth - 1) as nat),
    ensures
        bounded(Json::Object(m.insert(key, doc)), depth),
{
    let n = m.insert(key, doc);
    assert forall|k: Seq<char>| #[trigger] n.dom().contains(k) implies bounded(
        n[k],
        (depth - 1) as nat,
    ) by {
        if k != key {
            assert(m.dom().contains(k));
        }
    }
}

/// A bounded array stays so when it loses elements.
pub proof fn lemma_bounded_filter(a: Seq<Json>, keep: spec_fn(Json) -> bool, depth: nat)
    requires
        bounded(Json::Array(a), depth),
    ensures
        bounded(Json::Array(a.filter(keep)), depth),
{
    let b = a.filter(keep);
    listing::lemma_filter_has(a, keep);
    assert forall|i: int| 0 <= i < b.len() implies bounded(#[trigger] b[i], (depth - 1) as nat) by {
        assert(b.contains(b[i]));
        assert(a.contains(b[i]));
        let j = choose|j: int| 0 <= j < a.len() && a[j] == b[i];
        assert(Json::Array(a)->Array_0[j] == a[j]);
    }
}

/// An object of texts that is alike another is that other.
pub proof fn lemma_alike_texts(a: Json, texts: Map<Seq<char>, Seq<char>>, depth: nat)
    requires
        alike(a, text_object(texts), depth),
    ensures
        a == text_object(texts),
{
    let m = a->Object_0;
    let n = text_object(texts)->Object_0;
    assert forall|k: Seq<char>| m.dom().contains(k) implies m[k] == n[k] by {
        assert(alike(m[k], n[k], (depth - 1) as nat));
    }
    assert(m =~= n);
}

/// Whether `b` is white space between the parts of a JSON text.
pub open spec fn is_blank(b: u8) -> bool {
    b == 32 || b == 9 || b == 10 || b == 13
}

/// The text without white space at its start.
pub open spec fn skip_blanks(s: Seq<u8>) -> Seq<u8>
    decreases s.len(),
{
    if s.len() > 0 && is_blank(s[0]) {
        skip_blanks(s.drop_first())
    } else {
        s
    }
}

/// A member of an object as it is written: its name, whether it is a text, and
/// the text that writes it.
pub struct Entry {
    pub name: Seq<char>,
    pub is_text: bool,
    pub raw: Seq<u8>,
}

/// The members that a text writes which goes on behind the opening of an object
/// or behind a comma in it, as often as each is written.
pub open spec fn entries_from(s: Seq<u8>) -> Seq<Entry>
    decreases s.len(),
{
    match first_json(s) {
        Some((Json::Text(name), n)) if 0 < n <= s.len() => {
            let colon = skip_blanks(s.skip(n));
            proof {
                lemma_skip_blanks(s.skip(n));
            }
            if colon.len() == 0 {
                seq![]
            } else {
                let value = colon.skip(1);
                match first_json(value) {
                    Some((doc, m)) if 0 < m <= value.len() => {
                        let entry = Entry { name, is_text: doc is Text, raw: value.take(m) };
                        let rest = skip_blanks(value.skip(m));
                        proof {
                            lemma_skip_blanks(value.skip(m));
                        }
                        if rest.len() > 0 && rest[0] == 44 {
                            seq![entry] + entries_from(rest.skip(1))
                        } else {
                            seq![entry]
                        }
                    },
                    _ => seq![],
                }
            }
        },
        _ => seq![],
    }
}

/// The members of the object that a JSON text writes, as often as each is
/// written. There are none where the text writes no object.
pub open spec fn object_entries(body: Seq<u8>) -> Seq<Entry> {
    let s = skip_blanks(body);
    if s.len() > 0 && s[0] == 123 {
        entries_from(s.skip(1))
    } else {
        seq![]
    }
}

/// Taking white space off a text does not make it longer.
pub proof fn lemma_skip_blanks(s: Seq<u8>)
    ensures
        skip_blanks(s).len() <= s.len(),
    decreases s.len(),
{
    if s.len() > 0 && is_blank(s[0]) {
        lemma_skip_blanks(s.drop_first());
    }
}

/// `Deserializer::into_iter`, `StreamDeserializer::next` and
/// `StreamDeserializer::byte_offset`: the first document in a text that may go
/// on behind it, and how many bytes there are up to its end, of which a
/// document takes at least one.
#[verifier::external_body]
fn read_first(body: &[u8]) -> (r: Option<(serde_json::Value, usize)>)
    ensures
        match first_json(body@) {
            Some((doc, n)) => r is Some && json_of(r->Some_0.0) == doc && r->Some_0.1 == n,
            None => r is None,
        },
        r is Some ==> 0 < r->Some_0.1 <= body@.len(),
{
    let mut stream = serde_json::Deserializer::from_slice(body).into_iter::<serde_json::Value>();
    let first = stream.next()?.ok()?;
    Some((first, stream.byte_offset()))
}

/// A member of an object as it is written: its name, whether it is a text, and
/// where the text begins and ends that writes it.
#[derive(Debug, Clone)]
pub struct RawEntry {
    pub name: String,
    pub is_text: bool,
    pub start: usize,
    pub end: usize,
}

/// The members that records of places in a text stand for.
pub open spec fn entry_views(body: Seq<u8>, v: Seq<RawEntry>) -> Seq<Entry> {
    v.map_values(
        |e: RawEntry|
            Entry {
                name: e.name@,
                is_text: e.is_text,
                raw: body.subrange(e.start as int, e.end as int),
            },
    )
}

/// Whether the places lie in a text of this length.
pub open spec fn places_in(len: nat, v: Seq<RawEntry>) -> bool {
    forall|i: int| 0 <= i < v.len() ==> (#[trigger] v[i]).start <= v[i].end <= len
}

fn skip_from(body: &[u8], at: usize) -> (r: usize)
    requires
        at <= body@.len(),
    ensures
        at <= r <= body@.len(),
        body@.skip(r as int) == skip_blanks(body@.skip(at as int)),
{
    let mut i: usize = at;
    while i < body.len() && (body[i] == 32 || body[i] == 9 || body[i] == 10 || body[i] == 13)
        invariant
            at <= i <= body@.len(),
            skip_blanks(body@.skip(at as int)) == skip_blanks(body@.skip(i as int)),
        decreases body.len() - i,
    {
        assert(body@.skip(i as int).drop_first() =~= body@.skip(i + 1));
        i += 1;
    }
    i
}

/// The members of the object that a JSON text writes, as often as each is written.
pub(crate) fn read_entries(body: &[u8]) -> (r: Vec<RawEntry>)
    ensures
        places_in(body@.len(), r@),
        entry_views(body@, r@) == object_entries(body@),
{
    let mut out: Vec<RawEntry> = Vec::new();
    assert(entry_views(body@, out@) =~= seq![]);
    assert(body@.skip(0) =~= body@);
    let open = skip_from(body, 0);
    if open == body.len() || body[open] != 123 {
        return out;
    }
    let ghost all = object_entries(body@);
    let mut at: usize = open + 1;
    assert(body@.skip(open as int).skip(1) =~= body@.skip(at as int));
    assert(entry_views(body@, out@) + entries_from(body@.skip(at as int)) =~= all);
    loop
        invariant
            at <= body@.len(),
            places_in(body@.len(), out@),
            entry_views(body@, out@) + entries_from(body@.skip(at as int)) == all,
            all == object_entries(body@),
        decreases body.len() - at,
    {
        let ghost s = body@.skip(at as int);
        let ghost done = entry_views(body@, out@);
        let rest = slice_subrange(body, at, body.len());
        assert(rest@ =~= s);
        let (name, n) = match read_first(rest) {
            Some((doc, n)) => match as_str(&doc) {
                Some(name) => (name.to_string(), n),
                None => {
                    assert(done + entries_from(s) =~= done);
                    return out;
                },
            },
            None => {
                assert(done + entries_from(s) =~= done);
                return out;
            },
        };
        assert(s.skip(n as int) =~= body@.skip(at + n));
        let colon = skip_from(body, at + n);
        if colon == body.len() {
            assert(done + entries_from(s) =~= done);
            return out;
        }
        let start: usize = colon + 1;
        let ghost value = body@.skip(start as int);
        assert(body@.skip(colon as int).skip(1) =~= value);
        let rest = slice_subrange(body, start, body.len());
        assert(rest@ =~= value);
        let (is_text, m) = match read_first(rest) {
            Some((doc, m)) => (as_str(&doc).is_some(), m),
            None => {
                assert(done + entries_from(s) =~= done);
                return out;
            },
        };
        let end: usize = start + m;
        let ghost entry = Entry { name: name@, is_text, raw: value.take(m as int) };
        assert(body@.subrange(start as int, end as int) =~= value.take(m as int));
        out.push(RawEntry { name, is_text, start, end });
        assert(entry_views(body@, out@) =~= done.push(entry));
        assert(value.skip(m as int) =~= body@.skip(end as int));
        let comma = skip_from(body, end);
        if comma == body.len() || body[comma] != 44 {
            assert(done + entries_from(s) =~= done.push(entry));
            return out;
        }
        at = comma + 1;
        proof {
            assert(body@.skip(comma as int).skip(1) =~= body@.skip(at as int));
            assert(done + entries_from(s) =~= done.push(entry) + entries_from(
                body@.skip(at as int),
            ));
        }
    }
}

} // verus!
