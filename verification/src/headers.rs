//! HTTP header fields, which `http` holds.
//!
//! Contracts speak of a header map as a map from field names, in small
//! letters, to the values of that field in the order in which they stand.

use vstd::prelude::*;
use vstd::string::*;

verus! {

/// A multimap of header fields.
#[verifier::external_type_specification]
#[verifier::external_body]
#[verifier::reject_recursive_types(T)]
pub struct ExHeaderMap<T>(http::HeaderMap<T>);

/// The value of a header field.
#[verifier::external_type_specification]
#[verifier::external_body]
pub struct ExHeaderValue(http::HeaderValue);

/// Why a text cannot be the value of a header field.
#[verifier::external_type_specification]
#[verifier::external_body]
pub struct ExInvalidHeaderValue(http::header::InvalidHeaderValue);

/// The fields that a header map holds.
pub uninterp spec fn fields_of(headers: http::HeaderMap<http::HeaderValue>) -> Map<
    Seq<char>,
    Seq<Seq<u8>>,
>;

/// The bytes of a header value.
pub uninterp spec fn value_bytes(value: http::HeaderValue) -> Seq<u8>;

/// The number of field names below which a header map always has room for one more.
pub const MAX_NAMES: usize = 6554;

/// Whether `c` may stand in a field name written in small letters.
pub open spec fn is_name_char(c: char) -> bool {
    'a' <= c <= 'z' || '0' <= c <= '9' || c == '-'
}

/// Whether `name` is a field name of small letters, digits and hyphens.
pub open spec fn is_name(name: Seq<char>) -> bool {
    0 < name.len() <= 64 && forall|i: int| 0 <= i < name.len() ==> is_name_char(#[trigger] name[i])
}

/// Whether `b` may stand in a field value.
pub open spec fn is_value_byte(b: u8) -> bool {
    b == 9 || (b >= 32 && b != 127)
}

/// Whether `b` is a visible ASCII character, a space or a tab.
pub open spec fn is_visible(b: u8) -> bool {
    b == 9 || 32 <= b < 127
}

/// The text that visible ASCII bytes write.
pub open spec fn visible_text(bytes: Seq<u8>) -> Option<Seq<char>> {
    if forall|i: int| 0 <= i < bytes.len() ==> is_visible(#[trigger] bytes[i]) {
        Some(bytes.map_values(|b: u8| b as char))
    } else {
        None
    }
}

/// No fields at all.
pub open spec fn no_fields() -> Map<Seq<char>, Seq<Seq<u8>>> {
    Map::empty()
}

/// The first value of the field `name`, if there is one and it is visible ASCII.
pub open spec fn field_text(fields: Map<Seq<char>, Seq<Seq<u8>>>, name: Seq<char>) -> Option<
    Seq<char>,
> {
    if fields.dom().contains(name) {
        visible_text(fields[name][0])
    } else {
        None
    }
}

/// `HeaderMap::new`: a map without fields.
#[verifier::external_body]
pub(crate) fn empty() -> (r: http::HeaderMap<http::HeaderValue>)
    ensures
        fields_of(r) == no_fields(),
{
    http::HeaderMap::new()
}

/// `HeaderMap::get`: the first value of the field.
#[verifier::external_body]
fn get<'a>(headers: &'a http::HeaderMap<http::HeaderValue>, name: &str) -> (r: Option<
    &'a http::HeaderValue,
>)
    requires
        is_name(name@),
    ensures
        match r {
            Some(v) => {
                &&& fields_of(*headers).dom().contains(name@)
                &&& value_bytes(*v) == fields_of(*headers)[name@][0]
            },
            None => !fields_of(*headers).dom().contains(name@),
        },
{
    headers.get(name)
}

/// `HeaderValue::to_str`: the text of a value that is visible ASCII.
#[verifier::external_body]
fn to_str(value: &http::HeaderValue) -> (r: Option<&str>)
    ensures
        match visible_text(value_bytes(*value)) {
            Some(s) => r is Some && r->Some_0@ == s,
            None => r is None,
        },
{
    value.to_str().ok()
}

/// `HeaderValue::from_str`: a value of the bytes of `s`, unless one of them
/// may not stand in a value.
#[verifier::external_body]
pub(crate) fn value_from(s: &str) -> (r: Result<
    http::HeaderValue,
    http::header::InvalidHeaderValue,
>)
    ensures
        match r {
            Ok(v) => value_bytes(v) == s.spec_bytes(),
            Err(_) => true,
        },
        r is Ok <==> forall|i: int|
            0 <= i < s.spec_bytes().len() ==> is_value_byte(#[trigger] s.spec_bytes()[i]),
{
    http::HeaderValue::from_str(s)
}

/// `HeaderMap::insert`: makes `value` the one value of the field. The map
/// panics when it cannot grow, which it never has to below `MAX_NAMES` names.
#[verifier::external_body]
pub(crate) fn insert(
    headers: &mut http::HeaderMap<http::HeaderValue>,
    name: &'static str,
    value: http::HeaderValue,
)
    requires
        is_name(name@),
        fields_of(*old(headers)).len() < MAX_NAMES,
    ensures
        fields_of(*final(headers)) == fields_of(*old(headers)).insert(
            name@,
            seq![value_bytes(value)],
        ),
{
    headers.insert(name, value);
}

/// `HeaderMap::remove`: takes all values of the field out.
#[verifier::external_body]
pub(crate) fn remove(headers: &mut http::HeaderMap<http::HeaderValue>, name: &str)
    requires
        is_name(name@),
    ensures
        fields_of(*final(headers)) == fields_of(*old(headers)).remove(name@),
{
    headers.remove(name);
}

/// The first value of the field `name`, if there is one and it is visible ASCII.
pub fn field<'a>(headers: &'a http::HeaderMap<http::HeaderValue>, name: &str) -> (r: Option<&'a str>)
    requires
        is_name(name@),
    ensures
        match field_text(fields_of(*headers), name@) {
            Some(s) => r is Some && r->Some_0@ == s,
            None => r is None,
        },
{
    match get(headers, name) {
        Some(value) => to_str(value),
        None => None,
    }
}

} // verus!
