//! HTTP headers.
//!
//! Headers are held by the `http` crate. The verified code speaks of the lines
//! that a header map holds: the values of each header, in order, under the
//! header's name in lower case.
use http::{HeaderMap, HeaderValue};
use vstd::prelude::*;

verus! {

/// `http::HeaderMap`, the headers of a request or a response.
#[verifier::external_type_specification]
#[verifier::external_body]
#[verifier::reject_recursive_types(T)]
pub struct ExHeaderMap<T>(http::HeaderMap<T>);

/// `http::HeaderValue`, one value of a header.
#[verifier::external_type_specification]
#[verifier::external_body]
pub struct ExHeaderValue(http::HeaderValue);

/// What a `http::HeaderMap` holds: under each name, in lower case, the octets of
/// its values in the order in which they were added.
pub uninterp spec fn header_lines(headers: http::HeaderMap) -> Map<Seq<char>, Seq<Seq<u8>>>;

/// The octets that a `http::HeaderValue` holds.
pub uninterp spec fn header_octets(value: http::HeaderValue) -> Seq<u8>;

/// Whether a string is a short header name in lower case.
pub open spec fn is_lower_header_name(name: Seq<char>) -> bool {
    &&& 0 < name.len() <= 64
    &&& forall|i: int|
        0 <= i < name.len() ==> 'a' <= #[trigger] name[i] <= 'z' || '0' <= name[i] <= '9' || name[i]
            == '-'
}

/// The first value of a header, if it has one.
pub open spec fn first_value(lines: Map<Seq<char>, Seq<Seq<u8>>>, name: Seq<char>) -> Option<
    Seq<u8>,
> {
    if lines.contains_key(name) && lines[name].len() > 0 {
        Some(lines[name][0])
    } else {
        None
    }
}

/// Whether all octets are visible ASCII, blanks or tabs.
pub open spec fn is_visible(octets: Seq<u8>) -> bool {
    forall|i: int|
        0 <= i < octets.len() ==> 32 <= #[trigger] octets[i] < 127 || octets[i] == 9
}

/// The characters of ASCII octets.
pub open spec fn ascii_text(octets: Seq<u8>) -> Seq<char> {
    octets.map_values(|octet: u8| octet as char)
}

/// The text of a header: of its first value, where that is visible.
pub open spec fn header_text(lines: Map<Seq<char>, Seq<Seq<u8>>>, name: Seq<char>) -> Option<
    Seq<char>,
> {
    match first_value(lines, name) {
        Some(octets) => if is_visible(octets) {
            Some(ascii_text(octets))
        } else {
            None
        },
        None => None,
    }
}

/// Calls `HeaderMap::get`: the first value under a name, if there is one.
#[verifier::external_body]
fn first_header<'a>(headers: &'a HeaderMap, name: &str) -> (r: Option<&'a HeaderValue>)
    requires
        is_lower_header_name(name@),
    ensures
        first_value(header_lines(*headers), name@) == (match r {
            Some(value) => Some(header_octets(*value)),
            None => None,
        }),
{
    headers.get(name)
}

/// Calls `HeaderValue::to_str`: the value as text, where all of it is visible.
#[verifier::external_body]
fn visible_text(value: &HeaderValue) -> (r: Option<&str>)
    ensures
        r is Some <==> is_visible(header_octets(*value)),
        r is Some ==> r->0@ == ascii_text(header_octets(*value)),
{
    value.to_str().ok()
}

/// Headers without any line.
pub open spec fn no_lines() -> Map<Seq<char>, Seq<Seq<u8>>> {
    Map::empty()
}

/// Calls `HeaderMap::new`: headers without any line.
#[verifier::external_body]
pub(crate) fn no_headers() -> (r: HeaderMap)
    ensures
        header_lines(r) == no_lines(),
{
    HeaderMap::new()
}

/// Whether all characters are visible ASCII, blanks or tabs.
pub open spec fn is_visible_text(text: Seq<char>) -> bool {
    forall|i: int| 0 <= i < text.len() ==> ' ' <= #[trigger] text[i] <= '~' || text[i] == '\t'
}

/// The octets of ASCII characters.
pub open spec fn ascii_octets(text: Seq<char>) -> Seq<u8> {
    text.map_values(|c: char| c as u8)
}

/// Calls `HeaderValue::from_static`, which takes the octets of the text.
#[verifier::external_body]
fn static_value(text: &'static str) -> (r: HeaderValue)
    requires
        is_visible_text(text@),
    ensures
        header_octets(r) == ascii_octets(text@),
{
    HeaderValue::from_static(text)
}

/// Calls `HeaderMap::try_insert`: the header then has this value alone, and no other
/// header changes. Where the map has no room left nothing changes; a map of up to
/// 4096 names has room. What decides beyond that is how much the map has allocated,
/// and is not stated.
#[verifier::external_body]
fn insert_header(headers: &mut HeaderMap, name: &'static str, value: HeaderValue) -> (r: bool)
    requires
        is_lower_header_name(name@),
    ensures
        header_lines(*final(headers)) == (if r {
            header_lines(*old(headers)).insert(name@, seq![header_octets(value)])
        } else {
            header_lines(*old(headers))
        }),
        header_lines(*old(headers)).dom().finite() && header_lines(*old(headers)).dom().len()
            <= 4096 ==> r,
{
    headers.try_insert(name, value).is_ok()
}

/// Gives a header one value in place of those it has. Tells whether there was room.
pub fn set_header(headers: &mut HeaderMap, name: &'static str, text: &'static str) -> (r: bool)
    requires
        is_lower_header_name(name@),
        is_visible_text(text@),
    ensures
        header_lines(*final(headers)) == (if r {
            header_lines(*old(headers)).insert(name@, seq![ascii_octets(text@)])
        } else {
            header_lines(*old(headers))
        }),
        header_lines(*old(headers)).dom().finite() && header_lines(*old(headers)).dom().len()
            <= 4096 ==> r,
{
    insert_header(headers, name, static_value(text))
}

/// The text of a header, where it has a first value and all of that is visible.
pub fn text_header<'a>(headers: &'a HeaderMap, name: &str) -> (r: Option<&'a str>)
    requires
        is_lower_header_name(name@),
    ensures
        header_text(header_lines(*headers), name@) == (match r {
            Some(text) => Some(text@),
            None => None,
        }),
{
    match first_header(headers, name) {
        Some(value) => visible_text(value),
        None => None,
    }
}

/// A header reads as its first value, character by character, where it has one and all of
/// that is visible.
pub proof fn headers_read_as_their_first_value(
    lines: Map<Seq<char>, Seq<Seq<u8>>>,
    name: Seq<char>,
)
    ensures
        header_text(lines, name) is Some <==> lines.contains_key(name) && lines[name].len() > 0
            && forall|i: int|
            0 <= i < lines[name][0].len() ==> 32 <= #[trigger] lines[name][0][i] <= 126
                || lines[name][0][i] == 9,
        header_text(lines, name) matches Some(text) ==> text.len() == lines[name][0].len()
            && forall|i: int| 0 <= i < text.len() ==> #[trigger] text[i] == lines[name][0][i] as char,
{
}

} // verus!
