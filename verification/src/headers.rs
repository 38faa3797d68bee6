//! HTTP header maps, held as `http` holds them.
use http::{HeaderMap, HeaderName, HeaderValue};
use vstd::prelude::*;
use vstd::set_lib::lemma_len_subset;
use vstd::utf8::encode_utf8;

verus! {

/// `http::HeaderMap`: header names, each with its values. Opaque to the
/// proofs but for [`header_entries`].
#[verifier::external_type_specification]
#[verifier::external_body]
#[verifier::reject_recursive_types(T)]
pub struct ExHeaderMap<T>(http::HeaderMap<T>);

/// `http::HeaderName`: one header name. Opaque to the proofs but for
/// [`header_name`].
#[verifier::external_type_specification]
#[verifier::external_body]
pub struct ExHeaderName(http::HeaderName);

/// `http::HeaderValue`: one header value. Opaque to the proofs but for
/// [`header_bytes`].
#[verifier::external_type_specification]
#[verifier::external_body]
pub struct ExHeaderValue(http::HeaderValue);

/// What a header map holds: under each name, in lower case, its values in
/// order.
pub uninterp spec fn header_entries(headers: http::HeaderMap<http::HeaderValue>) -> Map<
    Seq<char>,
    Seq<Seq<u8>>,
>;

/// The characters of a header name, in lower case.
pub uninterp spec fn header_name(name: http::HeaderName) -> Seq<char>;

/// The bytes of a header value.
pub uninterp spec fn header_bytes(value: http::HeaderValue) -> Seq<u8>;

/// A header name that is spelt as header maps keep it: lower case letters,
/// digits and hyphens, and not too long.
pub open spec fn is_header_name(name: Seq<char>) -> bool {
    &&& 0 < name.len() <= 64
    &&& forall|i: int|
        0 <= i < name.len() ==> {
            ||| 'a' <= #[trigger] name[i] <= 'z'
            ||| '0' <= name[i] <= '9'
            ||| name[i] == '-'
        }
}

/// Bytes that a header value may hold.
pub open spec fn is_header_value(bytes: Seq<u8>) -> bool {
    forall|i: int|
        0 <= i < bytes.len() ==> (#[trigger] bytes[i] >= 32 && bytes[i] != 127) || bytes[i] == 9
}

/// Bytes that read as text: visible ASCII, spaces and tabs.
pub open spec fn is_visible(bytes: Seq<u8>) -> bool {
    forall|i: int| 0 <= i < bytes.len() ==> 32 <= #[trigger] bytes[i] < 127 || bytes[i] == 9
}

/// ASCII bytes as characters.
pub open spec fn ascii_text(bytes: Seq<u8>) -> Seq<char> {
    bytes.map_values(|byte: u8| byte as char)
}

/// The slots of the largest table that a header map can have.
pub const HEADER_SLOTS: usize = 32768;

/// Whether a header map with these names is sure to take in another. A map
/// may ask for a table twice as large once a fifth of its slots is used, and
/// is full where there is no larger table. With more names than that, it
/// depends on how the map has come about.
pub open spec fn has_room(names: Set<Seq<char>>) -> bool {
    names.finite() && 5 * names.len() < HEADER_SLOTS
}

/// The entries once `value` was put behind the others under `name`.
pub open spec fn with_value(
    entries: Map<Seq<char>, Seq<Seq<u8>>>,
    name: Seq<char>,
    value: Seq<u8>,
) -> Map<Seq<char>, Seq<Seq<u8>>> {
    if entries.contains_key(name) {
        entries.insert(name, entries[name].push(value))
    } else {
        entries.insert(name, seq![value])
    }
}

/// A value with its name; with none, it goes under the name before it.
pub type HeaderEntry = (Option<Seq<char>>, Seq<u8>);

/// A listed entry as a mathematical value.
pub open spec fn entry_view(entry: (Option<HeaderName>, HeaderValue)) -> HeaderEntry {
    (
        match entry.0 {
            Some(name) => Some(header_name(name)),
            None => None,
        },
        header_bytes(entry.1),
    )
}

/// The last name that a list of entries gives.
pub open spec fn last_name(list: Seq<HeaderEntry>) -> Seq<char>
    decreases list.len(),
{
    if list.len() == 0 {
        Seq::empty()
    } else {
        match list.last().0 {
            Some(name) => name,
            None => last_name(list.drop_last()),
        }
    }
}

/// The entries once those of a list were taken in: the first value under a
/// name replaces what was there, the others are put behind it.
pub open spec fn taken_in(
    entries: Map<Seq<char>, Seq<Seq<u8>>>,
    list: Seq<HeaderEntry>,
) -> Map<Seq<char>, Seq<Seq<u8>>>
    decreases list.len(),
{
    if list.len() == 0 {
        entries
    } else {
        let before = taken_in(entries, list.drop_last());
        match list.last().0 {
            Some(name) => before.insert(name, seq![list.last().1]),
            None => with_value(before, last_name(list.drop_last()), list.last().1),
        }
    }
}

/// Whether a list begins with a name and holds these entries.
pub open spec fn lists(
    list: Seq<HeaderEntry>,
    entries: Map<Seq<char>, Seq<Seq<u8>>>,
) -> bool {
    (list.len() > 0 ==> list[0].0 is Some) && taken_in(Map::empty(), list) == entries
}

/// `http::HeaderName::from_static`: the name that is so spelt. The call
/// panics on text that spells none.
#[verifier::external_body]
pub(crate) fn name_of(text: &'static str) -> (name: HeaderName)
    requires
        is_header_name(text@),
    ensures
        header_name(name) == text@,
{
    HeaderName::from_static(text)
}

/// `http::HeaderValue::from_str`: the UTF-8 bytes of the text, where a
/// header value may hold each of them, and nothing otherwise.
#[verifier::external_body]
pub(crate) fn value_of(text: &str) -> (value: Option<HeaderValue>)
    ensures
        match value {
            Some(value) => is_header_value(encode_utf8(text@)) && header_bytes(value)
                == encode_utf8(text@),
            None => !is_header_value(encode_utf8(text@)),
        },
{
    HeaderValue::from_str(text).ok()
}

/// `http::HeaderMap::try_insert`: the value becomes the only one under that
/// name. A map that is full stays as it is; one that has room is not full.
#[verifier::external_body]
pub(crate) fn set_value(headers: &mut HeaderMap, name: &HeaderName, value: HeaderValue) -> (taken:
    bool)
    ensures
        header_entries(*final(headers)) == if taken {
            header_entries(*old(headers)).insert(header_name(*name), seq![header_bytes(value)])
        } else {
            header_entries(*old(headers))
        },
        has_room(header_entries(*old(headers)).dom()) ==> taken,
{
    headers.try_insert(name, value).is_ok()
}

/// `http::HeaderMap::try_append`: the value is put behind the others under
/// that name. A map that is full stays as it is; one that has room is not
/// full.
#[verifier::external_body]
pub(crate) fn add_value(headers: &mut HeaderMap, name: &HeaderName, value: HeaderValue) -> (taken:
    bool)
    ensures
        header_entries(*final(headers)) == if taken {
            with_value(header_entries(*old(headers)), header_name(*name), header_bytes(value))
        } else {
            header_entries(*old(headers))
        },
        has_room(header_entries(*old(headers)).dom()) ==> taken,
{
    headers.try_append(name, value).is_ok()
}

/// The `IntoIterator` of `http::HeaderMap`: the entries of the map, name by
/// name, with the name at the first value of each. The order of the names is
/// left open.
#[verifier::external_body]
pub(crate) fn entry_list(headers: HeaderMap) -> (list: Vec<(Option<HeaderName>, HeaderValue)>)
    ensures
        lists(
            list@.map_values(|entry: (Option<HeaderName>, HeaderValue)| entry_view(entry)),
            header_entries(headers),
        ),
{
    headers.into_iter().collect()
}

/// `http::HeaderMap::get`: the first value under a name.
#[verifier::external_body]
pub(crate) fn first_value<'a>(headers: &'a HeaderMap, name: &str) -> (value: Option<
    &'a HeaderValue,
>)
    requires
        is_header_name(name@),
    ensures
        match value {
            Some(value) => header_entries(*headers).contains_key(name@) && header_entries(
                *headers,
            )[name@].len() > 0 && header_bytes(*value) == header_entries(*headers)[name@][0],
            None => !header_entries(*headers).contains_key(name@),
        },
{
    headers.get(name)
}

/// `http::HeaderValue::to_str`: the value as text, where all of it is
/// visible.
#[verifier::external_body]
pub(crate) fn visible_text(value: &HeaderValue) -> (text: Option<&str>)
    ensures
        match text {
            Some(text) => is_visible(header_bytes(*value)) && text@ == ascii_text(
                header_bytes(*value),
            ),
            None => !is_visible(header_bytes(*value)),
        },
{
    value.to_str().ok()
}

/// The entries once `value` was put under `name`: it is then the only value
/// there. A value that no header can hold changes nothing.
pub open spec fn with_header(
    entries: Map<Seq<char>, Seq<Seq<u8>>>,
    name: Seq<char>,
    value: Seq<char>,
) -> Map<Seq<char>, Seq<Seq<u8>>> {
    if is_header_value(encode_utf8(value)) {
        entries.insert(name, seq![encode_utf8(value)])
    } else {
        entries
    }
}

/// The text of the first value under `name`, where there is one and all of
/// it is visible.
pub open spec fn header_text(
    entries: Map<Seq<char>, Seq<Seq<u8>>>,
    name: Seq<char>,
) -> Option<Seq<char>> {
    if entries.contains_key(name) && is_visible(entries[name][0]) {
        Some(ascii_text(entries[name][0]))
    } else {
        None
    }
}

/// Puts `value` under `name`, where a header can hold it. Says whether the
/// map could take it in: a map that is full stays as it is.
pub fn insert_header(headers: &mut HeaderMap, name: &'static str, value: &str) -> (taken: bool)
    requires
        is_header_name(name@),
    ensures
        header_entries(*final(headers)) == if taken {
            with_header(header_entries(*old(headers)), name@, value@)
        } else {
            header_entries(*old(headers))
        },
        has_room(header_entries(*old(headers)).dom()) || !is_header_value(encode_utf8(value@))
            ==> taken,
{
    match value_of(value) {
        Some(value) => set_value(headers, &name_of(name), value),
        None => true,
    }
}

/// Takes in the entries of another map: under each of its names, its values
/// replace what was there. Says whether the map could take all of them in.
pub fn extend_headers(headers: &mut HeaderMap, more: HeaderMap) -> (taken: bool)
    ensures
        taken ==> header_entries(*final(headers)) == header_entries(
            *old(headers),
        ).union_prefer_right(header_entries(more)),
        has_room(header_entries(*old(headers)).dom() + header_entries(more).dom()) ==> taken,
{
    let ghost before = header_entries(*headers);
    let ghost names = before.dom() + header_entries(more).dom();
    let list = entry_list(more);
    let ghost view = list@.map_values(
        |entry: (Option<HeaderName>, HeaderValue)| entry_view(entry),
    );
    let mut current: Option<HeaderName> = None;
    assert(view.take(0) =~= Seq::empty());
    for entry in it: list
        invariant
            it.seq() == list@,
            view == list@.map_values(
                |entry: (Option<HeaderName>, HeaderValue)| entry_view(entry),
            ),
            before == header_entries(*old(headers)),
            names == before.dom() + header_entries(more).dom(),
            taken_in(Map::empty(), view) == header_entries(more),
            view.len() > 0 ==> view[0].0 is Some,
            header_entries(*headers) == taken_in(before, view.take(it.index() as int)),
            it.index() > 0 ==> current is Some && header_name(current->0) == last_name(
                view.take(it.index() as int),
            ),
    {
        let ghost seen = view.take(it.index() as int);
        assert(view[it.index() as int] == entry_view(entry));
        assert(view.take(it.index() + 1).drop_last() =~= seen);
        assert(view.take(it.index() + 1).last() == entry_view(entry));
        proof {
            lemma_taken_in(before, seen);
            lemma_names_stay(view, it.index() as int);
            if has_room(names) {
                assert(header_entries(*headers).dom().subset_of(names));
                lemma_len_subset(header_entries(*headers).dom(), names);
            }
        }
        let (name, value) = entry;
        let taken = match name {
            Some(name) => {
                let taken = set_value(headers, &name, value);
                current = Some(name);
                taken
            },
            None => match &current {
                Some(name) => add_value(headers, name, value),
                None => true,
            },
        };
        if !taken {
            return false;
        }
    }
    proof {
        assert(view.take(view.len() as int) =~= view);
        lemma_taken_in(before, view);
    }
    true
}

/// A list that is taken in behind other entries replaces what they hold
/// under its names, and leaves the rest.
proof fn lemma_taken_in(entries: Map<Seq<char>, Seq<Seq<u8>>>, list: Seq<HeaderEntry>)
    requires
        list.len() > 0 ==> list[0].0 is Some,
    ensures
        taken_in(entries, list) == entries.union_prefer_right(taken_in(Map::empty(), list)),
        list.len() > 0 ==> taken_in(Map::empty(), list).contains_key(last_name(list)),
    decreases list.len(),
{
    let alone = taken_in(Map::empty(), list);
    if list.len() > 0 {
        let shorter = list.drop_last();
        assert(shorter.len() > 0 ==> shorter[0] == list[0]);
        assert(shorter.len() == 0 ==> list.last() == list[0]);
        lemma_taken_in(entries, shorter);
    }
    assert(taken_in(entries, list) =~= entries.union_prefer_right(alone));
}

/// The names that the first entries of a list give are among its names.
proof fn lemma_names_stay(list: Seq<HeaderEntry>, taken: int)
    requires
        0 <= taken <= list.len(),
    ensures
        taken_in(Map::empty(), list.take(taken)).dom().subset_of(
            taken_in(Map::empty(), list).dom(),
        ),
    decreases list.len(),
{
    if taken == list.len() {
        assert(list.take(taken) =~= list);
    } else {
        assert(list.drop_last().take(taken) =~= list.take(taken));
        lemma_names_stay(list.drop_last(), taken);
    }
}

/// The identifier under which the server knows the request, where its answer
/// bears one.
pub open spec fn request_id_in(entries: Map<Seq<char>, Seq<Seq<u8>>>) -> Option<Seq<char>> {
    header_text(entries, "x-request-id"@)
}

/// The identifier under which the server knows the request: the header
/// `x-request-id` of its answer.
pub fn upstream_request_id(headers: &HeaderMap) -> (id: Option<String>)
    ensures
        id.deep_view() == header_text(header_entries(*headers), "x-request-id"@),
        id.deep_view() == request_id_in(header_entries(*headers)),
{
    proof {
        reveal_strlit("x-request-id");
    }
    match first_value(headers, "x-request-id") {
        Some(value) => match visible_text(value) {
            Some(text) => Some(text.to_string()),
            None => None,
        },
        None => None,
    }
}

} // verus!
