//! Splitting JSON text into the members of an object or the elements of an array.
//!
//! `serde_json` says where a value ends and what a string holds. What is done here is to step
//! from one member to the next, because every member counts: a map type would keep only one of
//! two members that share a key.

use vstd::prelude::*;

verus! {

/// A space.
pub const SPACE: u8 = 0x20;

/// A line feed.
pub const NEWLINE: u8 = 0x0a;

/// A horizontal tab.
pub const TAB: u8 = 0x09;

/// A carriage return.
pub const RETURN: u8 = 0x0d;

/// The byte that an object starts with.
pub const BRACE_OPEN: u8 = 0x7b;

/// The byte that an object ends with.
pub const BRACE_CLOSE: u8 = 0x7d;

/// The byte that an array starts with.
pub const BRACKET_OPEN: u8 = 0x5b;

/// The byte that an array ends with.
pub const BRACKET_CLOSE: u8 = 0x5d;

/// The byte between a key and its value.
pub const COLON: u8 = 0x3a;

/// The byte between two members.
pub const COMMA: u8 = 0x2c;

/// Where the first JSON value of `text` ends, as `serde_json`'s stream deserializer reports it
/// for text that may go on after the value.
pub uninterp spec fn json_value_end(text: Seq<u8>) -> Option<usize>;

/// What `serde_json` reads from `text` as a string.
pub uninterp spec fn json_string(text: Seq<u8>) -> Option<Seq<char>>;

/// Calls `serde_json::StreamDeserializer::next`, for `serde::de::IgnoredAny`, on `text`, and
/// gives back the `byte_offset` that it has then reached. `None` if no value was read: the text
/// is blank, is no JSON, or a number or word in it runs on into something else.
///
/// Trusted: the offset depends on the bytes alone; it lies behind at least one byte, and not
/// behind the end of the text.
#[verifier::external_body]
fn value_end(text: &[u8]) -> (end: Option<usize>)
    ensures
        end == json_value_end(text@),
        end matches Some(n) ==> 0 < n <= text@.len(),
{
    let mut values = serde_json::Deserializer::from_slice(text).into_iter::<serde::de::IgnoredAny>();
    match values.next() {
        Some(Ok(_)) => Some(values.byte_offset()),
        Some(Err(_)) => None,
        None => None,
    }
}

/// Calls `serde_json::from_slice` for a `String`. `None` if the text is not one JSON string, or
/// holds an escape that stands for no character.
///
/// Trusted: the result depends on the bytes alone.
#[verifier::external_body]
pub(crate) fn string(text: &[u8]) -> (value: Option<String>)
    ensures
        value matches Some(s) ==> json_string(text@) == Some(s@),
        value is None ==> json_string(text@) is None,
{
    serde_json::from_slice::<String>(text).ok()
}

/// The bytes of the JSON value `null`.
pub open spec fn null_text() -> Seq<u8> {
    seq![0x6e, 0x75, 0x6c, 0x6c]
}

/// The bytes that JSON allows between tokens.
pub open spec fn is_blank(byte: u8) -> bool {
    byte == SPACE || byte == NEWLINE || byte == TAB || byte == RETURN
}

/// `text` from its first byte on that is not blank.
pub open spec fn trimmed(text: Seq<u8>) -> Seq<u8>
    decreases text.len(),
{
    if text.len() > 0 && is_blank(text[0]) {
        trimmed(text.skip(1))
    } else {
        text
    }
}

/// Nothing but `bracket` is left of `rest`.
pub open spec fn closes_with(rest: Seq<u8>, bracket: u8) -> bool {
    rest.len() > 0 && rest[0] == bracket && trimmed(rest.skip(1)).len() == 0
}

/// The text of the first value of `text`, and what follows it.
pub open spec fn split_value(text: Seq<u8>) -> Option<(Seq<u8>, Seq<u8>)> {
    let start = trimmed(text);
    match json_value_end(start) {
        Some(n) => if 0 < n <= start.len() {
            Some((start.take(n as int), trimmed(start.skip(n as int))))
        } else {
            None
        },
        None => None,
    }
}

/// The first member of `text`, which starts with a key: the text of the key, the text of the
/// value, and what follows it.
pub open spec fn split_member(text: Seq<u8>) -> Option<(Seq<u8>, Seq<u8>, Seq<u8>)> {
    match split_value(text) {
        Some((key, after_key)) => match split_value(after_key.skip(1)) {
            Some((value, rest)) => if after_key.len() > 0 && after_key[0] == COLON {
                Some((key, value, rest))
            } else {
                None
            },
            None => None,
        },
        None => None,
    }
}

/// The members of `text`: one or more, up to the closing brace.
pub open spec fn members_from(text: Seq<u8>) -> Option<Seq<(Seq<u8>, Seq<u8>)>>
    decreases text.len(),
{
    match split_member(text) {
        Some((key, value, rest)) => {
            if closes_with(rest, BRACE_CLOSE) {
                Some(seq![(key, value)])
            } else if rest.len() > 0 && rest[0] == COMMA {
                proof {
                    lemma_member_is_consumed(text);
                }
                match members_from(rest.skip(1)) {
                    Some(others) => Some(seq![(key, value)] + others),
                    None => None,
                }
            } else {
                None
            }
        },
        None => None,
    }
}

/// The members of the JSON object `text`, in order, each with the text of its key and the text
/// of its value. `None` if `text` is not an object.
pub open spec fn raw_members_of(text: Seq<u8>) -> Option<Seq<(Seq<u8>, Seq<u8>)>> {
    let start = trimmed(text);
    if start.len() == 0 || start[0] != BRACE_OPEN {
        None
    } else {
        let body = trimmed(start.skip(1));
        if closes_with(body, BRACE_CLOSE) {
            Some(Seq::empty())
        } else {
            members_from(body)
        }
    }
}

/// The text of each key is that of a string.
pub open spec fn keys_decode(members: Seq<(Seq<u8>, Seq<u8>)>) -> bool {
    forall|i: int| 0 <= i < members.len() ==> json_string((#[trigger] members[i]).0) is Some
}

/// The members with their keys decoded.
pub open spec fn decoded(members: Seq<(Seq<u8>, Seq<u8>)>) -> Seq<(Seq<char>, Seq<u8>)> {
    members.map_values(|m: (Seq<u8>, Seq<u8>)| (json_string(m.0).unwrap(), m.1))
}

/// The members of the JSON object `text`, in order, each with its key and the text of its
/// value. A key that occurs twice is listed twice. `None` if `text` is not an object, or has a
/// key that holds an escape that stands for no character.
pub open spec fn members_of(text: Seq<u8>) -> Option<Seq<(Seq<char>, Seq<u8>)>> {
    match raw_members_of(text) {
        Some(members) => if keys_decode(members) {
            Some(decoded(members))
        } else {
            None
        },
        None => None,
    }
}

/// The elements of `text`: one or more, up to the closing bracket.
pub open spec fn elements_from(text: Seq<u8>) -> Option<Seq<Seq<u8>>>
    decreases text.len(),
{
    match split_value(text) {
        Some((value, rest)) => {
            if closes_with(rest, BRACKET_CLOSE) {
                Some(seq![value])
            } else if rest.len() > 0 && rest[0] == COMMA {
                proof {
                    lemma_value_is_consumed(text);
                }
                match elements_from(rest.skip(1)) {
                    Some(others) => Some(seq![value] + others),
                    None => None,
                }
            } else {
                None
            }
        },
        None => None,
    }
}

/// The texts of the elements of the JSON array `text`, in order. `None` if `text` is not an
/// array.
pub open spec fn elements_of(text: Seq<u8>) -> Option<Seq<Seq<u8>>> {
    let start = trimmed(text);
    if start.len() == 0 || start[0] != BRACKET_OPEN {
        None
    } else {
        let body = trimmed(start.skip(1));
        if closes_with(body, BRACKET_CLOSE) {
            Some(Seq::empty())
        } else {
            elements_from(body)
        }
    }
}

/// A member of a JSON object, with its key as it is written.
#[derive(Debug, Clone, Copy)]
pub struct RawMember<'a> {
    /// The JSON text of the key.
    pub key: &'a [u8],
    /// The JSON text of the value.
    pub value: &'a [u8],
}

impl<'a> View for RawMember<'a> {
    type V = (Seq<u8>, Seq<u8>);

    open spec fn view(&self) -> (Seq<u8>, Seq<u8>) {
        (self.key@, self.value@)
    }
}

/// What a list of members stands for.
pub open spec fn raw_views(members: Seq<RawMember<'_>>) -> Seq<(Seq<u8>, Seq<u8>)> {
    members.map_values(|m: RawMember<'_>| m@)
}

/// The texts that a list of slices holds.
pub open spec fn texts(slices: Seq<&[u8]>) -> Seq<Seq<u8>> {
    slices.map_values(|s: &[u8]| s@)
}

/// A member of a JSON object.
#[derive(Debug)]
pub struct Member<'a> {
    /// The key, with its escapes resolved.
    pub key: String,
    /// The JSON text of the value.
    pub value: &'a [u8],
}

impl<'a> View for Member<'a> {
    type V = (Seq<char>, Seq<u8>);

    open spec fn view(&self) -> (Seq<char>, Seq<u8>) {
        (self.key@, self.value@)
    }
}

/// What a list of members stands for.
pub open spec fn views(members: Seq<Member<'_>>) -> Seq<(Seq<char>, Seq<u8>)> {
    members.map_values(|m: Member<'_>| m@)
}

/// `tail`, if there is one, behind `head`.
spec fn prepended<T>(head: Seq<T>, tail: Option<Seq<T>>) -> Option<Seq<T>> {
    match tail {
        Some(others) => Some(head + others),
        None => None,
    }
}

/// Dropping blanks makes a text no longer.
pub proof fn lemma_trimmed_is_no_longer(text: Seq<u8>)
    ensures
        trimmed(text).len() <= text.len(),
    decreases text.len(),
{
    if text.len() > 0 && is_blank(text[0]) {
        lemma_trimmed_is_no_longer(text.skip(1));
    }
}

/// A value and what follows it are no longer than the text that starts with them.
pub proof fn lemma_value_is_consumed(text: Seq<u8>)
    ensures
        split_value(text) matches Some((value, rest)) ==> 0 < value.len() && value.len() + rest.len()
            <= text.len(),
{
    lemma_trimmed_is_no_longer(text);
    if let Some(n) = json_value_end(trimmed(text)) {
        lemma_trimmed_is_no_longer(trimmed(text).skip(n as int));
    }
}

/// The value of a member and what follows it are shorter than the text that starts with them.
pub proof fn lemma_member_is_consumed(text: Seq<u8>)
    ensures
        split_member(text) matches Some((key, value, rest)) ==> value.len() + rest.len() < text.len(),
{
    lemma_value_is_consumed(text);
    if let Some((key, after_key)) = split_value(text) {
        lemma_value_is_consumed(after_key.skip(1));
    }
}

/// Drops the blank bytes that `text` starts with.
pub fn trim_start(text: &[u8]) -> (rest: &[u8])
    ensures
        rest@ == trimmed(text@),
{
    let mut i: usize = 0;
    assert(text@.skip(0) =~= text@);
    while i < text.len() && (text[i] == SPACE || text[i] == NEWLINE || text[i] == TAB || text[i]
        == RETURN)
        invariant
            i <= text@.len(),
            trimmed(text@) == trimmed(text@.skip(i as int)),
        decreases text@.len() - i,
    {
        assert(text@.skip(i as int).skip(1) =~= text@.skip(i + 1));
        i = i + 1;
    }
    text.split_at(i).1
}

fn closes(rest: &[u8], bracket: u8) -> (yes: bool)
    ensures
        yes == closes_with(rest@, bracket),
{
    if rest.len() > 0 && rest[0] == bracket {
        trim_start(rest.split_at(1).1).len() == 0
    } else {
        false
    }
}

fn first_value(text: &[u8]) -> (split: Option<(&[u8], &[u8])>)
    ensures
        split matches Some((value, rest)) ==> split_value(text@) == Some((value@, rest@)),
        split is None ==> split_value(text@) is None,
{
    let start = trim_start(text);
    match value_end(start) {
        Some(n) => {
            let (value, rest) = start.split_at(n);
            Some((value, trim_start(rest)))
        },
        None => None,
    }
}

fn first_member<'a>(text: &'a [u8]) -> (split: Option<(RawMember<'a>, &'a [u8])>)
    ensures
        split matches Some((member, rest)) ==> split_member(text@) == Some((member@.0, member@.1, rest@)),
        split is None ==> split_member(text@) is None,
{
    let (key, after_key) = match first_value(text) {
        Some(split) => split,
        None => return None,
    };
    if after_key.len() == 0 || after_key[0] != COLON {
        return None;
    }
    match first_value(after_key.split_at(1).1) {
        Some((value, rest)) => Some((RawMember { key, value }, rest)),
        None => None,
    }
}

/// Lists the members of the JSON object `text`, in order, with their keys as they are written.
/// `None` if `text` is not an object.
pub fn raw_object_members<'a>(text: &'a [u8]) -> (members: Option<Vec<RawMember<'a>>>)
    ensures
        members matches Some(list) ==> raw_members_of(text@) == Some(raw_views(list@)),
        members is None ==> raw_members_of(text@) is None,
{
    let start = trim_start(text);
    if start.len() == 0 || start[0] != BRACE_OPEN {
        return None;
    }
    let body = trim_start(start.split_at(1).1);
    let mut members: Vec<RawMember<'a>> = Vec::new();
    if closes(body, BRACE_CLOSE) {
        assert(raw_views(members@) =~= Seq::empty());
        return Some(members);
    }
    let mut todo: &'a [u8] = body;
    loop
        invariant
            members_from(body@) == prepended(raw_views(members@), members_from(todo@)),
            raw_members_of(text@) == members_from(body@),
        decreases todo@.len(),
    {
        let ghost before = raw_views(members@);
        let (member, rest) = match first_member(todo) {
            Some(split) => split,
            None => return None,
        };
        let ghost pair = member@;
        members.push(member);
        assert(raw_views(members@) =~= before.push(pair));
        if closes(rest, BRACE_CLOSE) {
            assert(raw_views(members@) =~= before + seq![pair]);
            return Some(members);
        }
        if rest.len() == 0 || rest[0] != COMMA {
            return None;
        }
        proof {
            lemma_member_is_consumed(todo@);
            if let Some(others) = members_from(rest@.skip(1)) {
                assert(before + (seq![pair] + others) =~= before.push(pair) + others);
            }
        }
        todo = rest.split_at(1).1;
    }
}

/// Lists the members of the JSON object `text`, in order; a key that occurs twice is listed
/// twice. `None` if `text` is not an object, or has a key that cannot be decoded.
pub fn object_members<'a>(text: &'a [u8]) -> (members: Option<Vec<Member<'a>>>)
    ensures
        members matches Some(list) ==> members_of(text@) == Some(views(list@)),
        members is None ==> members_of(text@) is None,
{
    let raw = match raw_object_members(text) {
        Some(raw) => raw,
        None => return None,
    };
    let ghost all = raw_views(raw@);
    let mut members: Vec<Member<'a>> = Vec::new();
    for i in 0..raw.len()
        invariant
            all == raw_views(raw@),
            raw_members_of(text@) == Some(all),
            keys_decode(all.take(i as int)),
            views(members@) == decoded(all.take(i as int)),
    {
        let member: RawMember<'a> = raw[i];
        assert(all[i as int] == member@);
        match string(member.key) {
            Some(key) => {
                let ghost before = views(members@);
                members.push(Member { key, value: member.value });
                assert(all.take(i + 1) =~= all.take(i as int).push(all[i as int]));
                assert(views(members@) =~= before.push((key@, member.value@)));
                assert(decoded(all.take(i + 1)) =~= before.push((key@, member.value@)));
            },
            None => return None,
        }
    }
    assert(all.take(raw.len() as int) =~= all);
    Some(members)
}

/// Lists the elements of the JSON array `text`, in order. `None` if `text` is not an array.
pub fn array_elements<'a>(text: &'a [u8]) -> (elements: Option<Vec<&'a [u8]>>)
    ensures
        elements matches Some(list) ==> elements_of(text@) == Some(texts(list@)),
        elements is None ==> elements_of(text@) is None,
{
    let start = trim_start(text);
    if start.len() == 0 || start[0] != BRACKET_OPEN {
        return None;
    }
    let body = trim_start(start.split_at(1).1);
    let mut elements: Vec<&'a [u8]> = Vec::new();
    if closes(body, BRACKET_CLOSE) {
        assert(texts(elements@) =~= Seq::empty());
        return Some(elements);
    }
    let mut todo: &'a [u8] = body;
    loop
        invariant
            elements_from(body@) == prepended(texts(elements@), elements_from(todo@)),
            elements_of(text@) == elements_from(body@),
        decreases todo@.len(),
    {
        let ghost before = texts(elements@);
        let (value, rest) = match first_value(todo) {
            Some(split) => split,
            None => return None,
        };
        elements.push(value);
        assert(texts(elements@) =~= before.push(value@));
        if closes(rest, BRACKET_CLOSE) {
            assert(texts(elements@) =~= before + seq![value@]);
            return Some(elements);
        }
        if rest.len() == 0 || rest[0] != COMMA {
            return None;
        }
        proof {
            lemma_value_is_consumed(todo@);
            if let Some(others) = elements_from(rest@.skip(1)) {
                assert(before + (seq![value@] + others) =~= before.push(value@) + others);
            }
        }
        todo = rest.split_at(1).1;
    }
}

} // verus!
