//! What the JSON text of a room event tells about the event.

use ruma::events::AnySyncTimelineEvent;
use ruma::serde::Raw;
use vstd::prelude::*;
use vstd::utf8::encode_utf8;

use crate::embedding::Standalone;
use crate::json::{members_of, object_members, views, Member};
use crate::membership::{unsigned_read, Membership};
use crate::time::{millis, MilliSecondsSinceUnixEpoch};

verus! {

/// The value of the last of `members` that is called `name`.
pub open spec fn last_named(members: Seq<(Seq<char>, Seq<u8>)>, name: Seq<char>) -> Option<Seq<u8>>
    decreases members.len(),
{
    if members.len() == 0 {
        None
    } else if members.last().0 == name {
        Some(members.last().1)
    } else {
        last_named(members.drop_last(), name)
    }
}

/// The text of the field `name` of the JSON object `text`; the last one, if it is repeated.
pub open spec fn field_of(text: Seq<u8>, name: Seq<char>) -> Option<Seq<u8>> {
    match members_of(text) {
        Some(members) => last_named(members, name),
        None => None,
    }
}

/// The time at which the event with JSON text `event` was sent, in milliseconds since the unix
/// epoch, as `ruma` reads it from the whole event. `None` if the event cannot be read.
pub uninterp spec fn event_time(event: Seq<char>) -> Option<u64>;

/// Calls `ruma::serde::Raw::get_field` on the event, for raw JSON text. `None` if the event is
/// not a JSON object, or has no such field.
///
/// Trusted: `get_field` finds the field that is last among the members of the event with that
/// name, and leaves the text of its value as it is. It fails on text that is no JSON object or
/// has a key that cannot be decoded, which is the text that has no list of members.
#[verifier::external_body]
fn get_field(event: &str, name: &str) -> (text: Option<String>)
    ensures
        text matches Some(s) ==> field_of(encode_utf8(event@), name@) == Some(encode_utf8(s@)),
        text is None ==> field_of(encode_utf8(event@), name@) is None,
{
    let raw = Raw::<AnySyncTimelineEvent>::from_json_string(event.to_owned()).ok()?;
    let value = raw.get_field::<Box<serde_json::value::RawValue>>(name).ok()??;
    Some(value.get().to_owned())
}

/// Calls `ruma::serde::Raw::deserialize` on the text without replacements, and
/// `ruma::events::AnySyncTimelineEvent::origin_server_ts` on what comes out. `None` if the text
/// is not that of a well-formed event.
///
/// Trusted: the result depends on the text of the event alone, and it is the same with the
/// replacements as without. `ruma` keeps a replacement as raw text until the relations around it
/// are read, reads it as a text of its own, and if that fails goes on without it. Nothing else
/// that is read as part of an event holds another one, so that without replacements the depth
/// limit of `serde_json` bounds the stack that is needed.
#[verifier::external_body]
fn origin_server_ts(event: &Standalone<'_>) -> (sent: Option<u64>)
    requires
        event.well_formed(),
    ensures
        sent == event_time(event.event@),
{
    let raw = serde_json::from_slice::<Raw<AnySyncTimelineEvent>>(event.text.as_slice()).ok()?;
    let timeline_event = raw.deserialize().ok()?;
    Some(u64::from(timeline_event.origin_server_ts().get()))
}

/// Every member called `unsigned` states a membership.
pub open spec fn all_unsigned_readable(members: Seq<(Seq<char>, Seq<u8>)>) -> bool {
    forall|i: int|
        0 <= i < members.len() && (#[trigger] members[i]).0 == "unsigned"@ ==> unsigned_read(
            members[i].1,
        ) is Some
}

/// The membership that the event with JSON text `event` states in its `unsigned` field. Where
/// the field is repeated the last one counts, but only if each of them states a membership.
pub open spec fn event_membership(event: Seq<char>) -> Option<Membership> {
    match members_of(encode_utf8(event)) {
        Some(members) => match last_named(members, "unsigned"@) {
            Some(text) => if all_unsigned_readable(members) {
                unsigned_read(text)
            } else {
                None
            },
            None => None,
        },
        None => None,
    }
}

fn each_unsigned_reads(members: &[Member<'_>]) -> (yes: bool)
    ensures
        yes == all_unsigned_readable(views(members@)),
{
    let ghost all = views(members@);
    for i in 0..members.len()
        invariant
            all == views(members@),
            forall|j: int|
                0 <= j < i && (#[trigger] all[j]).0 == "unsigned"@ ==> unsigned_read(all[j].1) is Some,
    {
        assert(all[i as int] == members@[i as int]@);
        if members[i].key == "unsigned".to_owned() && Membership::from_unsigned(members[i].value).is_none() {
            return false;
        }
    }
    true
}

/// Reads our membership at the time of the event, from the JSON text of the event.
pub fn membership_at_event(event: &str) -> (membership: Option<Membership>)
    ensures
        membership == event_membership(event@),
{
    let text = match get_field(event, "unsigned") {
        Some(text) => text,
        None => return None,
    };
    match object_members(event.as_bytes()) {
        Some(members) => if each_unsigned_reads(members.as_slice()) {
            Membership::from_unsigned(text.as_str().as_bytes())
        } else {
            None
        },
        None => None,
    }
}

/// Reads the time at which an event was sent, from the JSON text of the event.
pub fn time_of_event(event: &str) -> (time: Option<MilliSecondsSinceUnixEpoch>)
    ensures
        millis(time) == event_time(event@),
        time matches Some(t) ==> event_time(event@) == Some(t.0),
        time is None ==> event_time(event@) is None,
{
    match origin_server_ts(&Standalone::new(event)) {
        Some(sent) => Some(MilliSecondsSinceUnixEpoch(sent)),
        None => None,
    }
}

} // verus!
