//! What holds of the causes and of the memberships throughout.

use vstd::prelude::*;
use vstd::utf8::encode_utf8;

use crate::decryption::{UnableToDecryptInfo, UnableToDecryptReason, VerificationLevel, WithheldCode};
use crate::event::{all_unsigned_readable, event_membership, event_time, last_named};
use crate::json::{json_string, members_of};
use crate::membership::{
    is_membership_key, is_sole_membership_member, membership_read, membership_stated, unsigned_read,
    Membership,
};
use crate::time::{millis, MilliSecondsSinceUnixEpoch};
use crate::utd_cause::{cause_of, determined, is_missing_key, CryptoContextInfo, UtdCause};

verus! {

/// Unless the key is missing for a reason that the sender has not given, neither the event nor
/// the state of the device has any bearing on the cause.
pub proof fn evidence_counts_only_for_a_missing_key(
    reason: UnableToDecryptReason,
    membership: Option<Membership>,
    sent: Option<u64>,
    context: CryptoContextInfo,
    other_membership: Option<Membership>,
    other_sent: Option<u64>,
    other_context: CryptoContextInfo,
)
    requires
        !is_missing_key(reason),
    ensures
        cause_of(membership, sent, context, reason) == cause_of(
            other_membership,
            other_sent,
            other_context,
            reason,
        ),
{
}

/// A session that is missing and a session that starts too late are explained alike, and the ID
/// of the session has no bearing on the cause.
pub proof fn missing_and_ratcheted_sessions_are_alike(
    event: Seq<char>,
    context: CryptoContextInfo,
    info: UnableToDecryptInfo,
    other: UnableToDecryptInfo,
)
    requires
        info.reason == other.reason || (is_missing_key(info.reason) && is_missing_key(other.reason)),
    ensures
        determined(event, context, info) == determined(event, context, other),
{
}

/// An event was sent before we joined exactly if its key is missing and it says that we had
/// left. The time when it was sent and the state of the device make no difference to that.
pub proof fn sent_before_we_joined_exactly_if_left(
    membership: Option<Membership>,
    sent: Option<u64>,
    context: CryptoContextInfo,
    reason: UnableToDecryptReason,
)
    ensures
        cause_of(membership, sent, context, reason) == UtdCause::SentBeforeWeJoined <==> (
        is_missing_key(reason) && membership == Some(Membership::Leave)),
{
}

/// An event is historical exactly if its key is missing, it does not say that we had left, a
/// backup is configured, and it was sent before the device was created.
pub proof fn historical_exactly_if_older_than_device_with_backup(
    membership: Option<Membership>,
    sent: Option<u64>,
    context: CryptoContextInfo,
    reason: UnableToDecryptReason,
)
    ensures
        cause_of(membership, sent, context, reason) == UtdCause::HistoricalMessage <==> {
            &&& is_missing_key(reason)
            &&& membership != Some(Membership::Leave)
            &&& context.is_backup_configured
            &&& sent matches Some(millis) && millis < context.device_creation_ts.0
        },
{
}

/// What is historical for a device is historical for every device that was created later and
/// has a backup configured.
pub proof fn historical_for_every_later_device(
    membership: Option<Membership>,
    sent: Option<u64>,
    context: CryptoContextInfo,
    later: CryptoContextInfo,
    reason: UnableToDecryptReason,
)
    requires
        cause_of(membership, sent, context, reason) == UtdCause::HistoricalMessage,
        context.device_creation_ts.0 <= later.device_creation_ts.0,
        later.is_backup_configured,
    ensures
        cause_of(membership, sent, later, reason) == UtdCause::HistoricalMessage,
{
}

/// The state of the device moves the cause between unknown and historical alone. A device that
/// was created later, or has a backup configured where there was none, can make an unknown cause
/// historical, and changes nothing else.
pub proof fn the_device_decides_between_unknown_and_historical(
    event: Seq<char>,
    context: CryptoContextInfo,
    later: CryptoContextInfo,
    info: UnableToDecryptInfo,
)
    requires
        context.is_backup_configured ==> later.is_backup_configured,
        context.device_creation_ts.0 <= later.device_creation_ts.0,
    ensures
        determined(event, context, info) == determined(event, later, info) || (determined(
            event,
            context,
            info,
        ) == UtdCause::Unknown && determined(event, later, info) == UtdCause::HistoricalMessage),
{
}

/// That we were invited or had joined explains no more than an event that is silent on our
/// membership.
pub proof fn invite_and_join_explain_nothing(
    sent: Option<u64>,
    context: CryptoContextInfo,
    reason: UnableToDecryptReason,
)
    ensures
        cause_of(Some(Membership::Invite), sent, context, reason) == cause_of(
            None,
            sent,
            context,
            reason,
        ),
        cause_of(Some(Membership::Join), sent, context, reason) == cause_of(
            None,
            sent,
            context,
            reason,
        ),
{
}

/// An event that tells neither our membership nor when it was sent leaves a missing key
/// unexplained.
pub proof fn a_silent_event_explains_nothing(
    context: CryptoContextInfo,
    reason: UnableToDecryptReason,
)
    requires
        is_missing_key(reason),
    ensures
        cause_of(None, None, context, reason) == UtdCause::Unknown,
{
}

/// The causes that speak of a withheld key come up exactly if the sender has given a code, and
/// the code decides which of the two it is.
pub proof fn withheld_exactly_if_the_sender_says_so(
    membership: Option<Membership>,
    sent: Option<u64>,
    context: CryptoContextInfo,
    reason: UnableToDecryptReason,
)
    ensures
        cause_of(membership, sent, context, reason)
            == UtdCause::WithheldForUnverifiedOrInsecureDevice <==> reason
            == UnableToDecryptReason::MissingMegolmSession(Some(WithheldCode::Unverified)),
        cause_of(membership, sent, context, reason) == UtdCause::WithheldBySender <==> (reason matches
            UnableToDecryptReason::MissingMegolmSession(Some(code)) && code
            != WithheldCode::Unverified),
{
}

/// Each of the causes that speak of the sender's identity or device comes up exactly for the
/// verification level that it is named after.
pub proof fn trust_problems_are_passed_through(
    membership: Option<Membership>,
    sent: Option<u64>,
    context: CryptoContextInfo,
    reason: UnableToDecryptReason,
)
    ensures
        cause_of(membership, sent, context, reason) == UtdCause::VerificationViolation <==> reason
            == UnableToDecryptReason::SenderIdentityNotTrusted(
            VerificationLevel::VerificationViolation,
        ),
        cause_of(membership, sent, context, reason) == UtdCause::UnsignedDevice <==> reason
            == UnableToDecryptReason::SenderIdentityNotTrusted(VerificationLevel::UnsignedDevice),
        cause_of(membership, sent, context, reason) == UtdCause::UnknownDevice <==> (reason matches
            UnableToDecryptReason::SenderIdentityNotTrusted(level) && level is UnlinkedDevice),
{
}

/// A key counts as missing exactly if the session is missing and the sender has given no code, or
/// the session starts too late.
pub proof fn a_key_is_missing_if_there_is_no_session_and_no_code(reason: UnableToDecryptReason)
    ensures
        is_missing_key(reason) <==> (reason matches UnableToDecryptReason::MissingMegolmSession(code)
            && code is None) || reason is UnknownMegolmMessageIndex,
{
}

/// An event whose key is missing was sent before we joined exactly if it states that we had left;
/// with any other reason it never was.
pub proof fn only_an_event_that_states_leave_was_sent_before_we_joined(
    event: Seq<char>,
    context: CryptoContextInfo,
    info: UnableToDecryptInfo,
)
    ensures
        (info.reason == UnableToDecryptReason::MissingMegolmSession(None) || info.reason
            == UnableToDecryptReason::UnknownMegolmMessageIndex) ==> (determined(event, context, info)
            == UtdCause::SentBeforeWeJoined <==> event_membership(event) == Some(Membership::Leave)),
        determined(event, context, info) == UtdCause::SentBeforeWeJoined ==> (info.reason
            == UnableToDecryptReason::MissingMegolmSession(None) || info.reason
            == UnableToDecryptReason::UnknownMegolmMessageIndex),
{
}

/// An event is historical exactly if its key is missing, it does not state that we had left, a
/// backup is configured, and it tells a time, all of it, that lies before the creation of the
/// device.
pub proof fn historical_exactly_if_the_event_is_older_than_the_device(
    event: Seq<char>,
    context: CryptoContextInfo,
    info: UnableToDecryptInfo,
)
    ensures
        determined(event, context, info) == UtdCause::HistoricalMessage <==> {
            &&& (info.reason == UnableToDecryptReason::MissingMegolmSession(None) || info.reason
                == UnableToDecryptReason::UnknownMegolmMessageIndex)
            &&& event_membership(event) != Some(Membership::Leave)
            &&& context.is_backup_configured
            &&& event_time(event) matches Some(sent) && sent < context.device_creation_ts.0
        },
{
}

/// Of two events that state the same membership, the later one is historical only if the earlier
/// one is.
pub proof fn an_earlier_event_is_historical_too(
    earlier: Seq<char>,
    later: Seq<char>,
    context: CryptoContextInfo,
    info: UnableToDecryptInfo,
)
    ensures
        (event_membership(earlier) == event_membership(later) && event_time(earlier) is Some
            && event_time(later) is Some && event_time(earlier)->0 <= event_time(later)->0
            && determined(later, context, info) == UtdCause::HistoricalMessage) ==> determined(
            earlier,
            context,
            info,
        ) == UtdCause::HistoricalMessage,
{
}

/// Whatever the event, a withheld key is put down to our device exactly if the sender gave that
/// code, and to the sender exactly if they gave another.
pub proof fn the_code_tells_why_a_key_was_withheld(
    event: Seq<char>,
    context: CryptoContextInfo,
    info: UnableToDecryptInfo,
)
    ensures
        determined(event, context, info) == UtdCause::WithheldForUnverifiedOrInsecureDevice
            <==> info.reason == UnableToDecryptReason::MissingMegolmSession(
            Some(WithheldCode::Unverified),
        ),
        determined(event, context, info) == UtdCause::WithheldBySender <==> (info.reason matches
            UnableToDecryptReason::MissingMegolmSession(Some(code)) && code
            != WithheldCode::Unverified),
{
}

/// Whatever the event, a sender that is not trusted is reported as the verification level has it,
/// and in no other case.
pub proof fn the_level_tells_why_a_sender_is_not_trusted(
    event: Seq<char>,
    context: CryptoContextInfo,
    info: UnableToDecryptInfo,
)
    ensures
        determined(event, context, info) == UtdCause::VerificationViolation <==> info.reason
            == UnableToDecryptReason::SenderIdentityNotTrusted(
            VerificationLevel::VerificationViolation,
        ),
        determined(event, context, info) == UtdCause::UnsignedDevice <==> info.reason
            == UnableToDecryptReason::SenderIdentityNotTrusted(VerificationLevel::UnsignedDevice),
        determined(event, context, info) == UtdCause::UnknownDevice <==> (info.reason matches
            UnableToDecryptReason::SenderIdentityNotTrusted(level) && level is UnlinkedDevice),
{
}

/// Unless the key is missing and the sender has given no code, no two events and no two devices
/// make a difference to the cause.
pub proof fn the_event_counts_only_for_a_missing_key(
    event: Seq<char>,
    other_event: Seq<char>,
    context: CryptoContextInfo,
    other_context: CryptoContextInfo,
    info: UnableToDecryptInfo,
)
    requires
        info.reason != UnableToDecryptReason::MissingMegolmSession(None),
        info.reason != UnableToDecryptReason::UnknownMegolmMessageIndex,
    ensures
        determined(event, context, info) == determined(other_event, other_context, info),
{
}

/// Two events that state the same membership and tell the same time have the same cause.
pub proof fn nothing_but_membership_and_time_is_taken_from_the_event(
    event: Seq<char>,
    other_event: Seq<char>,
    context: CryptoContextInfo,
    info: UnableToDecryptInfo,
)
    ensures
        (event_membership(event) == event_membership(other_event) && event_time(event) == event_time(
            other_event,
        )) ==> determined(event, context, info) == determined(other_event, context, info),
{
}

/// There is no explanation for a reason that speaks neither of a missing key nor of a sender that
/// is not trusted, and none for a level that finds no fault with the device.
pub proof fn other_reasons_are_not_explained(
    event: Seq<char>,
    context: CryptoContextInfo,
    info: UnableToDecryptInfo,
)
    requires
        info.reason is Unknown || info.reason is MalformedEncryptedEvent || info.reason
            is MegolmDecryptionFailure || info.reason is PayloadDeserializationFailure
            || info.reason is MismatchedIdentityKeys || info.reason
            == UnableToDecryptReason::SenderIdentityNotTrusted(VerificationLevel::UnverifiedIdentity),
    ensures
        determined(event, context, info) == UtdCause::Unknown,
{
}

/// A timestamp stands for its milliseconds, all of them.
pub proof fn a_timestamp_stands_for_its_milliseconds(time: MilliSecondsSinceUnixEpoch)
    ensures
        millis(Some(time)) == Some(time.0),
        millis(None) is None,
{
}

/// Before and after MSC4115 was accepted means the same: either membership key may be replaced
/// by the other.
pub proof fn membership_keys_are_alike(
    members: Seq<(Seq<char>, Seq<u8>)>,
    k: int,
    key: Seq<char>,
)
    requires
        0 <= k < members.len(),
        is_membership_key(members[k].0),
        is_membership_key(key),
    ensures
        membership_stated(members.update(k, (key, members[k].1))) == membership_stated(members),
{
    let renamed = members.update(k, (key, members[k].1));
    if exists|i: int| is_sole_membership_member(members, i) {
        let i = choose|i: int| is_sole_membership_member(members, i);
        assert(i == k);
        assert forall|j: int| 0 <= j < renamed.len() && j != k implies !is_membership_key(
            #[trigger] renamed[j].0,
        ) by {
            assert(!is_membership_key(members[j].0));
        }
        sole_member_states(members, k);
        sole_member_states(renamed, k);
    } else if exists|i: int| is_sole_membership_member(renamed, i) {
        let i = choose|i: int| is_sole_membership_member(renamed, i);
        assert(is_membership_key(renamed[k].0));
        assert(i == k);
        assert forall|j: int| 0 <= j < members.len() && j != k implies !is_membership_key(
            #[trigger] members[j].0,
        ) by {
            assert(!is_membership_key(renamed[j].0));
        }
        assert(is_sole_membership_member(members, k));
    }
}

/// What the only member with a membership key says is what is stated.
proof fn sole_member_states(members: Seq<(Seq<char>, Seq<u8>)>, k: int)
    requires
        is_sole_membership_member(members, k),
    ensures
        membership_stated(members) == membership_read(members[k].1),
{
    let chosen = choose|i: int| is_sole_membership_member(members, i);
    assert(chosen == k);
}

/// A membership that is stated twice is not stated.
pub proof fn a_repeated_membership_does_not_count(
    members: Seq<(Seq<char>, Seq<u8>)>,
    first: int,
    second: int,
)
    requires
        0 <= first < second < members.len(),
        is_membership_key(members[first].0),
        is_membership_key(members[second].0),
    ensures
        membership_stated(members) is None,
{
}

/// Members with other keys have no bearing on the membership, wherever they stand.
pub proof fn other_members_do_not_count(
    members: Seq<(Seq<char>, Seq<u8>)>,
    k: int,
    member: (Seq<char>, Seq<u8>),
)
    requires
        0 <= k <= members.len(),
        !is_membership_key(member.0),
    ensures
        membership_stated(members.insert(k, member)) == membership_stated(members),
{
    let longer = members.insert(k, member);
    if exists|i: int| is_sole_membership_member(members, i) {
        let i = choose|i: int| is_sole_membership_member(members, i);
        let n = if i < k { i } else { i + 1 };
        assert(longer[n] == members[i]);
        assert forall|j: int| 0 <= j < longer.len() && j != n implies !is_membership_key(
            #[trigger] longer[j].0,
        ) by {
            if j < k {
                assert(longer[j] == members[j]);
            } else if j > k {
                assert(longer[j] == members[j - 1]);
            }
        }
        sole_member_states(members, i);
        sole_member_states(longer, n);
    } else if exists|n: int| is_sole_membership_member(longer, n) {
        let n = choose|n: int| is_sole_membership_member(longer, n);
        let i = if n < k { n } else { n - 1 };
        assert(longer[n] == members[i]);
        assert forall|j: int| 0 <= j < members.len() && j != i implies !is_membership_key(
            #[trigger] members[j].0,
        ) by {
            if j < k {
                assert(longer[j] == members[j]);
            } else {
                assert(longer[j + 1] == members[j]);
            }
        }
        assert(is_sole_membership_member(members, i));
    }
}

/// Member `i`, and no other, is called `name`.
pub open spec fn is_sole_named(
    members: Seq<(Seq<char>, Seq<u8>)>,
    name: Seq<char>,
    i: int,
) -> bool {
    &&& 0 <= i < members.len()
    &&& members[i].0 == name
    &&& forall|j: int| 0 <= j < members.len() && j != i ==> (#[trigger] members[j]).0 != name
}

/// Member `i` of the event is its only `unsigned` field. It is an object, member `k` of which is
/// the only one with a membership key, and that member's value is the string `leave`.
pub open spec fn names_leave(event: Seq<char>, i: int, k: int) -> bool {
    &&& members_of(encode_utf8(event)) matches Some(members)
    &&& is_sole_named(members, "unsigned"@, i)
    &&& members_of(members[i].1) matches Some(fields)
    &&& is_sole_membership_member(fields, k)
    &&& json_string(fields[k].1) == Some("leave"@)
}

/// An event whose key is missing was sent before we joined if its only `unsigned` field is an
/// object that names `leave` as our membership, once, under either key.
pub proof fn an_event_that_names_leave_was_sent_before_we_joined(
    event: Seq<char>,
    i: int,
    k: int,
    context: CryptoContextInfo,
    info: UnableToDecryptInfo,
)
    requires
        is_missing_key(info.reason),
    ensures
        names_leave(event, i, k) ==> determined(event, context, info)
            == UtdCause::SentBeforeWeJoined,
{
    if names_leave(event, i, k) {
        let members = members_of(encode_utf8(event)).unwrap();
        let fields = members_of(members[i].1).unwrap();
        leave_is_read(members[i].1, fields, k);
        sole_unsigned_counts(event, members, i);
        sent_before_we_joined_exactly_if_left(
            event_membership(event),
            event_time(event),
            context,
            info.reason,
        );
    }
}

/// An area whose only membership is the string `leave` is read as `Leave`.
proof fn leave_is_read(text: Seq<u8>, fields: Seq<(Seq<char>, Seq<u8>)>, k: int)
    requires
        members_of(text) == Some(fields),
        is_sole_membership_member(fields, k),
        json_string(fields[k].1) == Some("leave"@),
    ensures
        unsigned_read(text) == Some(Membership::Leave),
{
    sole_member_states(fields, k);
    assert(membership_read(fields[k].1) == Some(Membership::Leave));
}

/// What the only `unsigned` field of an event states is what the event states.
proof fn sole_unsigned_counts(event: Seq<char>, members: Seq<(Seq<char>, Seq<u8>)>, i: int)
    requires
        members_of(encode_utf8(event)) == Some(members),
        is_sole_named(members, "unsigned"@, i),
        unsigned_read(members[i].1) is Some,
    ensures
        event_membership(event) == unsigned_read(members[i].1),
{
    sole_is_last(members, "unsigned"@, i);
    assert(all_unsigned_readable(members));
}

/// An event with an `unsigned` field that cannot be read tells nothing of our membership, even
/// if another such field could be read.
pub proof fn an_unreadable_unsigned_field_silences_the_event(event: Seq<char>, i: int)
    ensures
        (members_of(encode_utf8(event)) matches Some(members) && 0 <= i < members.len() && members[i].0
            == "unsigned"@ && unsigned_read(members[i].1) is None) ==> event_membership(event) is None,
{
}

/// The only member of a name is the last one of that name.
proof fn sole_is_last(members: Seq<(Seq<char>, Seq<u8>)>, name: Seq<char>, i: int)
    requires
        is_sole_named(members, name, i),
    ensures
        last_named(members, name) == Some(members[i].1),
    decreases members.len(),
{
    if i < members.len() - 1 {
        sole_is_last(members.drop_last(), name, i);
    }
}

} // verus!
