//! What an event has to hold for a membership to be read from it.

use vstd::prelude::*;
use vstd::utf8::encode_utf8;

use crate::decryption::UnableToDecryptInfo;
use crate::event::{all_unsigned_readable, event_membership, field_of, last_named};
use crate::json::{elements_of, json_string, members_of, null_text};
use crate::laws::only_an_event_that_states_leave_was_sent_before_we_joined;
use crate::membership::{
    is_membership_key, is_sole_membership_member, membership_named, membership_read,
    membership_stated, membership_tagged, unsigned_read, Membership,
};
use crate::utd_cause::{determined, CryptoContextInfo, UtdCause};

verus! {

/// The three names of a membership differ.
proof fn lemma_names_differ()
    ensures
        "leave"@ != "invite"@,
        "leave"@ != "join"@,
        "invite"@ != "join"@,
{
    reveal_strlit("leave");
    reveal_strlit("invite");
    reveal_strlit("join");
    assert("leave"@.len() == 5);
    assert("invite"@.len() == 6);
    assert("join"@.len() == 4);
}

/// Each membership goes by one name, and no other name stands for a membership.
pub proof fn a_membership_goes_by_one_name(name: Seq<char>)
    ensures
        membership_named(name) == Some(Membership::Leave) <==> name == "leave"@,
        membership_named(name) == Some(Membership::Invite) <==> name == "invite"@,
        membership_named(name) == Some(Membership::Join) <==> name == "join"@,
{
    lemma_names_differ();
}

/// The only member is called `name` and is `null`.
pub open spec fn tags(members: Seq<(Seq<char>, Seq<u8>)>, name: Seq<char>) -> bool {
    &&& members.len() == 1
    &&& members[0].0 == name
    &&& members[0].1 == seq![0x6eu8, 0x75, 0x6c, 0x6c]
}

/// An object is tagged with a membership exactly if the membership's name is the key of its only
/// member, and the value of that member is `null`.
pub proof fn a_tag_is_the_only_member_and_null(members: Seq<(Seq<char>, Seq<u8>)>)
    ensures
        membership_tagged(members) == Some(Membership::Leave) <==> tags(members, "leave"@),
        membership_tagged(members) == Some(Membership::Invite) <==> tags(members, "invite"@),
        membership_tagged(members) == Some(Membership::Join) <==> tags(members, "join"@),
{
    lemma_names_differ();
    assert(null_text() =~= seq![0x6eu8, 0x75, 0x6c, 0x6c]);
}

/// The JSON value is the string `name`, or an object that is tagged with it.
pub open spec fn spells(text: Seq<u8>, name: Seq<char>) -> bool {
    match json_string(text) {
        Some(string) => string == name,
        None => members_of(text) matches Some(members) && tags(members, name),
    }
}

/// A membership is read from a JSON value exactly if the value is its name, or an object that is
/// tagged with its name.
pub proof fn a_membership_is_read_from_its_name_alone(text: Seq<u8>)
    ensures
        membership_read(text) == Some(Membership::Leave) <==> spells(text, "leave"@),
        membership_read(text) == Some(Membership::Invite) <==> spells(text, "invite"@),
        membership_read(text) == Some(Membership::Join) <==> spells(text, "join"@),
{
    if let Some(name) = json_string(text) {
        a_membership_goes_by_one_name(name);
    } else if let Some(members) = members_of(text) {
        a_tag_is_the_only_member_and_null(members);
    }
}

/// There are two membership keys, the stable one and the unstable one.
pub proof fn there_are_two_membership_keys(key: Seq<char>)
    ensures
        is_membership_key(key) <==> (key == "membership"@ || key == "io.element.msc4115.membership"@),
{
}

/// Member `i` has the stable or the unstable membership key, and no other member has either.
pub open spec fn is_only_membership(members: Seq<(Seq<char>, Seq<u8>)>, i: int) -> bool {
    &&& 0 <= i < members.len()
    &&& (members[i].0 == "membership"@ || members[i].0 == "io.element.msc4115.membership"@)
    &&& forall|j: int|
        0 <= j < members.len() && j != i ==> (#[trigger] members[j]).0 != "membership"@ && members[j].0
            != "io.element.msc4115.membership"@
}

/// A member is singled out as the membership exactly if it has the stable or the unstable key, and
/// no other member has either.
pub proof fn the_membership_is_the_only_member_with_either_key(
    members: Seq<(Seq<char>, Seq<u8>)>,
    i: int,
)
    ensures
        is_sole_membership_member(members, i) <==> is_only_membership(members, i),
{
    if is_sole_membership_member(members, i) {
        assert forall|j: int| 0 <= j < members.len() && j != i implies (#[trigger] members[j]).0
            != "membership"@ && members[j].0 != "io.element.msc4115.membership"@ by {
            assert(!is_membership_key(members[j].0));
        }
    }
}

/// The only membership among the members is read as `membership`.
pub open spec fn only_membership_reads(
    members: Seq<(Seq<char>, Seq<u8>)>,
    i: int,
    membership: Membership,
) -> bool {
    is_only_membership(members, i) && membership_read(members[i].1) == Some(membership)
}

/// A membership is stated exactly if one member, and no other, has the stable or the unstable key,
/// and it is read from the value of that member.
pub proof fn a_membership_is_stated_by_the_only_member_with_its_key(
    members: Seq<(Seq<char>, Seq<u8>)>,
    membership: Membership,
)
    ensures
        membership_stated(members) == Some(membership) <==> exists|i: int|
            only_membership_reads(members, i, membership),
{
    if membership_stated(members) == Some(membership) {
        let i = choose|i: int| is_sole_membership_member(members, i);
        the_membership_is_the_only_member_with_either_key(members, i);
        assert(only_membership_reads(members, i, membership));
    }
    if exists|i: int| only_membership_reads(members, i, membership) {
        let i = choose|i: int| only_membership_reads(members, i, membership);
        the_membership_is_the_only_member_with_either_key(members, i);
        let k = choose|k: int| is_sole_membership_member(members, k);
        assert(k == i);
    }
}

/// The `unsigned` area is an object in which member `i` alone has a membership key and reads as
/// `membership`.
pub open spec fn states_in_object(text: Seq<u8>, i: int, membership: Membership) -> bool {
    members_of(text) matches Some(members) && only_membership_reads(members, i, membership)
}

/// The `unsigned` area is an array whose only element reads as `membership`.
pub open spec fn states_in_array(text: Seq<u8>, membership: Membership) -> bool {
    &&& members_of(text) is None
    &&& elements_of(text) matches Some(elements)
    &&& elements.len() == 1
    &&& membership_read(elements[0]) == Some(membership)
}

/// An `unsigned` area states a membership exactly if it is an object with that membership, once,
/// under either key, or an array with that membership as its only element.
pub proof fn an_unsigned_area_states_what_it_holds(text: Seq<u8>, membership: Membership)
    ensures
        unsigned_read(text) == Some(membership) <==> (states_in_array(text, membership) || exists|i: int|
            states_in_object(text, i, membership)),
{
    if let Some(members) = members_of(text) {
        a_membership_is_stated_by_the_only_member_with_its_key(members, membership);
        if exists|i: int| only_membership_reads(members, i, membership) {
            let i = choose|i: int| only_membership_reads(members, i, membership);
            assert(states_in_object(text, i, membership));
        }
        if exists|i: int| states_in_object(text, i, membership) {
            let i = choose|i: int| states_in_object(text, i, membership);
            assert(only_membership_reads(members, i, membership));
        }
    }
}

/// Member `i` is called `name`, and no later one is.
pub open spec fn is_last_named(members: Seq<(Seq<char>, Seq<u8>)>, name: Seq<char>, i: int) -> bool {
    &&& 0 <= i < members.len()
    &&& members[i].0 == name
    &&& forall|j: int| i < j < members.len() ==> (#[trigger] members[j]).0 != name
}

/// The last of the members with a name is found, and its value is what is found.
pub proof fn the_last_member_of_a_name_is_found(
    members: Seq<(Seq<char>, Seq<u8>)>,
    name: Seq<char>,
    i: int,
)
    requires
        is_last_named(members, name, i),
    ensures
        last_named(members, name) == Some(members[i].1),
    decreases members.len(),
{
    if i < members.len() - 1 {
        assert(members[members.len() - 1].0 != name);
        the_last_member_of_a_name_is_found(members.drop_last(), name, i);
    }
}

/// Whatever is found under a name is the value of the last member of that name; nothing is found
/// only if no member has it.
pub proof fn what_is_found_is_the_last_member_of_that_name(
    members: Seq<(Seq<char>, Seq<u8>)>,
    name: Seq<char>,
) -> (i: int)
    ensures
        last_named(members, name) matches Some(value) ==> is_last_named(members, name, i) && value
            == members[i].1,
        last_named(members, name) is None ==> forall|j: int|
            0 <= j < members.len() ==> (#[trigger] members[j]).0 != name,
    decreases members.len(),
{
    if members.len() == 0 {
        0
    } else if members.last().0 == name {
        members.len() - 1
    } else {
        let shorter = members.drop_last();
        let i = what_is_found_is_the_last_member_of_that_name(shorter, name);
        if last_named(members, name) is Some {
            assert forall|j: int| i < j < members.len() implies (#[trigger] members[j]).0 != name by {
                if j < shorter.len() {
                    assert(shorter[j].0 != name);
                }
            }
        } else {
            assert forall|j: int| 0 <= j < members.len() implies (#[trigger] members[j]).0 != name by {
                if j < shorter.len() {
                    assert(shorter[j].0 != name);
                }
            }
        }
        i
    }
}

/// The text has members, and member `i` is the last one called `name`.
pub open spec fn has_last_named(text: Seq<u8>, name: Seq<char>, i: int) -> bool {
    members_of(text) matches Some(members) && is_last_named(members, name, i)
}

/// A field of an object is its last member of that name. There is none exactly if the text is no
/// object, or no member has the name.
pub proof fn a_field_is_the_last_member_of_its_name(text: Seq<u8>, name: Seq<char>, value: Seq<u8>)
    ensures
        field_of(text, name) == Some(value) <==> exists|i: int|
            #[trigger] has_last_named(text, name, i) && members_of(text)->0[i].1 == value,
{
    if let Some(members) = members_of(text) {
        let i = what_is_found_is_the_last_member_of_that_name(members, name);
        if last_named(members, name) is Some {
            assert(has_last_named(text, name, i));
        }
        if exists|k: int| #[trigger] has_last_named(text, name, k) {
            let k = choose|k: int| #[trigger] has_last_named(text, name, k);
            assert(members[k].0 == name);
            assert(members[i].0 == name);
            assert(!(i < k));
            assert(!(k < i));
        }
    }
}

/// Every member called `unsigned` states some membership, and member `i`, the last of them, states
/// `membership`.
pub open spec fn last_unsigned_states(
    members: Seq<(Seq<char>, Seq<u8>)>,
    i: int,
    membership: Membership,
) -> bool {
    &&& is_last_named(members, "unsigned"@, i)
    &&& unsigned_read(members[i].1) == Some(membership)
    &&& forall|j: int|
        0 <= j < members.len() && (#[trigger] members[j]).0 == "unsigned"@ ==> unsigned_read(
            members[j].1,
        ) is Some
}

/// The event has members, and the last `unsigned` one of them is number `i` and states
/// `membership`.
pub open spec fn event_states(event: Seq<char>, i: int, membership: Membership) -> bool {
    members_of(encode_utf8(event)) matches Some(members) && last_unsigned_states(
        members,
        i,
        membership,
    )
}

/// An event states a membership only in an `unsigned` field: if a membership is read from the
/// event, the event has such a field, and the last one states that membership.
pub proof fn a_membership_comes_from_an_unsigned_field(event: Seq<char>) -> (i: int)
    ensures
        event_membership(event) matches Some(membership) ==> event_states(event, i, membership),
{
    if let Some(members) = members_of(encode_utf8(event)) {
        let i = what_is_found_is_the_last_member_of_that_name(members, "unsigned"@);
        if event_membership(event) is Some {
            assert(all_unsigned_readable(members));
        }
        i
    } else {
        0
    }
}

/// An event whose last `unsigned` field states a membership is read as stating it, provided that
/// no other `unsigned` field is unreadable.
pub proof fn what_the_last_unsigned_field_states_is_read(
    event: Seq<char>,
    i: int,
    membership: Membership,
)
    ensures
        event_states(event, i, membership) ==> event_membership(event) == Some(membership),
{
    if event_states(event, i, membership) {
        let members = members_of(encode_utf8(event)).unwrap();
        the_last_member_of_a_name_is_found(members, "unsigned"@, i);
        assert(all_unsigned_readable(members));
    }
}

/// No member is called `unsigned`.
pub open spec fn lacks_unsigned(members: Seq<(Seq<char>, Seq<u8>)>) -> bool {
    forall|j: int| 0 <= j < members.len() ==> (#[trigger] members[j]).0 != "unsigned"@
}

/// An event without an `unsigned` field, or one that is no object, tells nothing of our membership,
/// and was never sent before we joined.
pub proof fn an_event_without_an_unsigned_field_is_silent(
    event: Seq<char>,
    context: CryptoContextInfo,
    info: UnableToDecryptInfo,
)
    ensures
        (members_of(encode_utf8(event)) matches Some(members) ==> lacks_unsigned(members)) ==> {
            &&& event_membership(event) is None
            &&& determined(event, context, info) != UtdCause::SentBeforeWeJoined
        },
{
    let i = a_membership_comes_from_an_unsigned_field(event);
    only_an_event_that_states_leave_was_sent_before_we_joined(event, context, info);
}

/// An event that was sent before we joined has an `unsigned` field, and the last one states that we
/// had left.
pub proof fn an_event_that_was_sent_before_we_joined_states_leave(
    event: Seq<char>,
    context: CryptoContextInfo,
    info: UnableToDecryptInfo,
) -> (i: int)
    ensures
        determined(event, context, info) == UtdCause::SentBeforeWeJoined ==> event_states(
            event,
            i,
            Membership::Leave,
        ),
{
    only_an_event_that_states_leave_was_sent_before_we_joined(event, context, info);
    a_membership_comes_from_an_unsigned_field(event)
}

} // verus!
