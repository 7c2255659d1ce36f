//! Our membership of a room at the time an event was sent, as the `unsigned` area of the event
//! states it (MSC4115).

use vstd::prelude::*;

use crate::json::{
    array_elements, elements_of, json_string, members_of, null_text, object_members, string, texts, views,
    Member,
};

verus! {

/// MSC4115 contents of the membership property.
#[derive(Clone, Copy, Debug, Hash, PartialEq, Eq, Structural)]
pub enum Membership {
    /// We were not in the room.
    Leave,
    /// We were invited to the room.
    Invite,
    /// We were a member of the room.
    Join,
}

/// The membership that goes by `name`: the variant's name in lower case.
pub open spec fn membership_named(name: Seq<char>) -> Option<Membership> {
    if name == "leave"@ {
        Some(Membership::Leave)
    } else if name == "invite"@ {
        Some(Membership::Invite)
    } else if name == "join"@ {
        Some(Membership::Join)
    } else {
        None
    }
}

/// The membership that an object with these members stands for: its only member has the
/// membership's name as its key, and `null` as its value.
pub open spec fn membership_tagged(members: Seq<(Seq<char>, Seq<u8>)>) -> Option<Membership> {
    if members.len() == 1 && members[0].1 == null_text() {
        membership_named(members[0].0)
    } else {
        None
    }
}

/// The membership that the JSON value `text` stands for: a name, or an object that is tagged
/// with one.
pub open spec fn membership_read(text: Seq<u8>) -> Option<Membership> {
    match json_string(text) {
        Some(name) => membership_named(name),
        None => match members_of(text) {
            Some(members) => membership_tagged(members),
            None => None,
        },
    }
}

/// The keys under which the membership is found: the stable one, and the one that was in use
/// before MSC4115 was accepted.
pub open spec fn is_membership_key(key: Seq<char>) -> bool {
    key == "membership"@ || key == "io.element.msc4115.membership"@
}

/// Member `i`, and no other, has a membership key.
pub open spec fn is_sole_membership_member(members: Seq<(Seq<char>, Seq<u8>)>, i: int) -> bool {
    &&& 0 <= i < members.len()
    &&& is_membership_key(members[i].0)
    &&& forall|j: int| 0 <= j < members.len() && j != i ==> !is_membership_key(#[trigger] members[j].0)
}

/// The membership that an object with these members states. It states none if the membership
/// is missing or is given more than once, be it under one key or under both.
pub open spec fn membership_stated(members: Seq<(Seq<char>, Seq<u8>)>) -> Option<Membership> {
    if exists|i: int| is_sole_membership_member(members, i) {
        membership_read(members[choose|i: int| is_sole_membership_member(members, i)].1)
    } else {
        None
    }
}

/// The membership that `text`, the JSON text of an `unsigned` area, states. The area is an
/// object, or an array with the membership as its only element.
pub open spec fn unsigned_read(text: Seq<u8>) -> Option<Membership> {
    match members_of(text) {
        Some(members) => membership_stated(members),
        None => match elements_of(text) {
            Some(elements) => if elements.len() == 1 {
                membership_read(elements[0])
            } else {
                None
            },
            None => None,
        },
    }
}

impl Membership {
    /// The membership that goes by `name`.
    pub fn from_name(name: &str) -> (membership: Option<Membership>)
        ensures
            membership == membership_named(name@),
    {
        let name = name.to_owned();
        if name == "leave".to_owned() {
            Some(Membership::Leave)
        } else if name == "invite".to_owned() {
            Some(Membership::Invite)
        } else if name == "join".to_owned() {
            Some(Membership::Join)
        } else {
            None
        }
    }

    /// The membership that an object with these members is tagged with.
    pub fn from_tag(members: &[Member<'_>]) -> (membership: Option<Membership>)
        ensures
            membership == membership_tagged(views(members@)),
    {
        if members.len() != 1 {
            return None;
        }
        let value = members[0].value;
        if value.len() == 4 && value[0] == 0x6e && value[1] == 0x75 && value[2] == 0x6c && value[3] == 0x6c {
            assert(value@ =~= null_text());
            Membership::from_name(members[0].key.as_str())
        } else {
            None
        }
    }

    /// Reads a membership from the JSON value `text`.
    pub fn from_json(text: &[u8]) -> (membership: Option<Membership>)
        ensures
            membership == membership_read(text@),
    {
        match string(text) {
            Some(name) => Membership::from_name(name.as_str()),
            None => match object_members(text) {
                Some(members) => Membership::from_tag(members.as_slice()),
                None => None,
            },
        }
    }

    /// Reads the membership that an `unsigned` area states, from the JSON text of the area.
    pub fn from_unsigned(text: &[u8]) -> (membership: Option<Membership>)
        ensures
            membership == unsigned_read(text@),
    {
        match object_members(text) {
            Some(members) => match membership_member(members.as_slice()) {
                Some(i) => {
                    proof {
                        let chosen = choose|k: int| is_sole_membership_member(views(members@), k);
                        assert(is_sole_membership_member(views(members@), i as int));
                        assert(chosen == i);
                    }
                    Membership::from_json(members[i].value)
                },
                None => None,
            },
            None => match array_elements(text) {
                Some(elements) => if elements.len() == 1 {
                    assert(texts(elements@)[0] == elements@[0]@);
                    Membership::from_json(elements[0])
                } else {
                    None
                },
                None => None,
            },
        }
    }
}

fn is_membership(key: &String) -> (yes: bool)
    ensures
        yes == is_membership_key(key@),
{
    *key == "membership".to_owned() || *key == "io.element.msc4115.membership".to_owned()
}

/// Finds the member that holds the membership. `None` if there is no such member, or more
/// than one.
pub fn membership_member(members: &[Member<'_>]) -> (found: Option<usize>)
    ensures
        found matches Some(i) ==> is_sole_membership_member(views(members@), i as int),
        found is None ==> forall|i: int| !is_sole_membership_member(views(members@), i),
{
    let ghost all = views(members@);
    let mut found: Option<usize> = None;
    for i in 0..members.len()
        invariant
            all == views(members@),
            found matches Some(k) ==> k < i && is_membership_key(all[k as int].0),
            forall|j: int|
                0 <= j < i && found != Some(j as usize) ==> !is_membership_key(#[trigger] all[j].0),
    {
        assert(all[i as int] == members@[i as int]@);
        if is_membership(&members[i].key) {
            if let Some(k) = found {
                assert forall|n: int| !is_sole_membership_member(all, n) by {
                    assert(is_membership_key(all[k as int].0) && is_membership_key(all[i as int].0));
                }
                return None;
            }
            found = Some(i);
        }
    }
    found
}

} // verus!
