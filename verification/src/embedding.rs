//! Events without the events that they embed.
//!
//! The `unsigned` area of an event can embed the event that replaces it, which has an `unsigned`
//! area in turn, and so on without end. `ruma` reads all of them, each on top of the last, and
//! needs stack for every one, though none but the outermost has any bearing on whether the
//! outermost can be read and on what is read from it. So the replacement is taken out before
//! `ruma` reads the event.

use vstd::prelude::*;
use vstd::utf8::encode_utf8;

use crate::json::{
    array_elements, elements_of, json_string, null_text, raw_members_of, raw_object_members,
    raw_views, string, texts, RawMember, BRACE_CLOSE, BRACE_OPEN, BRACKET_CLOSE, BRACKET_OPEN, COLON, COMMA,
};

verus! {

/// One step down into a JSON value: to every member called `key` if the value is an object, and
/// to the element at `index` if it is an array whose length lies between `least` and `most`.
///
/// A derived reader takes the fields of a struct from either, so that both have to be followed.
#[derive(Clone, Copy)]
pub struct Step {
    /// What the members are called.
    pub key: &'static str,
    /// Where the element stands.
    pub index: usize,
    /// The shortest array that the step leads into.
    pub least: usize,
    /// The longest array that the step leads into.
    pub most: usize,
}

impl Step {
    /// The step leads into an array of `len` elements.
    pub open spec fn leads_into_array(self, len: nat) -> bool {
        self.index < len && self.least <= len <= self.most
    }
}

/// The members, one after the other.
pub open spec fn joined_members(members: Seq<(Seq<u8>, Seq<u8>)>) -> Seq<u8>
    decreases members.len(),
{
    if members.len() == 0 {
        Seq::empty()
    } else {
        let before = if members.len() == 1 {
            Seq::empty()
        } else {
            joined_members(members.drop_last()).push(COMMA)
        };
        before + members.last().0.push(COLON) + members.last().1
    }
}

/// The JSON object that has these members.
pub open spec fn object_text(members: Seq<(Seq<u8>, Seq<u8>)>) -> Seq<u8> {
    (seq![BRACE_OPEN] + joined_members(members)).push(BRACE_CLOSE)
}

/// The elements, one after the other.
pub open spec fn joined_elements(elements: Seq<Seq<u8>>) -> Seq<u8>
    decreases elements.len(),
{
    if elements.len() == 0 {
        Seq::empty()
    } else {
        let before = if elements.len() == 1 {
            Seq::empty()
        } else {
            joined_elements(elements.drop_last()).push(COMMA)
        };
        before + elements.last()
    }
}

/// The JSON array that has these elements.
pub open spec fn array_text(elements: Seq<Seq<u8>>) -> Seq<u8> {
    (seq![BRACKET_OPEN] + joined_elements(elements)).push(BRACKET_CLOSE)
}

/// The JSON value `text` with `null` in place of whatever `path` leads to.
pub open spec fn cut(text: Seq<u8>, path: Seq<Step>) -> Seq<u8>
    decreases path.len(), 1nat,
{
    if path.len() == 0 {
        null_text()
    } else {
        let step = path[0];
        match raw_members_of(text) {
            Some(members) => object_text(cut_members(members, path)),
            None => match elements_of(text) {
                Some(elements) => if step.leads_into_array(elements.len()) {
                    array_text(
                        elements.update(
                            step.index as int,
                            cut(elements[step.index as int], path.skip(1)),
                        ),
                    )
                } else {
                    text
                },
                None => text,
            },
        }
    }
}

/// The members of an object with `null` in place of whatever `path` leads to from the object.
pub open spec fn cut_members(
    members: Seq<(Seq<u8>, Seq<u8>)>,
    path: Seq<Step>,
) -> Seq<(Seq<u8>, Seq<u8>)>
    decreases path.len(), 0nat,
{
    if path.len() == 0 {
        members
    } else {
        Seq::new(
            members.len(),
            |i: int|
                if json_string(members[i].0) == Some(path[0].key@) {
                    (members[i].0, cut(members[i].1, path.skip(1)))
                } else {
                    members[i]
                },
        )
    }
}

/// From an event to its `unsigned` area. An event is an object.
pub open spec fn to_unsigned() -> Step {
    Step { key: "unsigned", index: 0, least: 1, most: 0 }
}

/// From an `unsigned` area to the relations, the third of its fields.
pub open spec fn to_relations() -> Step {
    Step { key: "m.relations", index: 2, least: 3, most: usize::MAX }
}

/// From the relations to the replacement, the first of their three fields. It is not read from
/// an array of another length.
pub open spec fn to_replacement() -> Step {
    Step { key: "m.replace", index: 0, least: 3, most: 3 }
}

/// From the `unsigned` area of a redacted event to the redaction, which is its only field.
pub open spec fn to_redaction() -> Step {
    Step { key: "redacted_because", index: 0, least: 1, most: usize::MAX }
}

/// From a redaction to its `unsigned` area, the fifth of its fields.
pub open spec fn to_unsigned_of_redaction() -> Step {
    Step { key: "unsigned", index: 4, least: 5, most: usize::MAX }
}

/// From an event to the event that replaces it.
pub open spec fn path_to_replacement() -> Seq<Step> {
    seq![to_unsigned(), to_relations(), to_replacement()]
}

/// From an event to the event that replaces its redaction.
pub open spec fn path_to_replaced_redaction() -> Seq<Step> {
    seq![
        to_unsigned(),
        to_redaction(),
        to_unsigned_of_redaction(),
        to_relations(),
        to_replacement(),
    ]
}

/// The event with JSON text `event` without the event that replaces it or its redaction.
pub open spec fn without_replacements(event: Seq<char>) -> Seq<u8> {
    cut(cut(encode_utf8(event), path_to_replacement()), path_to_replaced_redaction())
}

/// Writes the bytes of `more` behind those of `text`.
fn append(text: &mut Vec<u8>, more: &[u8])
    ensures
        final(text)@ == old(text)@ + more@,
{
    let ghost before = text@;
    assert(before + more@.take(0) =~= before);
    for i in 0..more.len()
        invariant
            text@ == before + more@.take(i as int),
    {
        text.push(more[i]);
        assert(before + more@.take(i + 1) =~= (before + more@.take(i as int)).push(more@[i as int]));
    }
    assert(more@.take(more.len() as int) =~= more@);
}

fn is_called(key: &[u8], name: &'static str) -> (yes: bool)
    ensures
        yes == (json_string(key@) == Some(name@)),
{
    match string(key) {
        Some(decoded) => decoded == name.to_owned(),
        None => false,
    }
}

/// Puts `null` in place of whatever `path` leads to in the JSON value `text`.
pub fn cut_out(text: &[u8], path: &[Step]) -> (rest: Vec<u8>)
    ensures
        rest@ == cut(text@, path@),
    decreases path@.len(),
{
    let mut out: Vec<u8> = Vec::new();
    if path.len() == 0 {
        out.push(0x6e);
        out.push(0x75);
        out.push(0x6c);
        out.push(0x6c);
        assert(out@ =~= null_text());
        return out;
    }
    let step = path[0];
    let further = path.split_at(1).1;
    assert(further@ =~= path@.skip(1));
    if let Some(members) = raw_object_members(text) {
        let ghost all = raw_views(members@);
        let ghost changed = cut_members(all, path@);
        out.push(BRACE_OPEN);
        assert(out@ =~= seq![BRACE_OPEN] + joined_members(changed.take(0)));
        for i in 0..members.len()
            invariant
                path@.len() > 0,
                further@ == path@.skip(1),
                all == raw_views(members@),
                changed.len() == all.len(),
                forall|j: int|
                    0 <= j < all.len() ==> #[trigger] changed[j] == (if json_string(all[j].0) == Some(
                        step.key@,
                    ) {
                        (all[j].0, cut(all[j].1, path@.skip(1)))
                    } else {
                        all[j]
                    }),
                out@ == seq![BRACE_OPEN] + joined_members(changed.take(i as int)),
        {
            let member: RawMember<'_> = members[i];
            let ghost before = out@;
            assert(all[i as int] == member@);
            assert(changed.take(i + 1).drop_last() =~= changed.take(i as int));
            assert(changed.take(i + 1).last() == changed[i as int]);
            if i > 0 {
                out.push(COMMA);
            }
            append(&mut out, member.key);
            out.push(COLON);
            if is_called(member.key, step.key) {
                let value = cut_out(member.value, further);
                append(&mut out, value.as_slice());
            } else {
                append(&mut out, member.value);
            }
            assert(out@ =~= seq![BRACE_OPEN] + joined_members(changed.take(i + 1)));
        }
        assert(changed.take(members.len() as int) =~= changed);
        out.push(BRACE_CLOSE);
        return out;
    }
    if let Some(elements) = array_elements(text) {
        let ghost all = texts(elements@);
        let len = elements.len();
        if step.index < len && step.least <= len && len <= step.most {
            let ghost changed = all.update(
                step.index as int,
                cut(all[step.index as int], path@.skip(1)),
            );
            out.push(BRACKET_OPEN);
            assert(out@ =~= seq![BRACKET_OPEN] + joined_elements(changed.take(0)));
            for i in 0..elements.len()
                invariant
                    path@.len() > 0,
                    further@ == path@.skip(1),
                    all == texts(elements@),
                    step.index < elements.len(),
                    changed == all.update(
                        step.index as int,
                        cut(all[step.index as int], path@.skip(1)),
                    ),
                    out@ == seq![BRACKET_OPEN] + joined_elements(changed.take(i as int)),
            {
                assert(all[i as int] == elements@[i as int]@);
                assert(changed.take(i + 1).drop_last() =~= changed.take(i as int));
                assert(changed.take(i + 1).last() == changed[i as int]);
                if i > 0 {
                    out.push(COMMA);
                }
                if i == step.index {
                    let value = cut_out(elements[i], further);
                    append(&mut out, value.as_slice());
                } else {
                    append(&mut out, elements[i]);
                }
                assert(out@ =~= seq![BRACKET_OPEN] + joined_elements(changed.take(i + 1)));
            }
            assert(changed.take(elements.len() as int) =~= changed);
            out.push(BRACKET_CLOSE);
            return out;
        }
    }
    append(&mut out, text);
    assert(out@ =~= text@);
    out
}

/// An event, and its JSON text without the event that replaces it or its redaction.
pub struct Standalone<'a> {
    /// The JSON text of the event as it is.
    pub event: &'a str,
    /// The JSON text of the event without replacements.
    pub text: Vec<u8>,
}

impl<'a> Standalone<'a> {
    /// The text is that of the event.
    pub open spec fn well_formed(&self) -> bool {
        self.text@ == without_replacements(self.event@)
    }

    /// Takes the replacements out of an event.
    pub fn new(event: &'a str) -> (alone: Standalone<'a>)
        ensures
            alone.well_formed(),
            alone.event@ == event@,
    {
        let unsigned = Step { key: "unsigned", index: 0, least: 1, most: 0 };
        let relations = Step { key: "m.relations", index: 2, least: 3, most: usize::MAX };
        let replacement = Step { key: "m.replace", index: 0, least: 3, most: 3 };
        let redaction = Step { key: "redacted_because", index: 0, least: 1, most: usize::MAX };
        let unsigned_of_redaction = Step { key: "unsigned", index: 4, least: 5, most: usize::MAX };
        let to_replacement: Vec<Step> = vec![unsigned, relations, replacement];
        let to_replaced_redaction: Vec<Step> = vec![
            unsigned,
            redaction,
            unsigned_of_redaction,
            relations,
            replacement,
        ];
        assert(to_replacement@ =~= path_to_replacement());
        assert(to_replaced_redaction@ =~= path_to_replaced_redaction());
        let once = cut_out(event.as_bytes(), to_replacement.as_slice());
        let text = cut_out(once.as_slice(), to_replaced_redaction.as_slice());
        Standalone { event, text }
    }
}

} // verus!
