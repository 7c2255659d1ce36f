//! What is left of a JSON value when something is cut out of it.

use vstd::prelude::*;
use vstd::utf8::encode_utf8;

use crate::embedding::{
    array_text, cut, cut_members, joined_elements, joined_members, object_text, without_replacements,
    Standalone, Step,
};
use crate::json::{elements_of, json_string, null_text, raw_members_of};
use crate::json_laws::{
    array_laid_out, from_blanks, from_element, from_key, from_start, from_value, object_laid_out,
    LaidElement, LaidMember,
};

verus! {

/// There are no blanks around the key and the value.
pub open spec fn is_tight(member: LaidMember) -> bool {
    &&& member.before_key.len() == 0
    &&& member.after_key.len() == 0
    &&& member.before_value.len() == 0
    &&& member.after_value.len() == 0
}

/// The keys and values of `members`, in order, without blanks.
pub open spec fn writes_members(layout: Seq<LaidMember>, members: Seq<(Seq<u8>, Seq<u8>)>) -> bool {
    &&& layout.len() == members.len()
    &&& forall|i: int|
        0 <= i < layout.len() ==> is_tight(#[trigger] layout[i]) && layout[i].key == members[i].0
            && layout[i].value == members[i].1
}

/// The values of `elements`, in order, without blanks.
pub open spec fn writes_elements(layout: Seq<LaidElement>, elements: Seq<Seq<u8>>) -> bool {
    &&& layout.len() == elements.len()
    &&& forall|i: int|
        0 <= i < layout.len() ==> (#[trigger] layout[i]).before.len() == 0 && layout[i].after.len() == 0
            && layout[i].value == elements[i]
}

proof fn lemma_joined_members_from_the_front(members: Seq<(Seq<u8>, Seq<u8>)>)
    requires
        members.len() >= 2,
    ensures
        joined_members(members) == members[0].0 + (seq![0x3au8] + (members[0].1 + (seq![0x2cu8]
            + joined_members(members.skip(1))))),
    decreases members.len(),
{
    let shorter = members.drop_last();
    let rest = members.skip(1);
    assert(rest.drop_last() =~= shorter.skip(1));
    assert(rest.last() == members.last());
    if members.len() == 2 {
        assert(shorter.last() == members[0]);
        assert(joined_members(shorter) =~= members[0].0 + (seq![0x3au8] + members[0].1));
        assert(joined_members(rest) =~= members.last().0 + (seq![0x3au8] + members.last().1));
    } else {
        lemma_joined_members_from_the_front(shorter);
        assert(joined_members(rest) == joined_members(shorter.skip(1)).push(0x2c)
            + members.last().0.push(0x3a) + members.last().1);
    }
    assert(joined_members(members) =~= members[0].0 + (seq![0x3au8] + (members[0].1 + (seq![0x2cu8]
        + joined_members(rest)))));
}

proof fn lemma_joined_members_are_laid_out(
    members: Seq<(Seq<u8>, Seq<u8>)>,
    layout: Seq<LaidMember>,
)
    requires
        members.len() > 0,
        writes_members(layout, members),
    ensures
        joined_members(members).push(0x7d) == from_start(layout, Seq::empty()),
    decreases members.len(),
{
    let first = layout[0];
    assert(is_tight(first));
    if members.len() == 1 {
        assert(joined_members(members) =~= first.key + (seq![0x3au8] + first.value));
        assert(from_value(layout, Seq::empty()) =~= first.value.push(0x7d));
        assert(from_key(layout, Seq::empty()) =~= first.key + (seq![0x3au8] + first.value.push(0x7d)));
        assert(joined_members(members).push(0x7d) =~= from_start(layout, Seq::empty()));
    } else {
        let others = layout.skip(1);
        assert forall|i: int| 0 <= i < others.len() implies is_tight(#[trigger] others[i]) && others[i].key
            == members.skip(1)[i].0 && others[i].value == members.skip(1)[i].1 by {
            assert(others[i] == layout[i + 1]);
        }
        lemma_joined_members_are_laid_out(members.skip(1), others);
        lemma_joined_members_from_the_front(members);
        let tail = from_start(others, Seq::empty());
        assert(from_value(layout, Seq::empty()) =~= first.value + (seq![0x2cu8] + tail));
        assert(from_key(layout, Seq::empty()) =~= first.key + (seq![0x3au8] + (first.value + (
        seq![0x2cu8] + tail))));
        assert(joined_members(members).push(0x7d) =~= from_start(layout, Seq::empty()));
    }
}

proof fn lemma_joined_elements_from_the_front(elements: Seq<Seq<u8>>)
    requires
        elements.len() >= 2,
    ensures
        joined_elements(elements) == elements[0] + (seq![0x2cu8] + joined_elements(elements.skip(1))),
    decreases elements.len(),
{
    let shorter = elements.drop_last();
    let rest = elements.skip(1);
    assert(rest.drop_last() =~= shorter.skip(1));
    assert(rest.last() == elements.last());
    if elements.len() == 2 {
        assert(shorter.last() == elements[0]);
        assert(joined_elements(shorter) =~= elements[0]);
        assert(joined_elements(rest) =~= elements.last());
    } else {
        lemma_joined_elements_from_the_front(shorter);
        assert(joined_elements(rest) == joined_elements(shorter.skip(1)).push(0x2c) + elements.last());
    }
    assert(joined_elements(elements) =~= elements[0] + (seq![0x2cu8] + joined_elements(rest)));
}

proof fn lemma_joined_elements_are_laid_out(elements: Seq<Seq<u8>>, layout: Seq<LaidElement>)
    requires
        elements.len() > 0,
        writes_elements(layout, elements),
    ensures
        joined_elements(elements).push(0x5d) == from_blanks(layout, Seq::empty()),
    decreases elements.len(),
{
    let first = layout[0];
    assert(first.before.len() == 0);
    if elements.len() == 1 {
        assert(joined_elements(elements) =~= first.value);
        assert(from_element(layout, Seq::empty()) =~= first.value.push(0x5d));
        assert(joined_elements(elements).push(0x5d) =~= from_blanks(layout, Seq::empty()));
    } else {
        let others = layout.skip(1);
        assert forall|i: int| 0 <= i < others.len() implies (#[trigger] others[i]).before.len() == 0
            && others[i].after.len() == 0 && others[i].value == elements.skip(1)[i] by {
            assert(others[i] == layout[i + 1]);
        }
        lemma_joined_elements_are_laid_out(elements.skip(1), others);
        lemma_joined_elements_from_the_front(elements);
        let tail = from_blanks(others, Seq::empty());
        assert(from_element(layout, Seq::empty()) =~= first.value + (seq![0x2cu8] + tail));
        assert(joined_elements(elements).push(0x5d) =~= from_blanks(layout, Seq::empty()));
    }
}

/// The text of an object with these members is an opening brace, the keys and values with their
/// colons and commas, and a closing brace.
pub proof fn an_object_is_written_without_blanks(
    members: Seq<(Seq<u8>, Seq<u8>)>,
    layout: Seq<LaidMember>,
)
    requires
        writes_members(layout, members),
    ensures
        object_text(members) == object_laid_out(Seq::empty(), Seq::empty(), layout, Seq::empty()),
{
    if members.len() > 0 {
        lemma_joined_members_are_laid_out(members, layout);
    }
    assert(object_text(members) =~= object_laid_out(
        Seq::empty(),
        Seq::empty(),
        layout,
        Seq::empty(),
    ));
}

/// The text of an array with these elements is an opening bracket, the elements with commas
/// between them, and a closing bracket.
pub proof fn an_array_is_written_without_blanks(elements: Seq<Seq<u8>>, layout: Seq<LaidElement>)
    requires
        writes_elements(layout, elements),
    ensures
        array_text(elements) == array_laid_out(Seq::empty(), Seq::empty(), layout, Seq::empty()),
{
    if elements.len() > 0 {
        lemma_joined_elements_are_laid_out(elements, layout);
    }
    assert(array_text(elements) =~= array_laid_out(
        Seq::empty(),
        Seq::empty(),
        layout,
        Seq::empty(),
    ));
}

/// The layout has the keys of `members`, in order. A value whose key is that of the first step is
/// cut along the rest of the path, and every other value stands as it was.
pub open spec fn keeps_members(
    layout: Seq<LaidMember>,
    members: Seq<(Seq<u8>, Seq<u8>)>,
    path: Seq<Step>,
) -> bool {
    &&& layout.len() == members.len()
    &&& forall|i: int|
        0 <= i < layout.len() ==> {
            &&& is_tight(#[trigger] layout[i])
            &&& layout[i].key == members[i].0
            &&& json_string(members[i].0) == Some(path[0].key@) ==> layout[i].value == cut(
                members[i].1,
                path.skip(1),
            )
            &&& json_string(members[i].0) != Some(path[0].key@) ==> layout[i].value == members[i].1
        }
}

/// Cutting into an object keeps every member, its key and its place, and changes no value but those
/// under the key of the first step.
pub proof fn cutting_into_an_object_keeps_its_other_members(
    text: Seq<u8>,
    path: Seq<Step>,
    layout: Seq<LaidMember>,
)
    requires
        path.len() > 0,
    ensures
        (raw_members_of(text) matches Some(members) && keeps_members(layout, members, path)) ==> cut(
            text,
            path,
        ) == object_laid_out(Seq::empty(), Seq::empty(), layout, Seq::empty()),
{
    if let Some(members) = raw_members_of(text) {
        if keeps_members(layout, members, path) {
            let changed = cut_members(members, path);
            assert forall|i: int| 0 <= i < layout.len() implies is_tight(#[trigger] layout[i])
                && layout[i].key == changed[i].0 && layout[i].value == changed[i].1 by {}
            an_object_is_written_without_blanks(changed, layout);
        }
    }
}

/// The layout has `elements`, in order, but for the one at `step.index`, which is cut along the
/// rest of the path.
pub open spec fn keeps_elements(
    layout: Seq<LaidElement>,
    elements: Seq<Seq<u8>>,
    path: Seq<Step>,
) -> bool {
    &&& layout.len() == elements.len()
    &&& forall|i: int|
        0 <= i < layout.len() ==> {
            &&& (#[trigger] layout[i]).before.len() == 0
            &&& layout[i].after.len() == 0
            &&& i == path[0].index ==> layout[i].value == cut(elements[i], path.skip(1))
            &&& i != path[0].index ==> layout[i].value == elements[i]
        }
}

/// Cutting into an array keeps every element and its place, and changes none but the one that the
/// first step leads to. An array that the step does not lead into stands as it was.
pub proof fn cutting_into_an_array_keeps_its_other_elements(
    text: Seq<u8>,
    path: Seq<Step>,
    layout: Seq<LaidElement>,
)
    requires
        path.len() > 0,
    ensures
        (elements_of(text) matches Some(elements) && path[0].index < elements.len() && path[0].least
            <= elements.len() <= path[0].most && keeps_elements(layout, elements, path)) ==> cut(
            text,
            path,
        ) == array_laid_out(Seq::empty(), Seq::empty(), layout, Seq::empty()),
        (elements_of(text) matches Some(elements) && !(path[0].index < elements.len() && path[0].least
            <= elements.len() <= path[0].most)) ==> cut(text, path) == text,
{
    if let Some(elements) = elements_of(text) {
        assert(raw_members_of(text) is None);
        let step = path[0];
        if step.index < elements.len() && step.least <= elements.len() <= step.most && keeps_elements(
            layout,
            elements,
            path,
        ) {
            let changed = elements.update(
                step.index as int,
                cut(elements[step.index as int], path.skip(1)),
            );
            assert forall|i: int| 0 <= i < layout.len() implies (#[trigger] layout[i]).before.len() == 0
                && layout[i].after.len() == 0 && layout[i].value == changed[i] by {}
            an_array_is_written_without_blanks(changed, layout);
        }
    }
}

/// What is neither an object nor an array stands as it was, and what a path ends at is `null`.
pub proof fn cutting_ends_in_null_or_changes_nothing(text: Seq<u8>, path: Seq<Step>)
    ensures
        path.len() == 0 ==> cut(text, path) == seq![0x6eu8, 0x75, 0x6c, 0x6c],
        path.len() > 0 && raw_members_of(text) is None && elements_of(text) is None ==> cut(text, path)
            == text,
{
    assert(null_text() =~= seq![0x6eu8, 0x75, 0x6c, 0x6c]);
}

/// Two events are cut out of an event: the one that replaces it, and the one that replaces its
/// redaction. The text of an event stands alone exactly if it is what these cuts leave.
pub proof fn a_standalone_text_lacks_the_replacements_alone(alone: Standalone<'_>)
    ensures
        alone.well_formed() <==> alone.text@ == without_replacements(alone.event@),
        without_replacements(alone.event@) == cut(
            cut(
                encode_utf8(alone.event@),
                seq![
                    (Step { key: "unsigned", index: 0, least: 1, most: 0 }),
                    (Step { key: "m.relations", index: 2, least: 3, most: usize::MAX }),
                    (Step { key: "m.replace", index: 0, least: 3, most: 3 }),
                ],
            ),
            seq![
                (Step { key: "unsigned", index: 0, least: 1, most: 0 }),
                (Step { key: "redacted_because", index: 0, least: 1, most: usize::MAX }),
                (Step { key: "unsigned", index: 4, least: 5, most: usize::MAX }),
                (Step { key: "m.relations", index: 2, least: 3, most: usize::MAX }),
                (Step { key: "m.replace", index: 0, least: 3, most: 3 }),
            ],
        ),
{
}

} // verus!
