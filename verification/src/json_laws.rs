//! What the lists of members and of elements have to do with the JSON text that they come from.
//!
//! A layout says how an object or an array is written down: each text that is one value, and the
//! blanks around it. The laws relate a text that is put together from a layout to the list of
//! what the layout holds, both ways.

use vstd::prelude::*;

use crate::json::{
    closes_with, elements_from, elements_of, is_blank, json_string, json_value_end,
    lemma_member_is_consumed, lemma_value_is_consumed, members_from, members_of, null_text,
    raw_members_of, raw_views, split_member, split_value, texts, trimmed, views, Member, RawMember,
};

verus! {

/// Spaces, line feeds, tabs and carriage returns, and nothing else.
pub open spec fn blank(bytes: Seq<u8>) -> bool {
    forall|i: int|
        0 <= i < bytes.len() ==> (#[trigger] bytes[i] == 0x20 || bytes[i] == 0x0a || bytes[i] == 0x09
            || bytes[i] == 0x0d)
}

/// `text` starts with `value`, which is where the first JSON value of `text` ends.
pub open spec fn starts_with_value(text: Seq<u8>, value: Seq<u8>) -> bool {
    &&& 0 < value.len() <= text.len()
    &&& text.take(value.len() as int) == value
    &&& !blank(seq![value[0]])
    &&& json_value_end(text) matches Some(n) && n == value.len()
}

/// How a member is written down.
pub struct LaidMember {
    /// The blanks before the key.
    pub before_key: Seq<u8>,
    /// The text of the key.
    pub key: Seq<u8>,
    /// The blanks between the key and the colon.
    pub after_key: Seq<u8>,
    /// The blanks between the colon and the value.
    pub before_value: Seq<u8>,
    /// The text of the value.
    pub value: Seq<u8>,
    /// The blanks behind the value.
    pub after_value: Seq<u8>,
}

/// The text from the value of the first member on, up to the closing brace and `trail`.
pub open spec fn from_value(layout: Seq<LaidMember>, trail: Seq<u8>) -> Seq<u8>
    decreases layout.len(), 0nat,
{
    if layout.len() == 0 {
        trail
    } else if layout.len() == 1 {
        layout[0].value + (layout[0].after_value + (seq![0x7du8] + trail))
    } else {
        layout[0].value + (layout[0].after_value + (seq![0x2cu8] + from_start(layout.skip(1), trail)))
    }
}

/// The text from the key of the first member on.
pub open spec fn from_key(layout: Seq<LaidMember>, trail: Seq<u8>) -> Seq<u8>
    decreases layout.len(), 1nat,
{
    if layout.len() == 0 {
        trail
    } else {
        layout[0].key + (layout[0].after_key + (seq![0x3au8] + (layout[0].before_value + from_value(
            layout,
            trail,
        ))))
    }
}

/// The text from the blanks before the key of the first member on.
pub open spec fn from_start(layout: Seq<LaidMember>, trail: Seq<u8>) -> Seq<u8>
    decreases layout.len(), 2nat,
{
    if layout.len() == 0 {
        trail
    } else {
        layout[0].before_key + from_key(layout, trail)
    }
}

/// Every key and every value is one JSON value where it stands, with nothing but blanks around
/// it.
pub open spec fn members_laid_out(layout: Seq<LaidMember>, trail: Seq<u8>) -> bool
    decreases layout.len(),
{
    if layout.len() == 0 {
        blank(trail)
    } else {
        &&& blank(layout[0].before_key)
        &&& blank(layout[0].after_key)
        &&& blank(layout[0].before_value)
        &&& blank(layout[0].after_value)
        &&& starts_with_value(from_key(layout, trail), layout[0].key)
        &&& starts_with_value(from_value(layout, trail), layout[0].value)
        &&& members_laid_out(layout.skip(1), trail)
    }
}

/// The text of an object: `lead`, the opening brace, the members, or `inner` if there are none,
/// the closing brace, and `trail`.
pub open spec fn object_laid_out(
    lead: Seq<u8>,
    inner: Seq<u8>,
    layout: Seq<LaidMember>,
    trail: Seq<u8>,
) -> Seq<u8> {
    lead + (seq![0x7bu8] + if layout.len() == 0 {
        inner + (seq![0x7du8] + trail)
    } else {
        from_start(layout, trail)
    })
}

/// The keys and the values that are written down, in order, and nothing else.
pub open spec fn lists_members(members: Seq<(Seq<u8>, Seq<u8>)>, layout: Seq<LaidMember>) -> bool {
    &&& members.len() == layout.len()
    &&& forall|i: int|
        0 <= i < layout.len() ==> #[trigger] members[i] == (layout[i].key, layout[i].value)
}

/// How an element is written down.
pub struct LaidElement {
    /// The blanks before the value.
    pub before: Seq<u8>,
    /// The text of the value.
    pub value: Seq<u8>,
    /// The blanks behind the value.
    pub after: Seq<u8>,
}

/// The text from the value of the first element on, up to the closing bracket and `trail`.
pub open spec fn from_element(layout: Seq<LaidElement>, trail: Seq<u8>) -> Seq<u8>
    decreases layout.len(), 0nat,
{
    if layout.len() == 0 {
        trail
    } else if layout.len() == 1 {
        layout[0].value + (layout[0].after + (seq![0x5du8] + trail))
    } else {
        layout[0].value + (layout[0].after + (seq![0x2cu8] + from_blanks(layout.skip(1), trail)))
    }
}

/// The text from the blanks before the first element on.
pub open spec fn from_blanks(layout: Seq<LaidElement>, trail: Seq<u8>) -> Seq<u8>
    decreases layout.len(), 1nat,
{
    if layout.len() == 0 {
        trail
    } else {
        layout[0].before + from_element(layout, trail)
    }
}

/// Every element is one JSON value where it stands, with nothing but blanks around it.
pub open spec fn elements_laid_out(layout: Seq<LaidElement>, trail: Seq<u8>) -> bool
    decreases layout.len(),
{
    if layout.len() == 0 {
        blank(trail)
    } else {
        &&& blank(layout[0].before)
        &&& blank(layout[0].after)
        &&& starts_with_value(from_element(layout, trail), layout[0].value)
        &&& elements_laid_out(layout.skip(1), trail)
    }
}

/// The text of an array: `lead`, the opening bracket, the elements, or `inner` if there are none,
/// the closing bracket, and `trail`.
pub open spec fn array_laid_out(
    lead: Seq<u8>,
    inner: Seq<u8>,
    layout: Seq<LaidElement>,
    trail: Seq<u8>,
) -> Seq<u8> {
    lead + (seq![0x5bu8] + if layout.len() == 0 {
        inner + (seq![0x5du8] + trail)
    } else {
        from_blanks(layout, trail)
    })
}

/// The values that are written down, in order, and nothing else.
pub open spec fn lists_elements(elements: Seq<Seq<u8>>, layout: Seq<LaidElement>) -> bool {
    &&& elements.len() == layout.len()
    &&& forall|i: int| 0 <= i < layout.len() ==> #[trigger] elements[i] == layout[i].value
}

/// Dropping the blanks that a text starts with drops them all, and nothing else.
pub proof fn trimming_drops_exactly_the_blanks(blanks: Seq<u8>, rest: Seq<u8>)
    requires
        blank(blanks),
        rest.len() == 0 || !blank(seq![rest[0]]),
    ensures
        trimmed(blanks + rest) == rest,
    decreases blanks.len(),
{
    if blanks.len() == 0 {
        assert(blanks + rest =~= rest);
        if rest.len() > 0 {
            assert(!is_blank(rest[0])) by {
                if is_blank(rest[0]) {
                    assert(blank(seq![rest[0]]));
                }
            }
        }
    } else {
        assert((blanks + rest)[0] == blanks[0]);
        assert(is_blank(blanks[0]));
        assert((blanks + rest).skip(1) =~= blanks.skip(1) + rest);
        assert forall|i: int| 0 <= i < blanks.skip(1).len() implies (#[trigger] blanks.skip(1)[i] == 0x20
            || blanks.skip(1)[i] == 0x0a || blanks.skip(1)[i] == 0x09 || blanks.skip(1)[i] == 0x0d) by {
            assert(blanks.skip(1)[i] == blanks[i + 1]);
        }
        trimming_drops_exactly_the_blanks(blanks.skip(1), rest);
    }
}

/// What trimming drops is blank, and what is left does not start with a blank.
pub proof fn trimming_leaves_all_but_blanks(text: Seq<u8>) -> (blanks: Seq<u8>)
    ensures
        blank(blanks),
        text == blanks + trimmed(text),
        trimmed(text).len() == 0 || !blank(seq![trimmed(text)[0]]),
    decreases text.len(),
{
    if text.len() > 0 && is_blank(text[0]) {
        let others = trimming_leaves_all_but_blanks(text.skip(1));
        let blanks = seq![text[0]] + others;
        assert forall|i: int| 0 <= i < blanks.len() implies (#[trigger] blanks[i] == 0x20 || blanks[i]
            == 0x0a || blanks[i] == 0x09 || blanks[i] == 0x0d) by {
            if i > 0 {
                assert(blanks[i] == others[i - 1]);
            }
        }
        assert(text =~= seq![text[0]] + text.skip(1));
        assert(text =~= blanks + trimmed(text));
        blanks
    } else {
        if text.len() > 0 {
            let first = seq![text[0]];
            if blank(first) {
                assert(first[0] == text[0]);
                assert(is_blank(text[0]));
            }
        }
        assert(text =~= Seq::<u8>::empty() + text);
        Seq::empty()
    }
}

/// The first value of a text with blanks around it is split off as it stands.
proof fn lemma_split_off(blanks: Seq<u8>, text: Seq<u8>, value: Seq<u8>, after: Seq<u8>, rest: Seq<u8>)
    requires
        blank(blanks),
        blank(after),
        text == value + (after + rest),
        starts_with_value(text, value),
        rest.len() > 0,
        !blank(seq![rest[0]]),
    ensures
        split_value(blanks + text) == Some((value, rest)),
{
    assert(text[0] == value[0]) by {
        assert(text.take(value.len() as int)[0] == value[0]);
    }
    trimming_drops_exactly_the_blanks(blanks, text);
    assert(text.take(value.len() as int) =~= value);
    assert(text.skip(value.len() as int) =~= after + rest);
    trimming_drops_exactly_the_blanks(after, rest);
}

proof fn lemma_not_blank(byte: u8)
    requires
        byte != 0x20,
        byte != 0x0a,
        byte != 0x09,
        byte != 0x0d,
    ensures
        !blank(seq![byte]),
{
    let one = seq![byte];
    assert(one[0] == byte);
}

proof fn lemma_closes(bracket: u8, trail: Seq<u8>)
    requires
        blank(trail),
    ensures
        closes_with(seq![bracket] + trail, bracket),
{
    assert((seq![bracket] + trail).skip(1) =~= trail + Seq::<u8>::empty());
    trimming_drops_exactly_the_blanks(trail, Seq::empty());
}

proof fn lemma_members_from_layout(layout: Seq<LaidMember>, trail: Seq<u8>)
    requires
        layout.len() > 0,
        members_laid_out(layout, trail),
        blank(trail),
    ensures
        members_from(from_start(layout, trail)) matches Some(members) && lists_members(members, layout),
        members_from(from_key(layout, trail)) == members_from(from_start(layout, trail)),
    decreases layout.len(),
{
    let first = layout[0];
    let value_text = from_value(layout, trail);
    let rest = if layout.len() == 1 {
        seq![0x7du8] + trail
    } else {
        seq![0x2cu8] + from_start(layout.skip(1), trail)
    };
    assert(value_text == first.value + (first.after_value + rest));
    lemma_not_blank(0x7d);
    lemma_not_blank(0x2c);
    lemma_not_blank(0x3a);
    assert(rest[0] == (if layout.len() == 1 { 0x7du8 } else { 0x2cu8 }));
    lemma_split_off(first.before_value, value_text, first.value, first.after_value, rest);
    let colon = seq![0x3au8] + (first.before_value + value_text);
    assert(colon[0] == 0x3a);
    assert(colon.skip(1) =~= first.before_value + value_text);
    lemma_split_off(first.before_key, from_key(layout, trail), first.key, first.after_key, colon);
    lemma_split_off(Seq::empty(), from_key(layout, trail), first.key, first.after_key, colon);
    assert(Seq::<u8>::empty() + from_key(layout, trail) =~= from_key(layout, trail));
    assert(split_member(from_start(layout, trail)) == Some((first.key, first.value, rest)));
    assert(split_member(from_key(layout, trail)) == Some((first.key, first.value, rest)));
    if layout.len() == 1 {
        lemma_closes(0x7d, trail);
    } else {
        assert(rest.skip(1) =~= from_start(layout.skip(1), trail));
        lemma_members_from_layout(layout.skip(1), trail);
        let others = members_from(rest.skip(1)).unwrap();
        let members = seq![(first.key, first.value)] + others;
        assert forall|i: int| 0 <= i < layout.len() implies #[trigger] members[i] == (
            layout[i].key,
            layout[i].value,
        ) by {
            if i > 0 {
                assert(members[i] == others[i - 1]);
                assert(layout.skip(1)[i - 1] == layout[i]);
            }
        }
    }
}

/// The blanks before the first key make no difference.
proof fn lemma_trimmed_members(text: Seq<u8>)
    ensures
        members_from(trimmed(text)) == members_from(text),
        elements_from(trimmed(text)) == elements_from(text),
{
    let _ = trimming_leaves_all_but_blanks(text);
    trimming_drops_exactly_the_blanks(Seq::empty(), trimmed(text));
    assert(Seq::<u8>::empty() + trimmed(text) =~= trimmed(text));
}

/// The blanks and the values that a text is split into make up the text.
proof fn lemma_split_makes_up(text: Seq<u8>) -> (blanks: (Seq<u8>, Seq<u8>))
    requires
        split_value(text) is Some,
    ensures
        blank(blanks.0),
        blank(blanks.1),
        split_value(text) matches Some((value, rest)) && {
            &&& text == blanks.0 + (value + (blanks.1 + rest))
            &&& starts_with_value(value + (blanks.1 + rest), value)
        },
{
    let before = trimming_leaves_all_but_blanks(text);
    let start = trimmed(text);
    let (value, rest) = split_value(text).unwrap();
    let n: int = value.len() as int;
    let after = trimming_leaves_all_but_blanks(start.skip(n));
    assert(start =~= start.take(n) + start.skip(n));
    assert(start == value + (after + rest));
    assert(value[0] == start[0]);
    (before, after)
}

proof fn lemma_closed(rest: Seq<u8>, bracket: u8)
    requires
        closes_with(rest, bracket),
    ensures
        rest == seq![bracket] + rest.skip(1),
        blank(rest.skip(1)),
{
    let blanks = trimming_leaves_all_but_blanks(rest.skip(1));
    assert(rest.skip(1) =~= blanks);
    assert(rest =~= seq![bracket] + rest.skip(1));
}

proof fn lemma_layout_of_members(text: Seq<u8>) -> (laid: (Seq<LaidMember>, Seq<u8>))
    requires
        members_from(text) is Some,
    ensures
        laid.0.len() > 0,
        text == from_start(laid.0, laid.1),
        members_laid_out(laid.0, laid.1),
        blank(laid.1),
        lists_members(members_from(text).unwrap(), laid.0),
    decreases text.len(),
{
    let (key, value, rest) = split_member(text).unwrap();
    let after = split_value(text).unwrap().1;
    let (before_key, after_key) = lemma_split_makes_up(text);
    let (before_value, after_value) = lemma_split_makes_up(after.skip(1));
    assert(after =~= seq![0x3au8] + after.skip(1));
    let first = LaidMember { before_key, key, after_key, before_value, value, after_value };
    if closes_with(rest, 0x7d) {
        lemma_closed(rest, 0x7d);
        let layout = seq![first];
        let trail = rest.skip(1);
        assert(layout[0] == first);
        assert(from_value(layout, trail) == value + (after_value + rest));
        assert(from_key(layout, trail) == key + (after_key + after));
        assert(members_laid_out(layout.skip(1), trail));
        (layout, trail)
    } else {
        lemma_member_is_consumed(text);
        let (others, trail) = lemma_layout_of_members(rest.skip(1));
        let layout = seq![first] + others;
        assert(layout[0] == first);
        assert(layout.skip(1) =~= others);
        assert(rest =~= seq![0x2cu8] + rest.skip(1));
        assert(from_value(layout, trail) == value + (after_value + rest));
        assert(from_key(layout, trail) == key + (after_key + after));
        let members = members_from(text).unwrap();
        assert forall|i: int| 0 <= i < layout.len() implies #[trigger] members[i] == (
            layout[i].key,
            layout[i].value,
        ) by {
            if i > 0 {
                assert(members[i] == members_from(rest.skip(1)).unwrap()[i - 1]);
                assert(layout[i] == others[i - 1]);
            }
        }
        (layout, trail)
    }
}

proof fn lemma_elements_from_layout(layout: Seq<LaidElement>, trail: Seq<u8>)
    requires
        layout.len() > 0,
        elements_laid_out(layout, trail),
        blank(trail),
    ensures
        elements_from(from_blanks(layout, trail)) matches Some(elements) && lists_elements(
            elements,
            layout,
        ),
    decreases layout.len(),
{
    let first = layout[0];
    let text = from_element(layout, trail);
    let rest = if layout.len() == 1 {
        seq![0x5du8] + trail
    } else {
        seq![0x2cu8] + from_blanks(layout.skip(1), trail)
    };
    lemma_not_blank(0x5d);
    lemma_not_blank(0x2c);
    assert(rest[0] == (if layout.len() == 1 { 0x5du8 } else { 0x2cu8 }));
    lemma_split_off(first.before, text, first.value, first.after, rest);
    assert(split_value(from_blanks(layout, trail)) == Some((first.value, rest)));
    if layout.len() == 1 {
        lemma_closes(0x5d, trail);
    } else {
        assert(rest.skip(1) =~= from_blanks(layout.skip(1), trail));
        lemma_elements_from_layout(layout.skip(1), trail);
        let others = elements_from(rest.skip(1)).unwrap();
        let elements = seq![first.value] + others;
        assert forall|i: int| 0 <= i < layout.len() implies #[trigger] elements[i]
            == layout[i].value by {
            if i > 0 {
                assert(elements[i] == others[i - 1]);
                assert(layout.skip(1)[i - 1] == layout[i]);
            }
        }
    }
}

proof fn lemma_layout_of_elements(text: Seq<u8>) -> (laid: (Seq<LaidElement>, Seq<u8>))
    requires
        elements_from(text) is Some,
    ensures
        laid.0.len() > 0,
        text == from_blanks(laid.0, laid.1),
        elements_laid_out(laid.0, laid.1),
        blank(laid.1),
        lists_elements(elements_from(text).unwrap(), laid.0),
    decreases text.len(),
{
    let (value, rest) = split_value(text).unwrap();
    let (before, after) = lemma_split_makes_up(text);
    let first = LaidElement { before, value, after };
    if closes_with(rest, 0x5d) {
        lemma_closed(rest, 0x5d);
        let layout = seq![first];
        let trail = rest.skip(1);
        assert(layout[0] == first);
        assert(from_element(layout, trail) == value + (after + rest));
        assert(elements_laid_out(layout.skip(1), trail));
        (layout, trail)
    } else {
        lemma_value_is_consumed(text);
        let (others, trail) = lemma_layout_of_elements(rest.skip(1));
        let layout = seq![first] + others;
        assert(layout[0] == first);
        assert(layout.skip(1) =~= others);
        assert(rest =~= seq![0x2cu8] + rest.skip(1));
        assert(from_element(layout, trail) == value + (after + rest));
        let elements = elements_from(text).unwrap();
        assert forall|i: int| 0 <= i < layout.len() implies #[trigger] elements[i]
            == layout[i].value by {
            if i > 0 {
                assert(elements[i] == elements_from(rest.skip(1)).unwrap()[i - 1]);
                assert(layout[i] == others[i - 1]);
            }
        }
        (layout, trail)
    }
}

/// What is written down as an object is read back as it was written: the members that the layout
/// holds, in order, whatever their keys and however many blanks stand around them.
pub proof fn an_object_is_read_as_it_is_laid_out(
    lead: Seq<u8>,
    inner: Seq<u8>,
    layout: Seq<LaidMember>,
    trail: Seq<u8>,
)
    requires
        blank(lead),
        blank(inner),
        blank(trail),
        layout.len() > 0 ==> layout[0].key.len() > 0 && layout[0].key[0] != 0x7d,
    ensures
        members_laid_out(layout, trail) ==> (raw_members_of(
            object_laid_out(lead, inner, layout, trail),
        ) matches Some(members) && lists_members(members, layout)),
{
    let text = object_laid_out(lead, inner, layout, trail);
    let body = if layout.len() == 0 {
        inner + (seq![0x7du8] + trail)
    } else {
        from_start(layout, trail)
    };
    let start = seq![0x7bu8] + body;
    lemma_not_blank(0x7b);
    assert(start[0] == 0x7b);
    trimming_drops_exactly_the_blanks(lead, start);
    assert(start.skip(1) =~= body);
    if layout.len() == 0 {
        lemma_not_blank(0x7d);
        assert((seq![0x7du8] + trail)[0] == 0x7d);
        trimming_drops_exactly_the_blanks(inner, seq![0x7du8] + trail);
        lemma_closes(0x7d, trail);
        assert(raw_members_of(text) == Some(Seq::<(Seq<u8>, Seq<u8>)>::empty()));
    } else if members_laid_out(layout, trail) {
        assert(from_key(layout, trail)[0] == layout[0].key[0]);
        trimming_drops_exactly_the_blanks(layout[0].before_key, from_key(layout, trail));
        lemma_members_from_layout(layout, trail);
    }
}

/// Whatever is read as an object is written down as one: the text is made up of the members that
/// are listed, each of them one value where it stands, and of the punctuation and blanks around
/// them.
pub proof fn what_is_read_as_an_object_is_laid_out_as_one(text: Seq<u8>) -> (laid: (
    Seq<u8>,
    Seq<u8>,
    Seq<LaidMember>,
    Seq<u8>,
))
    ensures
        raw_members_of(text) matches Some(members) ==> {
            &&& blank(laid.0) && blank(laid.1) && blank(laid.3)
            &&& text == object_laid_out(laid.0, laid.1, laid.2, laid.3)
            &&& members_laid_out(laid.2, laid.3)
            &&& lists_members(members, laid.2)
        },
{
    let lead = trimming_leaves_all_but_blanks(text);
    let start = trimmed(text);
    if raw_members_of(text) is Some {
        assert(start =~= seq![0x7bu8] + start.skip(1));
        let inner = trimming_leaves_all_but_blanks(start.skip(1));
        let body = trimmed(start.skip(1));
        if closes_with(body, 0x7d) {
            lemma_closed(body, 0x7d);
            (lead, inner, Seq::empty(), body.skip(1))
        } else {
            lemma_trimmed_members(start.skip(1));
            let (layout, trail) = lemma_layout_of_members(start.skip(1));
            (lead, Seq::empty(), layout, trail)
        }
    } else {
        (lead, Seq::empty(), Seq::empty(), Seq::empty())
    }
}

/// What is written down as an array is read back as it was written: the values that the layout
/// holds, in order, however many blanks stand around them.
pub proof fn an_array_is_read_as_it_is_laid_out(
    lead: Seq<u8>,
    inner: Seq<u8>,
    layout: Seq<LaidElement>,
    trail: Seq<u8>,
)
    requires
        blank(lead),
        blank(inner),
        blank(trail),
        layout.len() > 0 ==> layout[0].value.len() > 0 && layout[0].value[0] != 0x5d,
    ensures
        elements_laid_out(layout, trail) ==> (elements_of(
            array_laid_out(lead, inner, layout, trail),
        ) matches Some(elements) && lists_elements(elements, layout)),
{
    let text = array_laid_out(lead, inner, layout, trail);
    let body = if layout.len() == 0 {
        inner + (seq![0x5du8] + trail)
    } else {
        from_blanks(layout, trail)
    };
    let start = seq![0x5bu8] + body;
    lemma_not_blank(0x5b);
    assert(start[0] == 0x5b);
    trimming_drops_exactly_the_blanks(lead, start);
    assert(start.skip(1) =~= body);
    if layout.len() == 0 {
        lemma_not_blank(0x5d);
        assert((seq![0x5du8] + trail)[0] == 0x5d);
        trimming_drops_exactly_the_blanks(inner, seq![0x5du8] + trail);
        lemma_closes(0x5d, trail);
        assert(elements_of(text) == Some(Seq::<Seq<u8>>::empty()));
    } else if elements_laid_out(layout, trail) {
        assert(from_element(layout, trail)[0] == layout[0].value[0]);
        trimming_drops_exactly_the_blanks(layout[0].before, from_element(layout, trail));
        lemma_trimmed_members(from_blanks(layout, trail));
        lemma_elements_from_layout(layout, trail);
    }
}

/// Whatever is read as an array is written down as one.
pub proof fn what_is_read_as_an_array_is_laid_out_as_one(text: Seq<u8>) -> (laid: (
    Seq<u8>,
    Seq<u8>,
    Seq<LaidElement>,
    Seq<u8>,
))
    ensures
        elements_of(text) matches Some(elements) ==> {
            &&& blank(laid.0) && blank(laid.1) && blank(laid.3)
            &&& text == array_laid_out(laid.0, laid.1, laid.2, laid.3)
            &&& elements_laid_out(laid.2, laid.3)
            &&& lists_elements(elements, laid.2)
        },
{
    let lead = trimming_leaves_all_but_blanks(text);
    let start = trimmed(text);
    if elements_of(text) is Some {
        assert(start =~= seq![0x5bu8] + start.skip(1));
        let inner = trimming_leaves_all_but_blanks(start.skip(1));
        let body = trimmed(start.skip(1));
        if closes_with(body, 0x5d) {
            lemma_closed(body, 0x5d);
            (lead, inner, Seq::empty(), body.skip(1))
        } else {
            lemma_trimmed_members(start.skip(1));
            let (layout, trail) = lemma_layout_of_elements(start.skip(1));
            (lead, Seq::empty(), layout, trail)
        }
    } else {
        (lead, Seq::empty(), Seq::empty(), Seq::empty())
    }
}

/// Each key that is written down holds the key that is listed, and the value next to it is listed
/// with it.
pub open spec fn lists_decoded(members: Seq<(Seq<char>, Seq<u8>)>, raw: Seq<(Seq<u8>, Seq<u8>)>) -> bool {
    &&& members.len() == raw.len()
    &&& forall|i: int|
        0 <= i < raw.len() ==> json_string(raw[i].0) == Some((#[trigger] members[i]).0) && members[i].1
            == raw[i].1
}

/// An object has its members under their keys exactly if each of its keys can be decoded. Which
/// keys they are, and how often they occur, makes no difference.
pub proof fn every_member_is_listed_under_its_key(text: Seq<u8>)
    ensures
        members_of(text) matches Some(members) ==> (raw_members_of(text) matches Some(raw)
            && lists_decoded(members, raw)),
        raw_members_of(text) matches Some(raw) ==> members_of(text) is Some || exists|i: int|
            0 <= i < raw.len() && json_string((#[trigger] raw[i]).0) is None,
        raw_members_of(text) is None ==> members_of(text) is None,
{
}

/// The keys that are written down hold `keys`.
pub open spec fn holds_keys(layout: Seq<LaidMember>, keys: Seq<Seq<char>>) -> bool {
    &&& keys.len() == layout.len()
    &&& forall|i: int| 0 <= i < layout.len() ==> json_string(layout[i].key) == Some(#[trigger] keys[i])
}

/// An object that is written down with keys that can be decoded has exactly the members that were
/// written, in order: none is left out and none is refused, whatever it is called.
pub proof fn an_object_has_the_members_that_were_written(
    lead: Seq<u8>,
    inner: Seq<u8>,
    layout: Seq<LaidMember>,
    trail: Seq<u8>,
    keys: Seq<Seq<char>>,
)
    requires
        blank(lead),
        blank(inner),
        blank(trail),
        layout.len() > 0 ==> layout[0].key.len() > 0 && layout[0].key[0] != 0x7d,
    ensures
        members_laid_out(layout, trail) && holds_keys(layout, keys) ==> (members_of(
            object_laid_out(lead, inner, layout, trail),
        ) matches Some(members) && members.len() == layout.len() && forall|i: int|
            0 <= i < layout.len() ==> #[trigger] members[i] == (keys[i], layout[i].value)),
{
    if members_laid_out(layout, trail) && holds_keys(layout, keys) {
        let text = object_laid_out(lead, inner, layout, trail);
        an_object_is_read_as_it_is_laid_out(lead, inner, layout, trail);
        every_member_is_listed_under_its_key(text);
        let raw = raw_members_of(text).unwrap();
        assert forall|i: int| 0 <= i < raw.len() implies json_string((#[trigger] raw[i]).0) is Some by {
            assert(json_string(layout[i].key) == Some(keys[i]));
        }
        let members = members_of(text).unwrap();
        assert forall|i: int| 0 <= i < layout.len() implies #[trigger] members[i] == (
            keys[i],
            layout[i].value,
        ) by {
            assert(raw[i] == (layout[i].key, layout[i].value));
        }
    }
}

/// What is an object is no array.
pub proof fn an_object_is_no_array(text: Seq<u8>)
    ensures
        raw_members_of(text) is None || elements_of(text) is None,
{
}

/// `null` is the word of that name.
pub proof fn null_is_spelled_out()
    ensures
        null_text().len() == 4,
        null_text()[0] == 0x6e,
        null_text()[1] == 0x75,
        null_text()[2] == 0x6c,
        null_text()[3] == 0x6c,
{
}

/// A list of members stands for the key and the value of each, in order.
pub proof fn members_stand_for_their_keys_and_values(members: Seq<Member<'_>>, raw: Seq<RawMember<'_>>)
    ensures
        views(members).len() == members.len(),
        forall|i: int|
            0 <= i < members.len() ==> #[trigger] views(members)[i] == (
                members[i].key@,
                members[i].value@,
            ),
        raw_views(raw).len() == raw.len(),
        forall|i: int|
            0 <= i < raw.len() ==> #[trigger] raw_views(raw)[i] == (raw[i].key@, raw[i].value@),
{
}

/// A list of slices stands for the bytes of each, in order.
pub proof fn slices_stand_for_their_bytes(slices: Seq<&[u8]>)
    ensures
        texts(slices).len() == slices.len(),
        forall|i: int| 0 <= i < slices.len() ==> #[trigger] texts(slices)[i] == slices[i]@,
{
}

} // verus!
