//! The parts of a page as the HTML rewriter hands them to its handlers: start
//! tags with their attributes, end tags, and chunks of text.
//!
//! What a handler reads and changes is stated over a few specification
//! functions: the attributes of an element are a list of pairs of name and
//! value, in the order of the source.

use lol_html::html_content::{ContentType, Element, EndTag, TextChunk};
use vstd::prelude::*;
use crate::text::ascii_lowercase;

verus! {

#[verifier::external_type_specification]
#[verifier::external_body]
pub struct ExElement<'r, 't>(Element<'r, 't>);

#[verifier::external_type_specification]
#[verifier::external_body]
pub struct ExEndTag<'i>(EndTag<'i>);

#[verifier::external_type_specification]
#[verifier::external_body]
pub struct ExTextChunk<'i>(TextChunk<'i>);

/// The attributes of an element, each as name and value. The names are in
/// lower case.
pub type Attributes = Seq<(Seq<char>, Seq<char>)>;

/// The tag name of an element, in lower case.
pub uninterp spec fn tag_of(e: Element<'_, '_>) -> Seq<char>;

/// The attributes of an element, in their order.
pub uninterp spec fn attributes_of(e: Element<'_, '_>) -> Attributes;

/// Whether an element has been removed, together with what it holds.
pub uninterp spec fn is_removed(e: Element<'_, '_>) -> bool;

/// Whether an element can hold content, that is, has an end tag.
pub uninterp spec fn holds_content(e: Element<'_, '_>) -> bool;

/// The markup that handlers have put right behind the start tag of an element.
pub uninterp spec fn prepended(e: Element<'_, '_>) -> Seq<char>;

/// The markup that handlers have put right before the end tag of an element.
pub uninterp spec fn appended(e: Element<'_, '_>) -> Seq<char>;

/// The markup that handlers have put right before an end tag.
pub uninterp spec fn put_before(t: EndTag<'_>) -> Seq<char>;

/// The markup that handlers have put right behind an end tag.
pub uninterp spec fn put_behind(t: EndTag<'_>) -> Seq<char>;

/// The text of a chunk.
pub uninterp spec fn chunk_text(t: TextChunk<'_>) -> Seq<char>;

/// Whether a chunk of text has been removed from the page.
pub uninterp spec fn chunk_removed(t: TextChunk<'_>) -> bool;

/// The place of the first attribute called `name`.
pub open spec fn position(attributes: Attributes, name: Seq<char>) -> Option<int>
    decreases attributes.len(),
{
    if attributes.len() == 0 {
        None
    } else if attributes[0].0 == name {
        Some(0)
    } else {
        match position(attributes.drop_first(), name) {
            Some(i) => Some(i + 1),
            None => None,
        }
    }
}

/// The value of the first attribute called `name`.
pub open spec fn value_of(attributes: Attributes, name: Seq<char>) -> Option<Seq<char>> {
    match position(attributes, name) {
        Some(i) => Some(attributes[i].1),
        None => None,
    }
}

/// A text as it is read back after it was stored in an attribute: a
/// byte-order mark at its start, U+FEFF, is taken for a mark of the encoding
/// and is not part of what is read; one such mark is dropped.
pub open spec fn as_read(text: Seq<char>) -> Seq<char> {
    if text.len() > 0 && text[0] == '\u{feff}' {
        text.drop_first()
    } else {
        text
    }
}

/// The attributes after `name` was set to `value`: the first attribute of
/// that name gets the value, or a new attribute comes last. Name and value
/// are there as they are read back.
pub open spec fn with_attribute(attributes: Attributes, name: Seq<char>, value: Seq<char>) -> Attributes {
    match position(attributes, name) {
        Some(i) => attributes.update(i, (name, as_read(value))),
        None => attributes.push((as_read(name), as_read(value))),
    }
}

/// A text that does not begin with a byte-order mark is read back as it was
/// stored; so is every plain name.
pub proof fn read_as_stored(text: Seq<char>)
    requires
        text.len() == 0 || text[0] != '\u{feff}',
    ensures
        as_read(text) == text,
{
}

/// The attributes without the first one called `name`.
pub open spec fn without_attribute(attributes: Attributes, name: Seq<char>) -> Attributes {
    match position(attributes, name) {
        Some(i) => attributes.remove(i),
        None => attributes,
    }
}

/// Characters that cannot stand in the name of an attribute.
pub open spec fn is_forbidden_in_name(c: char) -> bool {
    c == ' ' || c == '\n' || c == '\r' || c == '\t' || c == '\x0C' || c == '/' || c == '>' || c == '='
}

/// Names that every element takes for a new attribute: not empty, ASCII
/// only, and without a forbidden character.
pub open spec fn is_plain_name(name: Seq<char>) -> bool {
    &&& name.len() > 0
    &&& forall|i: int| 0 <= i < name.len() ==> (#[trigger] name[i] as u32) < 128 && !is_forbidden_in_name(name[i])
}

/// Whether two elements differ in nothing but their attributes.
pub open spec fn same_but_attributes(a: Element<'_, '_>, b: Element<'_, '_>) -> bool {
    &&& tag_of(a) == tag_of(b)
    &&& is_removed(a) == is_removed(b)
    &&& holds_content(a) == holds_content(b)
    &&& prepended(a) == prepended(b)
    &&& appended(a) == appended(b)
}

/// `position` finds the first attribute of the name, and nothing before it has
/// the name.
pub proof fn position_is_first(attributes: Attributes, name: Seq<char>)
    ensures
        match position(attributes, name) {
            Some(i) => 0 <= i < attributes.len() && attributes[i].0 == name && forall|j: int|
                0 <= j < i ==> (#[trigger] attributes[j]).0 != name,
            None => forall|j: int| 0 <= j < attributes.len() ==> (#[trigger] attributes[j]).0 != name,
        },
    decreases attributes.len(),
{
    if attributes.len() > 0 && attributes[0].0 != name {
        let rest = attributes.drop_first();
        position_is_first(rest, name);
        match position(rest, name) {
            Some(i) => {
                assert forall|j: int| 0 <= j < i + 1 implies (#[trigger] attributes[j]).0 != name by {
                    if j > 0 {
                        assert(attributes[j] == rest[j - 1]);
                    }
                }
            },
            None => {
                assert forall|j: int| 0 <= j < attributes.len() implies (#[trigger] attributes[j]).0 != name by {
                    if j > 0 {
                        assert(attributes[j] == rest[j - 1]);
                    }
                }
            },
        }
    }
}

/// An index that holds the name, with nothing of that name before it, is the
/// position of the name.
pub proof fn first_is_position(attributes: Attributes, name: Seq<char>, i: int)
    requires
        0 <= i < attributes.len(),
        attributes[i].0 == name,
        forall|j: int| 0 <= j < i ==> (#[trigger] attributes[j]).0 != name,
    ensures
        position(attributes, name) == Some(i),
{
    position_is_first(attributes, name);
}

/// `Element::tag_name`: the name of the tag, in lower case.
#[verifier::external_body]
pub(crate) fn tag_name(element: &Element<'_, '_>) -> (name: String)
    ensures
        name@ == tag_of(*element),
{
    element.tag_name()
}

/// `Element::attributes`, each attribute by `Attribute::name` and
/// `Attribute::value`: the attributes in their order, the names in lower case.
#[verifier::external_body]
pub(crate) fn attributes(element: &Element<'_, '_>) -> (list: Vec<(String, String)>)
    ensures
        list@.len() == attributes_of(*element).len(),
        forall|i: int|
            0 <= i < list@.len() ==> {
                &&& (#[trigger] list@[i]).0@ == attributes_of(*element)[i].0
                &&& list@[i].1@ == attributes_of(*element)[i].1
                &&& ascii_lowercase(list@[i].0@) == list@[i].0@
            },
{
    element.attributes().iter().map(|a| (a.name(), a.value())).collect()
}

/// `Element::get_attribute`: the value of the first attribute whose name is
/// `name` in lower case.
#[verifier::external_body]
pub(crate) fn get_attribute(element: &Element<'_, '_>, name: &str) -> (value: Option<String>)
    ensures
        match value_of(attributes_of(*element), ascii_lowercase(name@)) {
            Some(v) => value matches Some(s) && s@ == v,
            None => value is None,
        },
{
    element.get_attribute(name)
}

/// `Element::has_attribute`: whether an attribute has the name `name` in
/// lower case.
#[verifier::external_body]
pub(crate) fn has_attribute(element: &Element<'_, '_>, name: &str) -> (found: bool)
    ensures
        found == position(attributes_of(*element), ascii_lowercase(name@)) is Some,
{
    element.has_attribute(name)
}

/// `Element::set_attribute`, in a page that is read as UTF-8: the first
/// attribute whose name is `name` in lower case gets the value; where there is
/// none, a new attribute comes last, unless the name is refused. A plain name
/// is never refused. What `Attribute::name` and `Attribute::value` read back
/// is the stored text without a byte-order mark at its start.
#[verifier::external_body]
pub(crate) fn set_attribute(element: &mut Element<'_, '_>, name: &str, value: &str) -> (done: bool)
    ensures
        same_but_attributes(*old(element), *final(element)),
        done ==> attributes_of(*final(element)) == with_attribute(
            attributes_of(*old(element)),
            ascii_lowercase(name@),
            value@,
        ),
        !done ==> attributes_of(*final(element)) == attributes_of(*old(element)),
        position(attributes_of(*old(element)), ascii_lowercase(name@)) is Some || is_plain_name(
            ascii_lowercase(name@),
        ) ==> done,
{
    element.set_attribute(name, value).is_ok()
}

/// `Element::remove_attribute`: drops the first attribute whose name is `name`
/// in lower case.
#[verifier::external_body]
pub(crate) fn remove_attribute(element: &mut Element<'_, '_>, name: &str)
    ensures
        same_but_attributes(*old(element), *final(element)),
        attributes_of(*final(element)) == without_attribute(attributes_of(*old(element)), ascii_lowercase(name@)),
{
    element.remove_attribute(name)
}

/// `Element::prepend` with markup: puts it right behind the start tag, before
/// what was put there earlier. An element without content is left as it is.
#[verifier::external_body]
pub(crate) fn prepend(element: &mut Element<'_, '_>, markup: &str)
    ensures
        tag_of(*final(element)) == tag_of(*old(element)),
        attributes_of(*final(element)) == attributes_of(*old(element)),
        is_removed(*final(element)) == is_removed(*old(element)),
        holds_content(*final(element)) == holds_content(*old(element)),
        appended(*final(element)) == appended(*old(element)),
        prepended(*final(element)) == if holds_content(*old(element)) {
            markup@ + prepended(*old(element))
        } else {
            prepended(*old(element))
        },
{
    element.prepend(markup, ContentType::Html)
}

/// `Element::append` with markup: puts it right before the end tag, behind
/// what was put there earlier. An element without content is left as it is.
#[verifier::external_body]
pub(crate) fn append(element: &mut Element<'_, '_>, markup: &str)
    ensures
        tag_of(*final(element)) == tag_of(*old(element)),
        attributes_of(*final(element)) == attributes_of(*old(element)),
        is_removed(*final(element)) == is_removed(*old(element)),
        holds_content(*final(element)) == holds_content(*old(element)),
        prepended(*final(element)) == prepended(*old(element)),
        appended(*final(element)) == if holds_content(*old(element)) {
            appended(*old(element)) + markup@
        } else {
            appended(*old(element))
        },
{
    element.append(markup, ContentType::Html)
}

/// `Element::remove`: removes the element with its content, and with what was
/// put behind its start tag and before its end tag. The handlers for its end
/// tag stay.
#[verifier::external_body]
pub(crate) fn remove(element: &mut Element<'_, '_>)
    ensures
        tag_of(*final(element)) == tag_of(*old(element)),
        attributes_of(*final(element)) == attributes_of(*old(element)),
        holds_content(*final(element)) == holds_content(*old(element)),
        crate::rewriter::end_calls(*final(element)) == crate::rewriter::end_calls(*old(element)),
        is_removed(*final(element)),
        holds_content(*old(element)) ==> prepended(*final(element)) == Seq::<char>::empty() && appended(
            *final(element),
        ) == Seq::<char>::empty(),
        !holds_content(*old(element)) ==> prepended(*final(element)) == prepended(*old(element)) && appended(
            *final(element),
        ) == appended(*old(element)),
{
    element.remove()
}

/// `EndTag::before` with markup: puts it right before the end tag, behind what
/// was put there earlier.
#[verifier::external_body]
pub(crate) fn put_before_end(tag: &mut EndTag<'_>, markup: &str)
    ensures
        put_before(*final(tag)) == put_before(*old(tag)) + markup@,
        put_behind(*final(tag)) == put_behind(*old(tag)),
{
    tag.before(markup, ContentType::Html)
}

/// `EndTag::after` with markup: puts it right behind the end tag, before what
/// was put there earlier.
#[verifier::external_body]
pub(crate) fn put_behind_end(tag: &mut EndTag<'_>, markup: &str)
    ensures
        put_behind(*final(tag)) == markup@ + put_behind(*old(tag)),
        put_before(*final(tag)) == put_before(*old(tag)),
{
    tag.after(markup, ContentType::Html)
}

/// `TextChunk::as_str`: the text of the chunk.
#[verifier::external_body]
pub(crate) fn text_of<'a>(chunk: &'a TextChunk<'_>) -> (text: &'a str)
    ensures
        text@ == chunk_text(*chunk),
{
    chunk.as_str()
}

/// `TextChunk::remove`: takes the chunk out of the page.
#[verifier::external_body]
pub(crate) fn remove_text(chunk: &mut TextChunk<'_>)
    ensures
        chunk_removed(*final(chunk)),
        chunk_text(*final(chunk)) == chunk_text(*old(chunk)),
{
    chunk.remove()
}

} // verus!
