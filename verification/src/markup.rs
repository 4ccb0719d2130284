//! HTML text: escaping of untrusted text and `div` elements with attributes.

use build_html::{Container, ContainerType, Html, HtmlContainer};
use vstd::prelude::*;

verus! {

/// What one character of text becomes inside markup.
pub open spec fn escaped_char(c: char) -> Seq<char> {
    if c == '"' {
        seq!['&', 'q', 'u', 'o', 't', ';']
    } else if c == '\'' {
        seq!['&', '#', '3', '9', ';']
    } else if c == '&' {
        seq!['&', 'a', 'm', 'p', ';']
    } else if c == '<' {
        seq!['&', 'l', 't', ';']
    } else if c == '>' {
        seq!['&', 'g', 't', ';']
    } else {
        seq![c]
    }
}

/// Text with every markup-significant character replaced by its entity.
pub open spec fn escaped(text: Seq<char>) -> Seq<char>
    decreases text.len(),
{
    if text.len() == 0 {
        Seq::empty()
    } else {
        escaped(text.drop_last()) + escaped_char(text.last())
    }
}

/// Whether `c` can open or close a tag, or end an attribute value.
pub open spec fn is_markup_char(c: char) -> bool {
    c == '<' || c == '>' || c == '"' || c == '\''
}

/// Escaped text holds no character that could open or close a tag or end an
/// attribute value, whatever the text was.
pub proof fn lemma_escaped_is_inert(text: Seq<char>)
    ensures
        forall|i: int| 0 <= i < escaped(text).len() ==> !is_markup_char(#[trigger] escaped(text)[i]),
    decreases text.len(),
{
    if text.len() > 0 {
        lemma_escaped_is_inert(text.drop_last());
        let front = escaped(text.drop_last());
        let back = escaped_char(text.last());
        assert forall|i: int| 0 <= i < escaped(text).len() implies !is_markup_char(
            #[trigger] escaped(text)[i],
        ) by {
            if i < front.len() {
                assert(escaped(text)[i] == front[i]);
            } else {
                assert(escaped(text)[i] == back[i - front.len()]);
            }
        }
    }
}

/// Whether escaping replaces `c` by an entity.
pub open spec fn is_escaped_char(c: char) -> bool {
    c == '"' || c == '\'' || c == '&' || c == '<' || c == '>'
}

/// Text that holds none of the five replaced characters is its own escaped
/// form.
pub proof fn lemma_escaped_plain(text: Seq<char>)
    requires
        forall|i: int| 0 <= i < text.len() ==> !is_escaped_char(#[trigger] text[i]),
    ensures
        escaped(text) == text,
    decreases text.len(),
{
    if text.len() > 0 {
        assert(!is_escaped_char(text[text.len() - 1]));
        assert forall|i: int| 0 <= i < text.drop_last().len() implies !is_escaped_char(
            #[trigger] text.drop_last()[i],
        ) by {
            assert(!is_escaped_char(text[i]));
        }
        lemma_escaped_plain(text.drop_last());
        assert(text.drop_last() + seq![text.last()] =~= text);
    }
}

/// One attribute as it stands inside an opening tag.
pub open spec fn attribute_text(name: Seq<char>, value: Seq<char>) -> Seq<char> {
    seq![' '] + name + seq!['=', '"'] + value + seq!['"']
}

/// All attributes of an opening tag, in the order given.
pub open spec fn attributes_text(attributes: Seq<(Seq<char>, Seq<char>)>) -> Seq<char>
    decreases attributes.len(),
{
    if attributes.len() == 0 {
        Seq::empty()
    } else {
        attributes_text(attributes.drop_last()) + attribute_text(
            attributes.last().0,
            attributes.last().1,
        )
    }
}

/// A `div` element with the given attributes around the given content.
pub open spec fn div_text(attributes: Seq<(Seq<char>, Seq<char>)>, content: Seq<char>) -> Seq<
    char,
> {
    seq!['<', 'd', 'i', 'v'] + attributes_text(attributes) + seq!['>'] + content + seq![
        '<',
        '/',
        'd',
        'i',
        'v',
        '>',
    ]
}

/// Attribute pairs as plain sequences of characters.
pub open spec fn pairs(attributes: Seq<(String, String)>) -> Seq<(Seq<char>, Seq<char>)> {
    Seq::new(attributes.len(), |i: int| (attributes[i].0@, attributes[i].1@))
}

/// `build_html::escape_html`. Trusted: it walks the text once and replaces
/// `"`, `'`, `&`, `<` and `>` by their entities, keeping every other
/// character.
#[verifier::external_body]
pub(crate) fn escape(text: &str) -> (safe: String)
    ensures
        safe@ == escaped(text@),
{
    build_html::escape_html(text)
}

/// A `build_html::Container` of type `Div`, given its attributes and one raw
/// child, rendered with `to_html_string`. Trusted: the element is written
/// as the opening tag with each attribute as ` name="value"` in the order
/// given, the content as it is, and the closing tag.
#[verifier::external_body]
pub(crate) fn div(attributes: &Vec<(String, String)>, content: &str) -> (html: String)
    ensures
        html@ == div_text(pairs(attributes@), content@),
{
    Container::new(ContainerType::Div)
        .with_attributes(attributes.clone())
        .with_raw(content)
        .to_html_string()
}

} // verus!
