//! Text as it appears in attribute values: character references, the method
//! of a form, escaping, and the search for URLs by pattern.

use vstd::prelude::*;
use vstd::utf8::{decode_utf8, encode_utf8, is_char_boundary};

verus! {

#[verifier::external_type_specification]
#[verifier::external_body]
pub struct ExRegex(regex::Regex);

/// `text` with its HTML character references replaced by the characters that
/// they stand for.
pub uninterp spec fn entity_decoded(text: Seq<char>) -> Seq<char>;

/// The pattern that a compiled expression was made from.
pub uninterp spec fn pattern_of(regex: regex::Regex) -> Seq<char>;

/// Whether `pattern` is an expression that can be compiled.
pub uninterp spec fn is_pattern(pattern: Seq<char>) -> bool;

/// For each match of `pattern` in `haystack`, in their order: where the capture
/// group called `group` stands, as byte offsets of its start and its end, or
/// nothing where the group took no part in the match.
pub uninterp spec fn group_spans(pattern: Seq<char>, group: Seq<char>, haystack: Seq<char>) -> Seq<
    Option<(int, int)>,
>;

/// The characters that the bytes from `from` up to `to` of a text encode.
pub open spec fn between(text: Seq<char>, from: int, to: int) -> Seq<char> {
    decode_utf8(encode_utf8(text).subrange(from, to))
}

/// Whether the bytes from `from` up to `to` of a text are a text themselves.
pub open spec fn is_slice(text: Seq<char>, from: int, to: int) -> bool {
    &&& 0 <= from <= to <= encode_utf8(text).len()
    &&& is_char_boundary(encode_utf8(text), from)
    &&& is_char_boundary(encode_utf8(text), to)
}

/// Characters of which the method of a request is made.
pub open spec fn is_method_char(c: char) -> bool {
    ||| c == '!'
    ||| c == '*'
    ||| c == '+'
    ||| c == '-'
    ||| c == '.'
    ||| '0' <= c <= '9'
    ||| 'A' <= c <= 'Z'
    ||| c == '^'
    ||| c == '_'
    ||| c == '`'
    ||| 'a' <= c <= 'z'
    ||| c == '|'
    ||| c == '~'
}

/// Whether `method` can be the method of a request.
pub open spec fn is_method(method: Seq<char>) -> bool {
    &&& method.len() > 0
    &&& forall|i: int| 0 <= i < method.len() ==> is_method_char(#[trigger] method[i])
}

/// One character as it stands in markup.
pub open spec fn escaped_char(c: char) -> Seq<char> {
    if c == '&' {
        "&amp;"@
    } else if c == '<' {
        "&lt;"@
    } else if c == '>' {
        "&gt;"@
    } else if c == '"' {
        "&quot;"@
    } else {
        seq![c]
    }
}

/// A text as it stands in markup and in attribute values.
pub open spec fn escaped(text: Seq<char>) -> Seq<char>
    decreases text.len(),
{
    if text.len() == 0 {
        Seq::empty()
    } else {
        escaped(text.drop_last()) + escaped_char(text.last())
    }
}

/// `htmlentity::entity::decode_to`, with the bytes read back as text: the
/// character references of `value` resolved.
#[verifier::external_body]
pub(crate) fn html_entity_decode(value: &str) -> (decoded: String)
    ensures
        decoded@ == entity_decoded(value@),
{
    let mut data = Vec::with_capacity(value.len());
    htmlentity::entity::decode_to(value.as_bytes(), &mut data);
    String::from_utf8_lossy(&data).into_owned()
}

/// `regex::Regex::new`: the compiled expression, where the pattern is one.
#[verifier::external_body]
pub(crate) fn compile(pattern: &str) -> (regex: Option<regex::Regex>)
    ensures
        (regex is Some) == is_pattern(pattern@),
        regex matches Some(r) ==> pattern_of(r) == pattern@,
{
    regex::Regex::new(pattern).ok()
}

/// `regex::Regex::captures_iter` with `regex::Captures::name` on each match:
/// where the group stands in each of the matches.
#[verifier::external_body]
pub(crate) fn find_group(regex: &regex::Regex, group: &str, haystack: &str) -> (spans: Vec<Option<(usize, usize)>>)
    ensures
        spans@.map_values(|s: Option<(usize, usize)>| as_int_span(s)) == group_spans(
            pattern_of(*regex),
            group@,
            haystack@,
        ),
{
    regex.captures_iter(haystack).map(|c| c.name(group).map(|m| (m.start(), m.end()))).collect()
}

/// A span of offsets as integers.
pub open spec fn as_int_span(span: Option<(usize, usize)>) -> Option<(int, int)> {
    match span {
        Some(s) => Some((s.0 as int, s.1 as int)),
        None => None,
    }
}

/// `str::get` with a range: the bytes from `from` up to `to` as a text, where
/// they are one.
#[verifier::external_body]
pub(crate) fn slice(text: &str, from: usize, to: usize) -> (part: Option<&str>)
    ensures
        (part is Some) == is_slice(text@, from as int, to as int),
        part matches Some(p) ==> p@ == between(text@, from as int, to as int),
{
    text.get(from..to)
}

/// `http::Method::from_str`, which the web framework hands on: whether the
/// text is not empty and made of method characters only.
#[verifier::external_body]
pub(crate) fn is_valid_method(method: &str) -> (valid: bool)
    ensures
        valid == is_method(method@),
{
    method.parse::<actix_web::http::Method>().is_ok()
}

/// `markup::Render::render` of a text: `&`, `<`, `>` and `"` are written as
/// character references, everything else as it is.
#[verifier::external_body]
pub(crate) fn escape(text: &str) -> (markup: String)
    ensures
        markup@ == escaped(text@),
{
    let mut out = String::with_capacity(text.len());
    let _ = markup::Render::render(text, &mut out);
    out
}

} // verus!
