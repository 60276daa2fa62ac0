//! The HTML sanitizer: what each handler does to the elements it is called for.

use lol_html::html_content::Element;
use vstd::prelude::*;
use crate::element::{
    append, appended, attributes, attributes_of, get_attribute, has_attribute, holds_content, is_plain_name,
    as_read, first_is_position, is_removed, position, position_is_first, prepend, prepended, remove, remove_attribute,
    same_but_attributes, set_attribute, tag_name, tag_of, value_of, with_attribute, without_attribute, Attributes,
};
use crate::html_text::{
    as_int_span, between, entity_decoded, escape, escaped, find_group, group_spans, html_entity_decode, is_method,
    is_slice, is_valid_method, pattern_of, slice,
};
use crate::rewrite_css::RewriteCssError;
use crate::rewrite_url::{rewrite_url, rewritten_url, serialization, RewriteUrlError};
use crate::text::{ascii_lowercase, lowercase_is_fixed, str_eq, to_ascii_lowercase, trim, trimmed};

verus! {

#[verifier::external_type_specification]
#[verifier::external_body]
pub struct ExRewritingError(lol_html::errors::RewritingError);

/// Why a page could not be rewritten.
#[derive(Debug)]
pub enum RewriteHtmlError {
    /// A reference in the page cannot be made a proxy URL.
    UrlRewrite(RewriteUrlError),
    /// An inline style cannot be rewritten.
    CssRewrite(RewriteCssError),
    /// The method of a form is no request method.
    Method,
    /// A `style` or `noscript` element has no end tag, or its text or end tag
    /// came without its start.
    EndTag,
    /// Rewritten content is not UTF-8.
    Utf8,
    /// A selector or a pattern of the sanitizer was refused, or what was found
    /// by pattern does not lie in the text.
    Pattern,
    /// The parser gave up on the page.
    Rewriting(lol_html::errors::RewritingError),
    /// The rewriter has failed before.
    Poisoned,
}

/// The attribute names that stay on an element.
pub const ALLOWED_ATTRIBUTES: [&'static str; 45] = [
    "abbr",
    "accesskey",
    "action",
    "align",
    "alt",
    "as",
    "autocomplete",
    "charset",
    "checked",
    "class",
    "content",
    "contenteditable",
    "csp",
    "dir",
    "disabled",
    "for",
    "frameborder",
    "height",
    "hidden",
    "href",
    "hreflang",
    "id",
    "lang",
    "loading",
    "media",
    "method",
    "name",
    "nowrap",
    "placeholder",
    "prefetch",
    "property",
    "rel",
    "sandbox",
    "scrolling",
    "sizes",
    "spellcheck",
    "src",
    "srcset",
    "tabindex",
    "target",
    "title",
    "translate",
    "type",
    "value",
    "width",
];

/// The attribute names with which a `meta` element stays.
pub const ALLOWED_META_ATTRIBUTES: [&'static str; 3] = ["charset", "content", "http-equiv"];

/// The values of `http-equiv` with which a `meta` element stays.
pub const ALLOWED_META_EQUIV_VALUES: [&'static str; 3] = ["content-type", "refresh", "x-ua-compatible"];

/// The values of `rel` with which a `link` element stays.
pub const ALLOWED_LINK_REL_VALUES: [&'static str; 7] = [
    "alternate stylesheet",
    "alternate",
    "help",
    "icon",
    "license",
    "shortcut icon",
    "stylesheet",
];

/// The elements that are removed with everything in them.
pub const REMOVED_TAGS: [&'static str; 7] = ["applet", "base", "canvas", "embed", "math", "script", "svg"];

/// Whether `word` is one of `list`.
pub open spec fn listed(list: Seq<&'static str>, word: Seq<char>) -> bool {
    exists|i: int| 0 <= i < list.len() && (#[trigger] list[i])@ == word
}

/// Whether an attribute of this name stays on an element.
pub open spec fn is_allowed_attribute(name: Seq<char>) -> bool {
    listed(ALLOWED_ATTRIBUTES@, name)
}

/// Whether a `meta` element may carry an attribute of this name.
pub open spec fn is_allowed_meta_attribute(name: Seq<char>) -> bool {
    listed(ALLOWED_META_ATTRIBUTES@, name)
}

/// Whether `word` is one of `list`.
fn is_listed(list: &[&'static str], word: &str) -> (found: bool)
    ensures
        found == listed(list@, word@),
{
    let mut i: usize = 0;
    while i < list.len()
        invariant
            i <= list.len(),
            forall|j: int| 0 <= j < i ==> (#[trigger] list@[j])@ != word@,
        decreases list.len() - i,
    {
        if str_eq(list[i], word) {
            return true;
        }
        i += 1;
    }
    false
}

/// The attributes that stay on an element that is no `meta` element.
pub open spec fn allowed_only(attributes: Attributes) -> Attributes {
    attributes.filter(|a: (Seq<char>, Seq<char>)| is_allowed_attribute(a.0))
}

/// Whether a `meta` element carries an attribute that it may not carry.
pub open spec fn has_disallowed_meta_attribute(attributes: Attributes) -> bool {
    exists|i: int| 0 <= i < attributes.len() && !is_allowed_meta_attribute((#[trigger] attributes[i]).0)
}

/// Takes from an element every attribute whose name is not allowed. A `meta`
/// element keeps its attributes, and is removed as a whole if one of them is
/// not allowed on it.
pub fn remove_disallowed_attributes(element: &mut Element<'_, '_>)
    ensures
        tag_of(*final(element)) == tag_of(*old(element)),
        holds_content(*final(element)) == holds_content(*old(element)),
        if tag_of(*old(element)) == "meta"@ {
            &&& attributes_of(*final(element)) == attributes_of(*old(element))
            &&& is_removed(*final(element)) == (is_removed(*old(element)) || has_disallowed_meta_attribute(
                attributes_of(*old(element)),
            ))
        } else {
            &&& attributes_of(*final(element)) == allowed_only(attributes_of(*old(element)))
            &&& forall|i: int|
                0 <= i < attributes_of(*final(element)).len() ==> is_allowed_attribute(
                    (#[trigger] attributes_of(*final(element))[i]).0,
                )
            &&& same_but_attributes(*old(element), *final(element))
        },
{
    let tag = tag_name(element);
    let list = attributes(element);
    let ghost before = attributes_of(*element);
    if str_eq(tag.as_str(), "meta") {
        let mut should_remove = false;
        let mut i: usize = 0;
        while i < list.len()
            invariant
                i <= list.len(),
                list@.len() == before.len(),
                forall|j: int| 0 <= j < list@.len() ==> (#[trigger] list@[j]).0@ == before[j].0,
                should_remove == exists|j: int| 0 <= j < i && !is_allowed_meta_attribute((#[trigger] before[j]).0),
            decreases list.len() - i,
        {
            if !is_listed(&ALLOWED_META_ATTRIBUTES, list[i].0.as_str()) {
                should_remove = true;
            }
            i += 1;
        }
        if should_remove {
            remove(element);
        }
        return ;
    }
    let mut i: usize = 0;
    let ghost mut kept: Attributes = Seq::empty();
    proof {
        assert(before.take(0) =~= Seq::<(Seq<char>, Seq<char>)>::empty());
        assert(kept + before.skip(0) =~= before);
    }
    while i < list.len()
        invariant
            i <= list.len(),
            list@.len() == before.len(),
            forall|j: int|
                0 <= j < list@.len() ==> (#[trigger] list@[j]).0@ == before[j].0 && ascii_lowercase(list@[j].0@)
                    == list@[j].0@,
            kept == allowed_only(before.take(i as int)),
            forall|j: int| 0 <= j < kept.len() ==> is_allowed_attribute((#[trigger] kept[j]).0),
            attributes_of(*element) == kept + before.skip(i as int),
            same_but_attributes(*old(element), *element),
            before == attributes_of(*old(element)),
        decreases list.len() - i,
    {
        let name = list[i].0.as_str();
        let allowed = is_listed(&ALLOWED_ATTRIBUTES, name);
        let ghost current = attributes_of(*element);
        proof {
            assert(before.take(i + 1).drop_last() =~= before.take(i as int));
            assert(before.take(i + 1).last() == before[i as int]);
            reveal(Seq::filter);
            assert(current[kept.len() as int] == before.skip(i as int)[0]);
        }
        if !allowed {
            proof {
                crate::element::first_is_position(current, name@, kept.len() as int);
            }
            remove_attribute(element, name);
            proof {
                assert(current.remove(kept.len() as int) =~= kept + before.skip(i + 1));
            }
        } else {
            proof {
                assert(kept.push(before[i as int]) + before.skip(i + 1) =~= current);
                kept = kept.push(before[i as int]);
            }
        }
        i += 1;
    }
    proof {
        assert(before.take(i as int) =~= before);
        assert(kept + before.skip(i as int) =~= kept);
    }
}

/// Removes the element with everything in it.
pub fn remove_element(element: &mut Element<'_, '_>)
    ensures
        is_removed(*final(element)),
        tag_of(*final(element)) == tag_of(*old(element)),
        attributes_of(*final(element)) == attributes_of(*old(element)),
{
    remove(element);
}

/// Whether a `link` element with these attributes stays: it names a relation,
/// and the relation is one of the allowed ones, in any case of letters.
pub open spec fn link_stays(attributes: Attributes) -> bool {
    match value_of(attributes, "rel"@) {
        Some(rel) => listed(ALLOWED_LINK_REL_VALUES@, ascii_lowercase(rel)),
        None => false,
    }
}

/// Removes a `link` element unless its relation is allowed.
pub fn filter_link_elements(element: &mut Element<'_, '_>)
    ensures
        tag_of(*final(element)) == tag_of(*old(element)),
        attributes_of(*final(element)) == attributes_of(*old(element)),
        is_removed(*final(element)) == (is_removed(*old(element)) || !link_stays(attributes_of(*old(element)))),
{
    proof {
        lowercase_rel();
    }
    let stays: bool = match get_attribute(element, "rel") {
        Some(rel) => {
            let lowered = to_ascii_lowercase(rel.as_str());
            is_listed(&ALLOWED_LINK_REL_VALUES, lowered.as_str())
        },
        None => false,
    };
    if !stays {
        remove(element);
    }
}

proof fn lowercase_rel()
    ensures
        ascii_lowercase("rel"@) == "rel"@,
{
    reveal_strlit("rel");
    crate::text::lowercase_is_fixed("rel"@);
}

/// The attributes after the URL in attribute `name` was replaced by its proxy
/// URL. Character references in the value are resolved first; with `trim`,
/// whitespace around the value is dropped before that. The attribute holds
/// the URL as it is read back, which is the URL itself
/// (`rewritten_url_reads_as_written`).
pub open spec fn url_attribute(
    key: Seq<u8>,
    base: Seq<char>,
    attributes: Attributes,
    name: Seq<char>,
    trim: bool,
) -> Result<Attributes, RewriteUrlError> {
    let value = value_of(attributes, name).unwrap();
    let reference = entity_decoded(if trim { trimmed(value) } else { value });
    match rewritten_url(key, base, reference) {
        Ok(url) => Ok(with_attribute(attributes, name, url)),
        Err(e) => Err(e),
    }
}

/// A rewritten reference is read back from an attribute as it was stored: it
/// does not begin with a byte-order mark.
pub proof fn rewritten_url_reads_as_written(key: Seq<u8>, base: Seq<char>, reference: Seq<char>)
    requires
        rewritten_url(key, base, reference) is Ok,
    ensures
        as_read(rewritten_url(key, base, reference).unwrap()) == rewritten_url(key, base, reference).unwrap(),
{
    reveal_strlit("data:");
    reveal_strlit("#");
    reveal_strlit("./?url=");
    let url = rewritten_url(key, base, reference).unwrap();
    if "data:"@.is_prefix_of(reference) {
        if "data:image/"@.is_prefix_of(reference) {
            assert(reference[0] == "data:"@[0]);
        }
    } else if "#"@.is_prefix_of(reference) {
        assert(reference[0] == "#"@[0]);
    } else {
        crate::rewrite_url::rewritten_url_shape(key, base, reference);
        assert(url[0] == "./?url="@[0]);
    }
}

/// An attribute that was set is read back with what was stored, but for a
/// byte-order mark at its start.
pub proof fn value_of_set_attribute(attributes: Attributes, name: Seq<char>, value: Seq<char>)
    requires
        position(attributes, name) is Some,
    ensures
        value_of(with_attribute(attributes, name, value), name) == Some(as_read(value)),
{
    position_is_first(attributes, name);
    let i = position(attributes, name).unwrap();
    let set = attributes.update(i, (name, as_read(value)));
    assert forall|j: int| 0 <= j < i implies (#[trigger] set[j]).0 != name by {
        assert(set[j] == attributes[j]);
    }
    first_is_position(set, name, i);
}

/// After its handler, the attribute that held a reference holds a URL that
/// leads through the proxy, or an image in a `data:` URL, or a bare fragment.
/// The one exception are `data:` URLs that hold no image: the attribute is
/// empty then.
pub proof fn rewritten_attribute_shape(
    key: Seq<u8>,
    base: Seq<char>,
    attributes: Attributes,
    name: Seq<char>,
    trim: bool,
)
    requires
        position(attributes, name) is Some,
        url_attribute(key, base, attributes, name, trim) is Ok,
    ensures
        ({
            let value = value_of(attributes, name).unwrap();
            let reference = entity_decoded(if trim { trimmed(value) } else { value });
            let url = value_of(url_attribute(key, base, attributes, name, trim).unwrap(), name).unwrap();
            &&& value_of(url_attribute(key, base, attributes, name, trim).unwrap(), name) is Some
            &&& url == rewritten_url(key, base, reference).unwrap()
            &&& if "data:"@.is_prefix_of(reference) && !"data:image/"@.is_prefix_of(reference) {
                url.len() == 0
            } else {
                ||| "./?url="@.is_prefix_of(url)
                ||| "data:image/"@.is_prefix_of(url)
                ||| "#"@.is_prefix_of(url)
            }
        }),
{
    let value = value_of(attributes, name).unwrap();
    let reference = entity_decoded(if trim { trimmed(value) } else { value });
    let url = rewritten_url(key, base, reference).unwrap();
    rewritten_url_reads_as_written(key, base, reference);
    value_of_set_attribute(attributes, name, url);
    if !("data:"@.is_prefix_of(reference) && !"data:image/"@.is_prefix_of(reference)) {
        crate::rewrite_url::rewritten_url_shape(key, base, reference);
    }
}

/// Replaces the URL in the attribute `name` by its proxy URL.
fn rewrite_attribute(key: &[u8], base_url: &url::Url, element: &mut Element<'_, '_>, name: &str, trim_value: bool) -> (res:
    Result<(), RewriteHtmlError>)
    requires
        ascii_lowercase(name@) == name@,
        position(attributes_of(*old(element)), name@) is Some,
    ensures
        same_but_attributes(*old(element), *final(element)),
        match url_attribute(key@, serialization(*base_url), attributes_of(*old(element)), name@, trim_value) {
            Ok(attributes) => res is Ok && attributes_of(*final(element)) == attributes,
            Err(e) => res == Err::<(), RewriteHtmlError>(RewriteHtmlError::UrlRewrite(e)) && attributes_of(
                *final(element),
            ) == attributes_of(*old(element)),
        },
{
    let value = match get_attribute(element, name) {
        Some(v) => v,
        None => vstd::pervasive::unreached(),
    };
    let reference = if trim_value {
        html_entity_decode(trim(value.as_str()))
    } else {
        html_entity_decode(value.as_str())
    };
    match rewrite_url(key, base_url, reference.as_str()) {
        Ok(url) => {
            let done = set_attribute(element, name, url.as_str());
            Ok(())
        },
        Err(e) => Err(RewriteHtmlError::UrlRewrite(e)),
    }
}

/// Replaces the `href` of an element by its proxy URL.
pub fn transform_href(key: &[u8], base_url: &url::Url, element: &mut Element<'_, '_>) -> (res: Result<
    (),
    RewriteHtmlError,
>)
    requires
        position(attributes_of(*old(element)), "href"@) is Some,
    ensures
        same_but_attributes(*old(element), *final(element)),
        match url_attribute(key@, serialization(*base_url), attributes_of(*old(element)), "href"@, false) {
            Ok(attributes) => res is Ok && attributes_of(*final(element)) == attributes,
            Err(e) => res == Err::<(), RewriteHtmlError>(RewriteHtmlError::UrlRewrite(e)) && attributes_of(
                *final(element),
            ) == attributes_of(*old(element)),
        },
{
    proof {
        names_are_lowercase();
    }
    rewrite_attribute(key, base_url, element, "href", false)
}

/// Replaces the `src` of an element by its proxy URL.
pub fn transform_src(key: &[u8], base_url: &url::Url, element: &mut Element<'_, '_>) -> (res: Result<
    (),
    RewriteHtmlError,
>)
    requires
        position(attributes_of(*old(element)), "src"@) is Some,
    ensures
        same_but_attributes(*old(element), *final(element)),
        match url_attribute(key@, serialization(*base_url), attributes_of(*old(element)), "src"@, false) {
            Ok(attributes) => res is Ok && attributes_of(*final(element)) == attributes,
            Err(e) => res == Err::<(), RewriteHtmlError>(RewriteHtmlError::UrlRewrite(e)) && attributes_of(
                *final(element),
            ) == attributes_of(*old(element)),
        },
{
    proof {
        names_are_lowercase();
    }
    rewrite_attribute(key, base_url, element, "src", false)
}

/// The attributes of an image after the handler: decoding is asynchronous, and
/// loading is lazy or not said at all.
pub open spec fn image_attributes(attributes: Attributes, allow_lazy: bool) -> Attributes {
    let loading = if allow_lazy {
        with_attribute(attributes, "loading"@, "lazy"@)
    } else {
        without_attribute(attributes, "loading"@)
    };
    with_attribute(loading, "decoding"@, "async"@)
}

/// Makes an image decode asynchronously, and load lazily only where that is
/// wanted.
pub fn transform_img(allow_lazy: bool, element: &mut Element<'_, '_>)
    ensures
        same_but_attributes(*old(element), *final(element)),
        attributes_of(*final(element)) == image_attributes(attributes_of(*old(element)), allow_lazy),
{
    proof {
        names_are_lowercase();
        names_are_plain();
    }
    if allow_lazy {
        let done = set_attribute(element, "loading", "lazy");
    } else {
        remove_attribute(element, "loading");
    }
    let done = set_attribute(element, "decoding", "async");
}

/// The text put together so far while the URLs of a text are replaced, and the
/// offset up to which the text has been read.
pub struct Spliced {
    pub text: Seq<char>,
    pub offset: int,
}

/// Replaces the URLs that stand at the first spans of `text`: what stands
/// between them is copied, each URL gives way to its proxy URL. A span that
/// does not lie behind the one before it, on whole characters, is a fault of
/// the pattern.
pub open spec fn spliced_up_to(
    key: Seq<u8>,
    base: Seq<char>,
    text: Seq<char>,
    spans: Seq<Option<(int, int)>>,
) -> Result<Spliced, RewriteHtmlError>
    decreases spans.len(),
{
    if spans.len() == 0 {
        Ok(Spliced { text: Seq::empty(), offset: 0 })
    } else {
        match spliced_up_to(key, base, text, spans.drop_last()) {
            Err(e) => Err(e),
            Ok(before) => match spans.last() {
                None => Ok(before),
                Some(span) => if !is_slice(text, before.offset, span.0) || !is_slice(text, span.0, span.1) {
                    Err(RewriteHtmlError::Pattern)
                } else {
                    match rewritten_url(key, base, entity_decoded(between(text, span.0, span.1))) {
                        Ok(url) => Ok(
                            Spliced { text: before.text + between(text, before.offset, span.0) + url, offset: span.1 },
                        ),
                        Err(e) => Err(RewriteHtmlError::UrlRewrite(e)),
                    }
                },
            },
        }
    }
}

/// `text` with the URLs at `spans` replaced by their proxy URLs.
pub open spec fn spliced(key: Seq<u8>, base: Seq<char>, text: Seq<char>, spans: Seq<Option<(int, int)>>) -> Result<
    Seq<char>,
    RewriteHtmlError,
> {
    match spliced_up_to(key, base, text, spans) {
        Err(e) => Err(e),
        Ok(before) => if is_slice(text, before.offset, vstd::utf8::encode_utf8(text).len() as int) {
            Ok(before.text + between(text, before.offset, vstd::utf8::encode_utf8(text).len() as int))
        } else {
            Err(RewriteHtmlError::Pattern)
        },
    }
}

/// Replaces the URLs that stand at `spans` in `text` by their proxy URLs and
/// copies the rest.
pub fn splice_urls(key: &[u8], base_url: &url::Url, text: &str, spans: &Vec<Option<(usize, usize)>>) -> (res: Result<
    String,
    RewriteHtmlError,
>)
    ensures
        match spliced(
            key@,
            serialization(*base_url),
            text@,
            spans@.map_values(|s: Option<(usize, usize)>| as_int_span(s)),
        ) {
            Ok(expected) => res matches Ok(s) && s@ == expected,
            Err(e) => res == Err::<String, RewriteHtmlError>(e),
        },
{
    let ghost all = spans@.map_values(|s: Option<(usize, usize)>| as_int_span(s));
    let ghost base = serialization(*base_url);
    let mut output = String::new();
    let mut offset: usize = 0;
    let mut i: usize = 0;
    proof {
        assert(all.take(0) =~= Seq::<Option<(int, int)>>::empty());
    }
    while i < spans.len()
        invariant
            i <= spans.len(),
            all == spans@.map_values(|s: Option<(usize, usize)>| as_int_span(s)),
            base == serialization(*base_url),
            spliced_up_to(key@, base, text@, all.take(i as int)) == Ok::<Spliced, RewriteHtmlError>(
                Spliced { text: output@, offset: offset as int },
            ),
        decreases spans.len() - i,
    {
        proof {
            assert(all.take(i + 1).drop_last() =~= all.take(i as int));
            assert(all.take(i + 1).last() == as_int_span(spans@[i as int]));
        }
        let ghost failed = spliced_up_to(key@, base, text@, all.take(i + 1));
        match spans[i] {
            None => {},
            Some((start, end)) => {
                let copied = slice(text, offset, start);
                let found = slice(text, start, end);
                match (copied, found) {
                    (Some(gap), Some(url)) => {
                        let decoded = html_entity_decode(url);
                        match rewrite_url(key, base_url, decoded.as_str()) {
                            Ok(proxy) => {
                                output.append(gap);
                                output.append(proxy.as_str());
                                offset = end;
                            },
                            Err(e) => {
                                proof {
                                    splice_fails_for_good(key@, base, text@, all, i + 1);
                                }
                                return Err(RewriteHtmlError::UrlRewrite(e));
                            },
                        }
                    },
                    _ => {
                        proof {
                            splice_fails_for_good(key@, base, text@, all, i + 1);
                        }
                        return Err(RewriteHtmlError::Pattern);
                    },
                }
            },
        }
        i += 1;
    }
    proof {
        assert(all.take(i as int) =~= all);
    }
    match slice(text, offset, text.as_bytes().len()) {
        Some(rest) => {
            output.append(rest);
            Ok(output)
        },
        None => Err(RewriteHtmlError::Pattern),
    }
}

/// Once a span has failed, the spans behind it change nothing.
proof fn splice_fails_for_good(
    key: Seq<u8>,
    base: Seq<char>,
    text: Seq<char>,
    spans: Seq<Option<(int, int)>>,
    n: int,
)
    requires
        0 <= n <= spans.len(),
        spliced_up_to(key, base, text, spans.take(n)) is Err,
    ensures
        spliced_up_to(key, base, text, spans) == spliced_up_to(key, base, text, spans.take(n)),
    decreases spans.len() - n,
{
    if n < spans.len() {
        assert(spans.take(n + 1).drop_last() =~= spans.take(n));
        splice_fails_for_good(key, base, text, spans, n + 1);
    } else {
        assert(spans.take(n) =~= spans);
    }
}

/// The pattern that finds the URLs of a `srcset` attribute: a run of URL
/// characters, followed by a width or density or by the end of the value.
pub const SRCSET_PATTERN: &'static str =
    r"(?P<url>[\w#!;:.,?~+=*&%@!(')$/\-\[\]]+)(?:\s+\d+(?:\.\d+)?[xw]\s*\d*h?\s*,?|$)";

/// The pattern that finds the URL in the content of a `refresh` directive.
pub const REFRESH_PATTERN: &'static str = r"(?i)\d+\s*;\s*url\s*=\s*(?P<url>[^$]+)";

/// The attributes after each URL of the `srcset` attribute was replaced by its
/// proxy URL; widths, densities and commas stay as they are. The attribute
/// holds that text as it is read back: without a byte-order mark that stood
/// before the first URL.
pub open spec fn srcset_attributes(key: Seq<u8>, base: Seq<char>, pattern: Seq<char>, attributes: Attributes) -> Result<
    Attributes,
    RewriteHtmlError,
> {
    let value = value_of(attributes, "srcset"@).unwrap();
    match spliced(key, base, value, group_spans(pattern, "url"@, value)) {
        Ok(text) => Ok(with_attribute(attributes, "srcset"@, text)),
        Err(e) => Err(e),
    }
}

/// Replaces each URL of the `srcset` attribute by its proxy URL. `pattern`
/// finds the URLs; it is compiled from [`SRCSET_PATTERN`].
pub fn transform_srcset(key: &[u8], base_url: &url::Url, pattern: &regex::Regex, element: &mut Element<'_, '_>) -> (res:
    Result<(), RewriteHtmlError>)
    requires
        position(attributes_of(*old(element)), "srcset"@) is Some,
    ensures
        same_but_attributes(*old(element), *final(element)),
        match srcset_attributes(key@, serialization(*base_url), pattern_of(*pattern), attributes_of(*old(element))) {
            Ok(attributes) => res is Ok && attributes_of(*final(element)) == attributes,
            Err(e) => res == Err::<(), RewriteHtmlError>(e) && attributes_of(*final(element)) == attributes_of(
                *old(element),
            ),
        },
{
    proof {
        names_are_lowercase();
    }
    let value = match get_attribute(element, "srcset") {
        Some(v) => v,
        None => vstd::pervasive::unreached(),
    };
    let spans = find_group(pattern, "url", value.as_str());
    let text = splice_urls(key, base_url, value.as_str(), &spans)?;
    let done = set_attribute(element, "srcset", text.as_str());
    Ok(())
}

/// The hidden field that tells the proxy which method a form was written for.
pub open spec fn method_input(method: Seq<char>) -> Seq<char> {
    "<input type=\"hidden\" name=\"_searproxy_origin_method\" value=\""@ + method + "\">"@
}

/// The attributes of a form after the handler: it opens in the same window,
/// posts to the proxy, and its action is a proxy URL. Each value is there as
/// it is read back, which for these values is the value itself.
pub open spec fn form_attributes(key: Seq<u8>, base: Seq<char>, attributes: Attributes) -> Result<
    Attributes,
    RewriteHtmlError,
> {
    let targeted = with_attribute(attributes, "target"@, "_self"@);
    if value_of(targeted, "method"@) matches Some(m) && !is_method(m) {
        Err(RewriteHtmlError::Method)
    } else {
        let posted = with_attribute(targeted, "method"@, "POST"@);
        if position(posted, "action"@) is Some {
            match url_attribute(key, base, posted, "action"@, true) {
                Ok(result) => Ok(result),
                Err(e) => Err(RewriteHtmlError::UrlRewrite(e)),
            }
        } else {
            Ok(posted)
        }
    }
}

/// What stands behind the start tag of a form after the handler: the hidden
/// field with the method that the form had, if it had one.
pub open spec fn form_prepended(attributes: Attributes, holds_content: bool, before: Seq<char>) -> Seq<char> {
    match value_of(with_attribute(attributes, "target"@, "_self"@), "method"@) {
        Some(m) => if holds_content {
            method_input(m) + before
        } else {
            before
        },
        None => before,
    }
}

/// Makes a form post to the proxy: the target is this window, the method it
/// had goes into a hidden field, the method becomes `POST`, and the action
/// becomes a proxy URL. Fails where the method is no request method or the
/// action cannot be rewritten; the form then keeps what was done up to there.
pub fn transform_form(key: &[u8], base_url: &url::Url, element: &mut Element<'_, '_>) -> (res: Result<
    (),
    RewriteHtmlError,
>)
    ensures
        tag_of(*final(element)) == tag_of(*old(element)),
        is_removed(*final(element)) == is_removed(*old(element)),
        holds_content(*final(element)) == holds_content(*old(element)),
        appended(*final(element)) == appended(*old(element)),
        match form_attributes(key@, serialization(*base_url), attributes_of(*old(element))) {
            Ok(attributes) => {
                &&& res is Ok
                &&& attributes_of(*final(element)) == attributes
                &&& prepended(*final(element)) == form_prepended(
                    attributes_of(*old(element)),
                    holds_content(*old(element)),
                    prepended(*old(element)),
                )
            },
            Err(RewriteHtmlError::Method) => {
                &&& res == Err::<(), RewriteHtmlError>(RewriteHtmlError::Method)
                &&& attributes_of(*final(element)) == with_attribute(
                    attributes_of(*old(element)),
                    "target"@,
                    "_self"@,
                )
                &&& prepended(*final(element)) == prepended(*old(element))
            },
            Err(e) => {
                &&& res == Err::<(), RewriteHtmlError>(e)
                &&& attributes_of(*final(element)) == with_attribute(
                    with_attribute(attributes_of(*old(element)), "target"@, "_self"@),
                    "method"@,
                    "POST"@,
                )
                &&& prepended(*final(element)) == form_prepended(
                    attributes_of(*old(element)),
                    holds_content(*old(element)),
                    prepended(*old(element)),
                )
            },
        },
{
    proof {
        names_are_lowercase();
        names_are_plain();
    }
    let done = set_attribute(element, "target", "_self");
    match get_attribute(element, "method") {
        Some(method) => {
            if !is_valid_method(method.as_str()) {
                return Err(RewriteHtmlError::Method);
            }
            let mut field = String::from_str("<input type=\"hidden\" name=\"_searproxy_origin_method\" value=\"");
            field.append(method.as_str());
            field.append("\">");
            prepend(element, field.as_str());
        },
        None => {},
    }
    let done = set_attribute(element, "method", "POST");
    if has_attribute(element, "action") {
        rewrite_attribute(key, base_url, element, "action", true)
    } else {
        Ok(())
    }
}

/// Where the URL stands in the content of a `refresh` directive: the span of
/// the first match of the pattern.
pub open spec fn refresh_span(pattern: Seq<char>, content: Seq<char>) -> Option<(int, int)> {
    let spans = group_spans(pattern, "url"@, content);
    if spans.len() > 0 {
        spans[0]
    } else {
        None
    }
}

/// What becomes of a `meta` element with these attributes: its attributes if
/// it stays, nothing if it is removed. It stays with an allowed `http-equiv`,
/// or without one if it names a character set. The URL of a `refresh` becomes
/// a proxy URL; a `refresh` without a URL is removed. The content is there
/// as it is read back: without a byte-order mark that stood at its start.
pub open spec fn meta_attributes(key: Seq<u8>, base: Seq<char>, pattern: Seq<char>, attributes: Attributes) -> Result<
    Option<Attributes>,
    RewriteHtmlError,
> {
    match value_of(attributes, "http-equiv"@) {
        Some(equiv) => {
            let directive = trimmed(ascii_lowercase(equiv));
            if directive == "refresh"@ {
                match value_of(attributes, "content"@) {
                    Some(content) => match refresh_span(pattern, content) {
                        Some(span) => if !is_slice(content, 0, span.0) || !is_slice(content, span.0, span.1) {
                            Err(RewriteHtmlError::Pattern)
                        } else {
                            match rewritten_url(key, base, entity_decoded(trimmed(between(content, span.0, span.1)))) {
                                Ok(url) => Ok(
                                    Some(with_attribute(attributes, "content"@, between(content, 0, span.0) + url)),
                                ),
                                Err(e) => Err(RewriteHtmlError::UrlRewrite(e)),
                            }
                        },
                        None => Ok(None),
                    },
                    None => Ok(None),
                }
            } else if listed(ALLOWED_META_EQUIV_VALUES@, directive) {
                Ok(Some(attributes))
            } else {
                Ok(None)
            }
        },
        None => if position(attributes, "charset"@) is Some {
            Ok(Some(attributes))
        } else {
            Ok(None)
        },
    }
}

/// Removes a `meta` element unless its `http-equiv` is allowed or, without
/// one, it names a character set; sends the URL of a `refresh` through the
/// proxy. `pattern` finds that URL; it is compiled from [`REFRESH_PATTERN`].
pub fn filter_meta_elements(
    key: &[u8],
    base_url: &url::Url,
    pattern: &regex::Regex,
    element: &mut Element<'_, '_>,
) -> (res: Result<(), RewriteHtmlError>)
    ensures
        tag_of(*final(element)) == tag_of(*old(element)),
        match meta_attributes(key@, serialization(*base_url), pattern_of(*pattern), attributes_of(*old(element))) {
            Ok(Some(attributes)) => {
                &&& res is Ok
                &&& attributes_of(*final(element)) == attributes
                &&& same_but_attributes(*old(element), *final(element))
            },
            Ok(None) => {
                &&& res is Ok
                &&& attributes_of(*final(element)) == attributes_of(*old(element))
                &&& is_removed(*final(element))
            },
            Err(e) => {
                &&& res == Err::<(), RewriteHtmlError>(e)
                &&& attributes_of(*final(element)) == attributes_of(*old(element))
                &&& same_but_attributes(*old(element), *final(element))
            },
        },
{
    proof {
        names_are_lowercase();
    }
    match get_attribute(element, "http-equiv") {
        Some(equiv) => {
            let lowered = to_ascii_lowercase(equiv.as_str());
            let directive = trim(lowered.as_str());
            if str_eq(directive, "refresh") {
                if let Some(content) = get_attribute(element, "content") {
                    let spans = find_group(pattern, "url", content.as_str());
                    if spans.len() > 0 {
                        if let Some((start, end)) = spans[0] {
                            let head = slice(content.as_str(), 0, start);
                            let found = slice(content.as_str(), start, end);
                            match (head, found) {
                                (Some(time), Some(url)) => {
                                    let decoded = html_entity_decode(trim(url));
                                    match rewrite_url(key, base_url, decoded.as_str()) {
                                        Ok(proxy) => {
                                            let mut value = String::from_str(time);
                                            value.append(proxy.as_str());
                                            let done = set_attribute(element, "content", value.as_str());
                                            return Ok(());
                                        },
                                        Err(e) => return Err(RewriteHtmlError::UrlRewrite(e)),
                                    }
                                },
                                _ => return Err(RewriteHtmlError::Pattern),
                            }
                        }
                    }
                }
                remove(element);
            } else if !is_listed(&ALLOWED_META_EQUIV_VALUES, directive) {
                remove(element);
            }
        },
        None => {
            if !has_attribute(element, "charset") {
                remove(element);
            }
        },
    }
    Ok(())
}

/// The banner that a rewritten page shows at its top, with a link to the page
/// as it is at its origin.
pub open spec fn header_markup(url: Seq<char>) -> Seq<char> {
    HEADER_BEFORE_URL@ + escaped(url) + HEADER_BEHIND_URL@
}

/// The banner up to the address of the page at its origin.
pub const HEADER_BEFORE_URL: &'static str =
    "<div><h1><a href=\"./\" target=\"_self\" rel=\"noreferrer noopener\">SearProxy</a> is neither the owner nor the author of this content.</h1><p>Scripts are deactivated. Web page appearance may have changed. Visit the <a href=\"";

/// The banner behind the address of the page at its origin.
pub const HEADER_BEHIND_URL: &'static str =
    "\" target=\"_self\" rel=\"noreferrer noopener\">original page</a>.</p></div>";

/// The banner for a page whose origin is `url`.
pub fn proxy_header(url: &str) -> (markup: String)
    ensures
        markup@ == header_markup(url@),
{
    let mut markup = String::from_str(HEADER_BEFORE_URL);
    let address = escape(url);
    markup.append(address.as_str());
    markup.append(HEADER_BEHIND_URL);
    markup
}

/// Puts the banner at the top of the `body`.
pub fn append_proxy_header(base_url: &url::Url, element: &mut Element<'_, '_>)
    ensures
        tag_of(*final(element)) == tag_of(*old(element)),
        attributes_of(*final(element)) == attributes_of(*old(element)),
        is_removed(*final(element)) == is_removed(*old(element)),
        holds_content(*final(element)) == holds_content(*old(element)),
        appended(*final(element)) == appended(*old(element)),
        prepended(*final(element)) == if holds_content(*old(element)) {
            header_markup(serialization(*base_url)) + prepended(*old(element))
        } else {
            prepended(*old(element))
        },
{
    let markup = proxy_header(crate::rewrite_url::url_as_str(base_url));
    prepend(element, markup.as_str());
}

/// The `style` element that carries the style sheet of the banner.
pub open spec fn header_style(stylesheet: Seq<char>) -> Seq<char> {
    "<style>"@ + stylesheet + "</style>"@
}

/// Puts the style sheet of the banner at the end of the `head`.
pub fn append_proxy_styles(stylesheet: &str, element: &mut Element<'_, '_>)
    ensures
        tag_of(*final(element)) == tag_of(*old(element)),
        attributes_of(*final(element)) == attributes_of(*old(element)),
        is_removed(*final(element)) == is_removed(*old(element)),
        holds_content(*final(element)) == holds_content(*old(element)),
        prepended(*final(element)) == prepended(*old(element)),
        appended(*final(element)) == if holds_content(*old(element)) {
            appended(*old(element)) + header_style(stylesheet@)
        } else {
            appended(*old(element))
        },
{
    let mut markup = String::from_str("<style>");
    markup.append(stylesheet);
    markup.append("</style>");
    append(element, markup.as_str());
}

/// The attribute names that the handlers read and write are in lower case.
pub proof fn names_are_lowercase()
    ensures
        ascii_lowercase("href"@) == "href"@,
        ascii_lowercase("src"@) == "src"@,
        ascii_lowercase("srcset"@) == "srcset"@,
        ascii_lowercase("loading"@) == "loading"@,
        ascii_lowercase("decoding"@) == "decoding"@,
        ascii_lowercase("target"@) == "target"@,
        ascii_lowercase("method"@) == "method"@,
        ascii_lowercase("action"@) == "action"@,
        ascii_lowercase("http-equiv"@) == "http-equiv"@,
        ascii_lowercase("content"@) == "content"@,
        ascii_lowercase("charset"@) == "charset"@,
{
    reveal_strlit("href");
    reveal_strlit("src");
    reveal_strlit("srcset");
    reveal_strlit("loading");
    reveal_strlit("decoding");
    reveal_strlit("target");
    reveal_strlit("method");
    reveal_strlit("action");
    reveal_strlit("http-equiv");
    reveal_strlit("content");
    reveal_strlit("charset");
    lowercase_is_fixed("href"@);
    lowercase_is_fixed("src"@);
    lowercase_is_fixed("srcset"@);
    lowercase_is_fixed("loading"@);
    lowercase_is_fixed("decoding"@);
    lowercase_is_fixed("target"@);
    lowercase_is_fixed("method"@);
    lowercase_is_fixed("action"@);
    lowercase_is_fixed("http-equiv"@);
    lowercase_is_fixed("content"@);
    lowercase_is_fixed("charset"@);
}

/// The attribute names that the handlers add are taken by every element.
proof fn names_are_plain()
    ensures
        is_plain_name("loading"@),
        is_plain_name("decoding"@),
        is_plain_name("target"@),
        is_plain_name("method"@),
{
    reveal_strlit("loading");
    reveal_strlit("decoding");
    reveal_strlit("target");
    reveal_strlit("method");
}

} // verus!
