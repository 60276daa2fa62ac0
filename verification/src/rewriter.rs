//! The rewriter for whole pages: the state that the handlers of one page
//! share, the handlers that need it, and the parser that calls them.

use std::cell::RefCell;
use std::rc::Rc;
use lol_html::html_content::{Element, EndTag, TextChunk};
use vstd::prelude::*;
use vstd::utf8::{decode_utf8, encode_utf8, encode_utf8_decode_utf8};
use crate::digest::{style_hash, style_hash_of};
use crate::element::{
    appended, attributes_of, chunk_removed, chunk_text, has_attribute, holds_content, is_removed, position, prepended,
    put_before, put_before_end, put_behind, put_behind_end, remove, remove_text, tag_of, text_of, Attributes,
};
use crate::html_text::{compile, is_pattern, pattern_of};
use crate::rewrite_css::{feed, flushed, initial, CssRewrite};
use crate::rewrite_html::{
    allowed_only, append_proxy_header, append_proxy_styles, filter_link_elements, filter_meta_elements,
    form_attributes, form_prepended, header_markup, header_style, has_disallowed_meta_attribute, image_attributes, link_stays, meta_attributes,
    remove_disallowed_attributes, remove_element, srcset_attributes, transform_form, transform_href, transform_img,
    transform_src, transform_srcset, url_attribute, RewriteHtmlError, REFRESH_PATTERN, SRCSET_PATTERN,
};
use crate::rewrite_url::serialization;
use crate::text::from_utf8;

verus! {

#[verifier::external_type_specification]
#[verifier::external_body]
#[verifier::reject_recursive_types(T)]
pub struct ExRefCell<T: ?Sized>(RefCell<T>);

#[verifier::external_type_specification]
#[verifier::external_body]
pub struct ExElementContentHandlers<'h>(lol_html::ElementContentHandlers<'h>);

#[verifier::external_type_specification]
#[verifier::external_body]
pub struct ExSelector(lol_html::Selector);

/// The parser of one page, with the handlers that were given to it, the
/// page that the handlers share, and the bytes that the parser has written.
#[verifier::external_body]
pub struct Rewriter {
    inner: lol_html::HtmlRewriter<'static, Box<dyn FnMut(&[u8])>>,
    page: SharedPage,
    output: SharedOutput,
}

/// A selector with the handler that is called for what it selects.
pub struct Entry {
    pub selector: lol_html::Selector,
    pub handlers: lol_html::ElementContentHandlers<'static>,
}

/// What the parser calls for what a selector selects.
#[derive(Debug, Clone, Copy, PartialEq, Eq, Structural)]
pub enum Registered {
    Element(Handler),
    Text(TextHandler),
}

/// What is left when the reading of a page has failed: what the parser
/// reports, and the failure that a handler has kept in the page, if the page
/// can be had back and holds one.
pub struct Failed {
    pub reported: lol_html::errors::RewritingError,
    pub kept: Option<RewriteHtmlError>,
}

/// What is left when a page was read to its end: the failure that the parser
/// reports, if any, the failure that a handler has kept, the source
/// expressions that the page holds, if the page can be had back, and the
/// bytes that the parser has written.
pub struct Ended {
    pub reported: Option<lol_html::errors::RewritingError>,
    pub kept: Option<RewriteHtmlError>,
    pub style_hashes: Option<Vec<String>>,
    pub output: Option<Vec<u8>>,
}

/// What is left when a page was read to its end, with the source expressions
/// as texts and the page as bytes.
pub struct Left {
    pub reported: Option<lol_html::errors::RewritingError>,
    pub kept: Option<RewriteHtmlError>,
    pub style_hashes: Option<Seq<Seq<char>>>,
    pub output: Option<Seq<u8>>,
}

impl View for Ended {
    type V = Left;

    open spec fn view(&self) -> Left {
        Left {
            reported: self.reported,
            kept: self.kept,
            style_hashes: match self.style_hashes {
                Some(hashes) => Some(hash_views(hashes@)),
                None => None,
            },
            output: match self.output {
                Some(bytes) => Some(bytes@),
                None => None,
            },
        }
    }
}

/// What a rewriter needs to know besides the page: the key that signs proxy
/// URLs, whether images may load lazily, and the style sheet of the banner.
pub struct HtmlSettings {
    pub hmac_secret: Vec<u8>,
    pub lazy_images: bool,
    pub header_stylesheet: String,
}

/// A rewritten page, and the source expressions for its inline styles.
pub struct HtmlRewriteResult {
    pub html: Vec<u8>,
    pub style_hashes: Vec<String>,
}

/// What the handlers of one page share.
pub struct Page {
    pub key: Vec<u8>,
    pub base_url: Rc<url::Url>,
    pub lazy_images: bool,
    pub header_stylesheet: String,
    pub srcset_pattern: regex::Regex,
    pub refresh_pattern: regex::Regex,
    pub css_rewriter: Option<CssRewrite>,
    pub style_hashes: Vec<String>,
    pub noscript_buf: String,
    pub failure: Option<RewriteHtmlError>,
}

/// The state of a page as its handlers see it.
pub type SharedPage = Rc<RefCell<Page>>;

/// The bytes that the parser has written.
pub type SharedOutput = Rc<RefCell<Vec<u8>>>;

/// The handlers for start tags.
#[derive(Debug, Clone, Copy, PartialEq, Eq, Structural)]
pub enum Handler {
    RemoveDisallowedAttributes,
    TransformHref,
    TransformSrc,
    RemoveElement,
    AppendProxyHeader,
    TransformForm,
    AppendProxyStyles,
    TransformImg,
    TransformSrcset,
    FilterLinkElements,
    FilterMetaElements,
    TransformNoscript,
    TransformStyle,
}

/// The handlers for text.
#[derive(Debug, Clone, Copy, PartialEq, Eq, Structural)]
pub enum TextHandler {
    WriteNoscriptContent,
    WriteStyle,
}

/// The handlers for end tags.
#[derive(Debug, Clone, Copy, PartialEq, Eq, Structural)]
pub enum EndHandler {
    FlushStyle,
    FlushNoscriptContent,
}

impl RewriteHtmlError {
    /// The error in words: one sentence for each kind of failure, whatever
    /// the failure carries.
    pub open spec fn message_text(&self) -> Seq<char> {
        match self {
            RewriteHtmlError::UrlRewrite(_) => "URL rewrite failed"@,
            RewriteHtmlError::CssRewrite(_) => "CSS rewrite failed"@,
            RewriteHtmlError::Method => "Invalid form method"@,
            RewriteHtmlError::EndTag => "Element has no end tag"@,
            RewriteHtmlError::Utf8 => "UTF-8 decode failed"@,
            RewriteHtmlError::Pattern => "Pattern failed"@,
            RewriteHtmlError::Rewriting(_) => "HTML rewriting failed"@,
            RewriteHtmlError::Poisoned => "HTML rewriter has failed before"@,
        }
    }

    /// The error in words.
    pub fn message(&self) -> (text: String)
        ensures
            text@ == self.message_text(),
    {
        String::from_str(
            match self {
                RewriteHtmlError::UrlRewrite(_) => "URL rewrite failed",
                RewriteHtmlError::CssRewrite(_) => "CSS rewrite failed",
                RewriteHtmlError::Method => "Invalid form method",
                RewriteHtmlError::EndTag => "Element has no end tag",
                RewriteHtmlError::Utf8 => "UTF-8 decode failed",
                RewriteHtmlError::Pattern => "Pattern failed",
                RewriteHtmlError::Rewriting(_) => "HTML rewriting failed",
                RewriteHtmlError::Poisoned => "HTML rewriter has failed before",
            },
        )
    }
}

impl Page {
    /// The inline style that is being read belongs to this page.
    pub open spec fn wf(&self) -> bool {
        self.css_rewriter matches Some(css) ==> css.wf()
    }
}

/// `Rc::clone`: one more pointer to the same value.
#[verifier::external_body]
pub(crate) fn share<T>(value: &Rc<T>) -> (other: Rc<T>)
    ensures
        other == *value,
{
    value.clone()
}

/// The page that a cell held when it was made.
pub uninterp spec fn started_as(cell: RefCell<Page>) -> Page;

/// Whether a text is a selector that the parser takes.
pub uninterp spec fn is_selector(selector: Seq<char>) -> bool;

/// The text that a selector was read from.
pub uninterp spec fn selector_text(selector: lol_html::Selector) -> Seq<char>;

/// The handler that the parser calls through these handlers.
pub uninterp spec fn registered(handlers: lol_html::ElementContentHandlers<'static>) -> Registered;

/// The page that the handler gets which the parser calls through these
/// handlers.
pub uninterp spec fn bound_to(handlers: lol_html::ElementContentHandlers<'static>) -> SharedPage;

/// The handlers that the parser will call for the end tag of an element,
/// each with the page that it gets, in their order.
pub uninterp spec fn end_calls(element: Element<'_, '_>) -> Seq<(EndHandler, SharedPage)>;

/// The selectors and handlers that a parser was made with, in their order.
pub uninterp spec fn built_from(rewriter: Rewriter) -> Seq<Entry>;

/// The page that a parser was made for.
pub uninterp spec fn page_of(rewriter: Rewriter) -> SharedPage;

/// The chunks that a parser has taken so far, in their order.
pub uninterp spec fn taken_by(rewriter: Rewriter) -> Seq<Seq<u8>>;

/// Whether a failure that the parser reports is that of a handler, and not
/// one of the parser's own.
pub uninterp spec fn is_handler_failure(reported: lol_html::errors::RewritingError) -> bool;

/// What the parser of a sanitizer makes of the last of these chunks, once it
/// has taken the chunks before it: nothing to report, or the failure that
/// the reading ends in. The sanitizer is that of a page at `base`, with this
/// key, this choice for images and this style sheet for the banner.
pub uninterp spec fn write_outcome(
    key: Seq<u8>,
    lazy_images: bool,
    stylesheet: Seq<char>,
    base: Seq<char>,
    chunks: Seq<Seq<u8>>,
) -> Option<Failed>;

/// What the parser of a sanitizer leaves when it has taken these chunks and
/// is ended. The sanitizer is that of a page at `base`, with this key, this
/// choice for images and this style sheet for the banner.
pub uninterp spec fn page_outcome(
    key: Seq<u8>,
    lazy_images: bool,
    stylesheet: Seq<char>,
    base: Seq<char>,
    chunks: Seq<Seq<u8>>,
) -> Left;

/// Whether the entries are those of the sanitizer, all for one page: the
/// selectors of the handler table with their handlers, in the order of the
/// table, and then the two handlers for text.
pub open spec fn is_sanitizer(entries: Seq<Entry>, page: SharedPage) -> bool {
    let table = handler_table();
    let n = table.len() as int;
    &&& entries.len() == n + 2
    &&& forall|i: int|
        0 <= i < n ==> {
            &&& selector_text((#[trigger] entries[i]).selector) == table[i].0
            &&& registered(entries[i].handlers) == Registered::Element(table[i].1)
            &&& bound_to(entries[i].handlers) == page
        }
    &&& selector_text(entries[n].selector) == "noscript"@
    &&& registered(entries[n].handlers) == Registered::Text(TextHandler::WriteNoscriptContent)
    &&& bound_to(entries[n].handlers) == page
    &&& selector_text(entries[n + 1].selector) == "style"@
    &&& registered(entries[n + 1].handlers) == Registered::Text(TextHandler::WriteStyle)
    &&& bound_to(entries[n + 1].handlers) == page
}

/// Whether a page is as it is before anything was read: the patterns are
/// those of the sanitizer, no style is being read, and nothing was kept.
pub open spec fn is_fresh(page: Page) -> bool {
    &&& pattern_of(page.srcset_pattern) == SRCSET_PATTERN@
    &&& pattern_of(page.refresh_pattern) == REFRESH_PATTERN@
    &&& page.css_rewriter is None
    &&& page.style_hashes@ == Seq::<String>::empty()
    &&& page.noscript_buf@ == Seq::<char>::empty()
    &&& page.failure is None
}

/// Whether a parser is that of a sanitizer: it was made with the entries of
/// the sanitizer, for a page that was fresh.
pub open spec fn sanitizes(rewriter: Rewriter) -> bool {
    &&& is_sanitizer(built_from(rewriter), page_of(rewriter))
    &&& is_fresh(started_as(*page_of(rewriter)))
}

/// `RefCell::new` on a page: a cell that holds the page.
#[verifier::external_body]
pub(crate) fn page_cell(page: Page) -> (cell: RefCell<Page>)
    ensures
        started_as(cell) == page,
{
    RefCell::new(page)
}

/// `lol_html::Selector::from_str`: the selector that a text names, where
/// it names one that the parser takes.
#[verifier::external_body]
pub(crate) fn parse_selector(selector: &str) -> (parsed: Option<lol_html::Selector>)
    ensures
        (parsed is Some) == is_selector(selector@),
        parsed matches Some(read) ==> selector_text(read) == selector@,
{
    selector.parse().ok()
}

/// `lol_html::errors::RewritingError`, by its variant: whether the failure
/// is a `ContentHandlerError`, which the parser hands on from a handler.
#[verifier::external_body]
pub(crate) fn comes_from_handler(reported: &lol_html::errors::RewritingError) -> (from_handler: bool)
    ensures
        from_handler == is_handler_failure(*reported),
{
    matches!(reported, lol_html::errors::RewritingError::ContentHandlerError(_))
}

/// `ElementContentHandlers::element`: `handler` is called, with `page`, for
/// every start tag that the selector of these handlers selects.
#[verifier::external_body]
pub(crate) fn element_handler(handler: Handler, page: &SharedPage) -> (handlers: lol_html::ElementContentHandlers<
    'static,
>)
    ensures
        registered(handlers) == Registered::Element(handler),
        bound_to(handlers) == *page,
{
    let page = page.clone();
    lol_html::ElementContentHandlers::default().element(move |element| {
        Ok(on_element(handler, &page, &mut *page.try_borrow_mut()?, element)?)
    })
}

/// `ElementContentHandlers::text`: `handler` is called, with `page`, for
/// every chunk of text in what the selector of these handlers selects.
#[verifier::external_body]
pub(crate) fn text_handler(handler: TextHandler, page: &SharedPage) -> (handlers: lol_html::ElementContentHandlers<
    'static,
>)
    ensures
        registered(handlers) == Registered::Text(handler),
        bound_to(handlers) == *page,
{
    let page = page.clone();
    lol_html::ElementContentHandlers::default().text(move |chunk| {
        Ok(on_text(handler, &mut *page.try_borrow_mut()?, chunk)?)
    })
}

/// `Element::end_tag_handlers`, with one more handler: `handler` is called
/// for the end tag of the element. An element without content has no end
/// tag; nothing is done for it.
#[verifier::external_body]
pub(crate) fn on_end_tag(element: &mut Element<'_, '_>, handler: EndHandler, page: &SharedPage) -> (registered: bool)
    ensures
        registered == holds_content(*old(element)),
        tag_of(*final(element)) == tag_of(*old(element)),
        attributes_of(*final(element)) == attributes_of(*old(element)),
        is_removed(*final(element)) == is_removed(*old(element)),
        holds_content(*final(element)) == holds_content(*old(element)),
        end_calls(*final(element)) == if holds_content(*old(element)) {
            end_calls(*old(element)).push((handler, *page))
        } else {
            end_calls(*old(element))
        },
{
    let page = page.clone();
    let handlers = element.end_tag_handlers();
    handlers.map(|list| list.push(Box::new(move |end| Ok(on_end(handler, &mut *page.try_borrow_mut()?, end)?)))).is_some()
}

/// `lol_html::HtmlRewriter::new` with the default settings but for the
/// handlers: a parser that calls the handlers in their order, has taken
/// nothing yet, and collects what it writes.
#[verifier::external_body]
pub(crate) fn build(entries: Vec<Entry>, page: SharedPage) -> (rewriter: Rewriter)
    ensures
        built_from(rewriter) == entries@,
        page_of(rewriter) == page,
        taken_by(rewriter) == Seq::<Seq<u8>>::empty(),
{
    let output: SharedOutput = Rc::new(RefCell::new(Vec::new()));
    let written_to = output.clone();
    let handlers = entries.into_iter().map(|e| (std::borrow::Cow::Owned(e.selector), e.handlers)).collect();
    let settings = lol_html::Settings { element_content_handlers: handlers, ..lol_html::Settings::default() };
    let sink: Box<dyn FnMut(&[u8])> = Box::new(move |chunk: &[u8]| {
        if let Ok(mut written) = written_to.try_borrow_mut() {
            collect(&mut written, chunk)
        }
    });
    Rewriter { inner: lol_html::HtmlRewriter::new(settings, sink), page, output }
}

/// `lol_html::HtmlRewriter::write`: takes one more chunk of the page. After a
/// failure the parser is of no use: it is dropped, and what is left is the
/// report and the failure that the page holds. For the parser of a sanitizer,
/// whether the chunk is taken and what is left otherwise depends on the
/// sanitizer and on the chunks alone.
#[verifier::external_body]
pub(crate) fn feed_rewriter(rewriter: Rewriter, data: &[u8]) -> (res: Result<Rewriter, Failed>)
    ensures
        res matches Ok(next) ==> {
            &&& built_from(next) == built_from(rewriter)
            &&& page_of(next) == page_of(rewriter)
            &&& taken_by(next) == taken_by(rewriter).push(data@)
        },
        sanitizes(rewriter) ==> match write_outcome(
            started_as(*page_of(rewriter)).key@,
            started_as(*page_of(rewriter)).lazy_images,
            started_as(*page_of(rewriter)).header_stylesheet@,
            serialization(*started_as(*page_of(rewriter)).base_url),
            taken_by(rewriter).push(data@),
        ) {
            None => res is Ok,
            Some(failed) => res matches Err(left) && left == failed,
        },
{
    let Rewriter { mut inner, page, output } = rewriter;
    match inner.write(data) {
        Ok(()) => Ok(Rewriter { inner, page, output }),
        Err(reported) => {
            drop(inner);
            Err(Failed { reported, kept: Rc::into_inner(page).and_then(|held| held.into_inner().failure) })
        },
    }
}

/// `lol_html::HtmlRewriter::end`: reads the page to its end and leaves what
/// the parser reports, what the page holds of failures and source
/// expressions, and what was written. For the parser of a sanitizer that
/// depends on the sanitizer and on the chunks alone.
#[verifier::external_body]
pub(crate) fn finish_rewriter(rewriter: Rewriter) -> (ended: Ended)
    ensures
        sanitizes(rewriter) ==> ended@ == page_outcome(
            started_as(*page_of(rewriter)).key@,
            started_as(*page_of(rewriter)).lazy_images,
            started_as(*page_of(rewriter)).header_stylesheet@,
            serialization(*started_as(*page_of(rewriter)).base_url),
            taken_by(rewriter),
        ),
{
    let Rewriter { inner, page, output } = rewriter;
    let reported = inner.end().err();
    let held = Rc::into_inner(page).map(RefCell::into_inner);
    let (kept, style_hashes) = held.map(|page| (page.failure, page.style_hashes)).unzip();
    Ended { reported, kept: kept.flatten(), style_hashes, output: Rc::into_inner(output).map(RefCell::into_inner) }
}

/// Starts to read an inline style: a fresh CSS rewriter takes its text, and
/// the handler that brings the rewritten style is the last to be called for
/// the end tag. Fails for an element without an end tag.
pub fn transform_style(page: &mut Page, shared: &SharedPage, element: &mut Element<'_, '_>) -> (res: Result<
    (),
    RewriteHtmlError,
>)
    ensures
        final(page).wf(),
        final(page).css_rewriter matches Some(css) && css@ == initial() && css.key() == old(page).key@ && css.base()
            == serialization(*old(page).base_url),
        final(page).style_hashes == old(page).style_hashes,
        final(page).failure == old(page).failure,
        final(page).noscript_buf == old(page).noscript_buf,
        tag_of(*final(element)) == tag_of(*old(element)),
        attributes_of(*final(element)) == attributes_of(*old(element)),
        is_removed(*final(element)) == is_removed(*old(element)),
        (res is Ok) == holds_content(*old(element)),
        res is Ok ==> end_calls(*final(element)) == end_calls(*old(element)).push((EndHandler::FlushStyle, *shared)),
        res is Err ==> res == Err::<(), RewriteHtmlError>(RewriteHtmlError::EndTag),
{
    let key = page.key.clone();
    assert(key@ =~= page.key@);
    page.css_rewriter = Some(CssRewrite::new(key, share(&page.base_url)));
    if on_end_tag(element, EndHandler::FlushStyle, shared) {
        Ok(())
    } else {
        Err(RewriteHtmlError::EndTag)
    }
}

/// Hands a chunk of an inline style to the CSS rewriter and takes it out of
/// the page. Fails where a URL of the style cannot be rewritten, and for text
/// that no start tag announced.
pub fn write_style(page: &mut Page, chunk: &mut TextChunk<'_>) -> (res: Result<(), RewriteHtmlError>)
    requires
        old(page).wf(),
    ensures
        final(page).wf(),
        final(page).style_hashes == old(page).style_hashes,
        final(page).failure == old(page).failure,
        final(page).noscript_buf == old(page).noscript_buf,
        chunk_text(*final(chunk)) == chunk_text(*old(chunk)),
        match old(page).css_rewriter {
            Some(css) => match feed(css.key(), css.base(), css@, encode_utf8(chunk_text(*old(chunk)))) {
                Ok(scan) => {
                    &&& res is Ok
                    &&& final(page).css_rewriter matches Some(after) && after@ == scan
                    &&& chunk_removed(*final(chunk))
                },
                Err(e) => res == Err::<(), RewriteHtmlError>(RewriteHtmlError::CssRewrite(e)),
            },
            None => res == Err::<(), RewriteHtmlError>(RewriteHtmlError::EndTag),
        },
{
    match page.css_rewriter.take() {
        Some(css) => {
            let mut css = css;
            let written = css.write(text_of(chunk).as_bytes());
            page.css_rewriter = Some(css);
            match written {
                Ok(()) => {
                    remove_text(chunk);
                    Ok(())
                },
                Err(e) => Err(RewriteHtmlError::CssRewrite(e)),
            }
        },
        None => Err(RewriteHtmlError::EndTag),
    }
}

/// Ends an inline style: the rewritten style goes before the end tag, and the
/// source expression for exactly that content joins the list of the page.
/// Fails where the rewritten style is not UTF-8, and for an end tag that no
/// start tag announced.
pub fn flush_style(page: &mut Page, end: &mut EndTag<'_>) -> (res: Result<(), RewriteHtmlError>)
    requires
        old(page).wf(),
    ensures
        final(page).wf(),
        final(page).css_rewriter is None,
        final(page).failure == old(page).failure,
        final(page).noscript_buf == old(page).noscript_buf,
        put_behind(*final(end)) == put_behind(*old(end)),
        match old(page).css_rewriter {
            Some(css) => {
                &&& final(page).style_hashes@.len() == old(page).style_hashes@.len() + 1
                &&& final(page).style_hashes@.last()@ == style_hash_of(flushed(css@))
                &&& final(page).style_hashes@.drop_last() == old(page).style_hashes@
                &&& if vstd::utf8::valid_utf8(flushed(css@)) {
                    res is Ok && put_before(*final(end)) == put_before(*old(end)) + decode_utf8(flushed(css@))
                } else {
                    res == Err::<(), RewriteHtmlError>(RewriteHtmlError::Utf8)
                }
            },
            None => res == Err::<(), RewriteHtmlError>(RewriteHtmlError::EndTag) && final(page).style_hashes == old(
                page,
            ).style_hashes,
        },
{
    let css = match page.css_rewriter.take() {
        Some(css) => css,
        None => return Err(RewriteHtmlError::EndTag),
    };
    let css_bytes = match css.end() {
        Ok(bytes) => bytes,
        Err(e) => vstd::pervasive::unreached(),
    };
    page.style_hashes.push(style_hash(css_bytes.as_slice()));
    assert(page.style_hashes@.drop_last() =~= old(page).style_hashes@);
    match from_utf8(css_bytes.as_slice()) {
        Some(text) => {
            proof {
                encode_utf8_decode_utf8(text@);
            }
            put_before_end(end, text);
            Ok(())
        },
        None => Err(RewriteHtmlError::Utf8),
    }
}

/// Starts to read a `noscript` element: it is removed, and the handler that
/// brings what it held, rewritten as a page of its own, is the last to be
/// called for its end tag. Fails for an element without an end tag.
pub fn transform_noscript(shared: &SharedPage, element: &mut Element<'_, '_>) -> (res: Result<(), RewriteHtmlError>)
    ensures
        tag_of(*final(element)) == tag_of(*old(element)),
        attributes_of(*final(element)) == attributes_of(*old(element)),
        (res is Ok) == holds_content(*old(element)),
        res is Ok ==> is_removed(*final(element)),
        res is Ok ==> end_calls(*final(element)) == end_calls(*old(element)).push(
            (EndHandler::FlushNoscriptContent, *shared),
        ),
        res is Err ==> res == Err::<(), RewriteHtmlError>(RewriteHtmlError::EndTag),
{
    if !on_end_tag(element, EndHandler::FlushNoscriptContent, shared) {
        return Err(RewriteHtmlError::EndTag);
    }
    remove(element);
    Ok(())
}

/// Keeps a chunk of text of a `noscript` element for its end tag.
pub fn write_noscript_content(page: &mut Page, chunk: &TextChunk<'_>)
    requires
        old(page).wf(),
    ensures
        final(page).wf(),
        final(page).noscript_buf@ == old(page).noscript_buf@ + chunk_text(*chunk),
        final(page).style_hashes == old(page).style_hashes,
        final(page).failure == old(page).failure,
        final(page).css_rewriter == old(page).css_rewriter,
{
    page.noscript_buf.append(text_of(chunk));
}

/// What the text that a `noscript` element held becomes: the rewritten form
/// of a page of its own that comes in one chunk, with the settings and the
/// base of the page around it.
pub open spec fn noscript_outcome(page: Page) -> Result<(Seq<u8>, Seq<Seq<char>>), RewriteHtmlError> {
    if sanitizer_is_accepted() {
        rewritten_page(
            page.key@,
            page.lazy_images,
            page.header_stylesheet@,
            serialization(*page.base_url),
            seq![encode_utf8(page.noscript_buf@)],
        )
    } else {
        Err(RewriteHtmlError::Pattern)
    }
}

/// Ends a `noscript` element: what it held is rewritten as a page of its own,
/// with the same settings and the same base, and goes behind the end tag. The
/// source expressions of that page follow those that the outer page has so
/// far. Fails where that page fails, and where its rewritten form is not
/// UTF-8; nothing is put behind the end tag then, and no hash is added.
pub fn flush_noscript_content(page: &mut Page, end: &mut EndTag<'_>) -> (res: Result<(), RewriteHtmlError>)
    requires
        old(page).wf(),
    ensures
        final(page).wf(),
        final(page).noscript_buf@ == Seq::<char>::empty(),
        final(page).css_rewriter == old(page).css_rewriter,
        final(page).failure == old(page).failure,
        put_before(*final(end)) == put_before(*old(end)),
        match noscript_outcome(*old(page)) {
            Ok(inner) => if vstd::utf8::valid_utf8(inner.0) {
                &&& res is Ok
                &&& put_behind(*final(end)) == decode_utf8(inner.0) + put_behind(*old(end))
                &&& hash_views(final(page).style_hashes@) == hash_views(old(page).style_hashes@) + inner.1
            } else {
                &&& res == Err::<(), RewriteHtmlError>(RewriteHtmlError::Utf8)
                &&& final(page).style_hashes == old(page).style_hashes
                &&& put_behind(*final(end)) == put_behind(*old(end))
            },
            Err(e) => {
                &&& res matches Err(failure) && failure == e
                &&& final(page).style_hashes == old(page).style_hashes
                &&& put_behind(*final(end)) == put_behind(*old(end))
            },
        },
{
    let mut content = String::new();
    core::mem::swap(&mut content, &mut page.noscript_buf);
    let key = page.key.clone();
    assert(key@ =~= page.key@);
    let settings = HtmlSettings {
        hmac_secret: key,
        lazy_images: page.lazy_images,
        header_stylesheet: page.header_stylesheet.clone(),
    };
    let ghost chunk = encode_utf8(content@);
    let ghost chunks = seq![chunk];
    let ghost lazy_images = page.lazy_images;
    let ghost stylesheet = page.header_stylesheet@;
    let ghost base = crate::client::text_of(&page.base_url);
    proof {
        assert(content@ == old(page).noscript_buf@);
        assert(chunks.drop_last() =~= Seq::<Seq<u8>>::empty());
        assert(Seq::<Seq<u8>>::empty().push(chunk) =~= chunks);
        assert(written(key@, lazy_images, stylesheet, base, chunks.drop_last()) is Ok);
        assert(written(key@, lazy_images, stylesheet, base, chunks) == (match write_outcome(
            key@,
            lazy_images,
            stylesheet,
            base,
            chunks,
        ) {
            Some(failed) => Err::<(), RewriteHtmlError>(failure_from(failed)),
            None => Ok::<(), RewriteHtmlError>(()),
        }));
    }
    let mut rewriter = match HtmlRewrite::new(settings, share(&page.base_url)) {
        Ok(rewriter) => rewriter,
        Err(e) => return Err(e),
    };
    let bytes = content.as_str().as_bytes();
    assert(bytes@ == chunk);
    match rewriter.write(bytes) {
        Ok(()) => {},
        Err(e) => return Err(e),
    }
    let result = match rewriter.end() {
        Ok(result) => result,
        Err(e) => return Err(e),
    };
    let markup = match from_utf8(result.html.as_slice()) {
        Some(text) => text,
        None => return Err(RewriteHtmlError::Utf8),
    };
    proof {
        encode_utf8_decode_utf8(markup@);
    }
    let mut hashes = result.style_hashes;
    let ghost added = hashes@;
    page.style_hashes.append(&mut hashes);
    proof {
        assert(hash_views(old(page).style_hashes@ + added) =~= hash_views(old(page).style_hashes@) + hash_views(added));
    }
    put_behind_end(end, markup);
    Ok(())
}

/// The attributes that a handler leaves on an element of this page, or the
/// failure that it ends in. The handlers for `href`, `src` and `srcset` leave
/// an element without that attribute as it is.
pub open spec fn handled_attributes(handler: Handler, page: Page, tag: Seq<char>, attributes: Attributes) -> Result<
    Attributes,
    RewriteHtmlError,
> {
    let key = page.key@;
    let base = serialization(*page.base_url);
    match handler {
        Handler::RemoveDisallowedAttributes => Ok(
            if tag == "meta"@ {
                attributes
            } else {
                allowed_only(attributes)
            },
        ),
        Handler::TransformHref => if position(attributes, "href"@) is Some {
            match url_attribute(key, base, attributes, "href"@, false) {
                Ok(result) => Ok(result),
                Err(e) => Err(RewriteHtmlError::UrlRewrite(e)),
            }
        } else {
            Ok(attributes)
        },
        Handler::TransformSrc => if position(attributes, "src"@) is Some {
            match url_attribute(key, base, attributes, "src"@, false) {
                Ok(result) => Ok(result),
                Err(e) => Err(RewriteHtmlError::UrlRewrite(e)),
            }
        } else {
            Ok(attributes)
        },
        Handler::TransformSrcset => if position(attributes, "srcset"@) is Some {
            srcset_attributes(key, base, pattern_of(page.srcset_pattern), attributes)
        } else {
            Ok(attributes)
        },
        Handler::TransformImg => Ok(image_attributes(attributes, page.lazy_images)),
        Handler::TransformForm => form_attributes(key, base, attributes),
        Handler::FilterMetaElements => match meta_attributes(key, base, pattern_of(page.refresh_pattern), attributes) {
            Ok(Some(result)) => Ok(result),
            Ok(None) => Ok(attributes),
            Err(e) => Err(e),
        },
        _ => Ok(attributes),
    }
}

/// Whether a handler removes an element with this tag and these attributes.
pub open spec fn removes(handler: Handler, page: Page, tag: Seq<char>, attributes: Attributes) -> bool {
    match handler {
        Handler::RemoveDisallowedAttributes => tag == "meta"@ && has_disallowed_meta_attribute(attributes),
        Handler::RemoveElement => true,
        Handler::FilterLinkElements => !link_stays(attributes),
        Handler::FilterMetaElements => meta_attributes(
            page.key@,
            serialization(*page.base_url),
            pattern_of(page.refresh_pattern),
            attributes,
        ) == Ok::<Option<Attributes>, RewriteHtmlError>(None),
        Handler::TransformNoscript => true,
        _ => false,
    }
}

/// Calls the handler for a start tag. An element that has content ends up
/// with the attributes that the handler leaves, removed where the handler
/// removes it; the handlers for `style` and `noscript` fail on an element
/// without content.
pub fn handle_element(handler: Handler, shared: &SharedPage, page: &mut Page, element: &mut Element<'_, '_>) -> (res:
    Result<(), RewriteHtmlError>)
    requires
        old(page).wf(),
    ensures
        final(page).wf(),
        final(page).failure == old(page).failure,
        page_handled(handler, *old(page), *final(page)),
        element_filled(handler, *old(page), *old(element), *final(element)),
        tag_of(*final(element)) == tag_of(*old(element)),
        res is Ok && handler == Handler::TransformStyle ==> end_calls(*final(element)) == end_calls(
            *old(element),
        ).push((EndHandler::FlushStyle, *shared)),
        res is Ok && handler == Handler::TransformNoscript ==> end_calls(*final(element)) == end_calls(
            *old(element),
        ).push((EndHandler::FlushNoscriptContent, *shared)),
        match handled_attributes(handler, *old(page), tag_of(*old(element)), attributes_of(*old(element))) {
            Ok(attributes) => if (handler == Handler::TransformStyle || handler == Handler::TransformNoscript)
                && !holds_content(*old(element)) {
                res == Err::<(), RewriteHtmlError>(RewriteHtmlError::EndTag)
            } else {
                &&& res is Ok
                &&& attributes_of(*final(element)) == attributes
                &&& is_removed(*final(element)) == (is_removed(*old(element)) || removes(
                    handler,
                    *old(page),
                    tag_of(*old(element)),
                    attributes_of(*old(element)),
                ))
            },
            Err(e) => res == Err::<(), RewriteHtmlError>(e),
        },
{
    match handler {
        Handler::RemoveDisallowedAttributes => {
            remove_disallowed_attributes(element);
            Ok(())
        },
        Handler::TransformHref => {
            proof {
                crate::rewrite_html::names_are_lowercase();
            }
            if has_attribute(element, "href") {
                transform_href(page.key.as_slice(), &page.base_url, element)
            } else {
                Ok(())
            }
        },
        Handler::TransformSrc => {
            proof {
                crate::rewrite_html::names_are_lowercase();
            }
            if has_attribute(element, "src") {
                transform_src(page.key.as_slice(), &page.base_url, element)
            } else {
                Ok(())
            }
        },
        Handler::RemoveElement => {
            remove_element(element);
            Ok(())
        },
        Handler::AppendProxyHeader => {
            append_proxy_header(&page.base_url, element);
            Ok(())
        },
        Handler::TransformForm => transform_form(page.key.as_slice(), &page.base_url, element),
        Handler::AppendProxyStyles => {
            append_proxy_styles(page.header_stylesheet.as_str(), element);
            Ok(())
        },
        Handler::TransformImg => {
            transform_img(page.lazy_images, element);
            Ok(())
        },
        Handler::TransformSrcset => {
            proof {
                crate::rewrite_html::names_are_lowercase();
            }
            if has_attribute(element, "srcset") {
                transform_srcset(page.key.as_slice(), &page.base_url, &page.srcset_pattern, element)
            } else {
                Ok(())
            }
        },
        Handler::FilterLinkElements => {
            filter_link_elements(element);
            Ok(())
        },
        Handler::FilterMetaElements => filter_meta_elements(
            page.key.as_slice(),
            &page.base_url,
            &page.refresh_pattern,
            element,
        ),
        Handler::TransformNoscript => transform_noscript(shared, element),
        Handler::TransformStyle => transform_style(page, shared, element),
    }
}

/// Keeps the first failure of a page for the caller of the rewriter and gives
/// the parser a reason to stop.
fn fail(page: &mut Page, error: RewriteHtmlError) -> (reason: String)
    requires
        old(page).wf(),
    ensures
        final(page).wf(),
        reason@ == error.message_text(),
        final(page).failure == (match old(page).failure {
            Some(first) => Some(first),
            None => Some(error),
        }),
        final(page).css_rewriter == old(page).css_rewriter,
        final(page).style_hashes == old(page).style_hashes,
        final(page).noscript_buf == old(page).noscript_buf,
{
    let reason = error.message();
    if page.failure.is_none() {
        page.failure = Some(error);
    }
    reason
}

/// Makes sure that an inline style, if one is being read, can take more
/// text: a CSS rewriter that is not between two calls is dropped.
fn settle(page: &mut Page)
    ensures
        final(page).wf(),
        old(page).wf() ==> *final(page) == *old(page),
{
    let settled = match &page.css_rewriter {
        Some(css) => css.is_settled(),
        None => true,
    };
    if !settled {
        page.css_rewriter = None;
    }
}

/// How the outcome of a handler reaches the parser: success as it is, and a
/// failure as its message; the page keeps the failure, unless it keeps one
/// already.
pub open spec fn handed_on(
    outcome: Result<(), RewriteHtmlError>,
    kept_before: Option<RewriteHtmlError>,
    res: Result<(), String>,
    kept_after: Option<RewriteHtmlError>,
) -> bool {
    match outcome {
        Ok(()) => res is Ok && kept_after == kept_before,
        Err(e) => {
            &&& res matches Err(reason) && reason@ == e.message_text()
            &&& kept_after == (match kept_before {
                Some(first) => Some(first),
                None => Some(e),
            })
        },
    }
}

/// What a handler puts into an element: the banner at the top of a `body`,
/// its style sheet at the end of a `head`, and into a form the hidden field
/// with the method that the form had.
pub open spec fn element_filled(handler: Handler, page: Page, before: Element<'_, '_>, after: Element<'_, '_>) -> bool {
    match handler {
        Handler::AppendProxyHeader => {
            &&& appended(after) == appended(before)
            &&& prepended(after) == if holds_content(before) {
                header_markup(serialization(*page.base_url)) + prepended(before)
            } else {
                prepended(before)
            }
        },
        Handler::AppendProxyStyles => {
            &&& prepended(after) == prepended(before)
            &&& appended(after) == if holds_content(before) {
                appended(before) + header_style(page.header_stylesheet@)
            } else {
                appended(before)
            }
        },
        Handler::TransformForm => {
            &&& appended(after) == appended(before)
            &&& element_outcome(handler, page, before) is Ok ==> prepended(after) == form_prepended(
                attributes_of(before),
                holds_content(before),
                prepended(before),
            )
        },
        _ => true,
    }
}

/// What a handler for a start tag does to the page: the start of a style
/// brings a fresh CSS rewriter with the key and the base of the page; every
/// other handler leaves the page as it is.
pub open spec fn page_handled(handler: Handler, before: Page, after: Page) -> bool {
    &&& after.style_hashes == before.style_hashes
    &&& after.noscript_buf == before.noscript_buf
    &&& if handler == Handler::TransformStyle {
        after.css_rewriter matches Some(css) && css@ == initial() && css.key() == before.key@ && css.base()
            == serialization(*before.base_url)
    } else {
        after.css_rewriter == before.css_rewriter
    }
}

/// Whether the handler for a start tag succeeds on an element of this page.
pub open spec fn element_outcome(handler: Handler, page: Page, element: Element<'_, '_>) -> Result<
    (),
    RewriteHtmlError,
> {
    match handled_attributes(handler, page, tag_of(element), attributes_of(element)) {
        Ok(_) => if (handler == Handler::TransformStyle || handler == Handler::TransformNoscript) && !holds_content(
            element,
        ) {
            Err(RewriteHtmlError::EndTag)
        } else {
            Ok(())
        },
        Err(e) => Err(e),
    }
}

/// What the handler for a start tag makes of an element where it succeeds:
/// the attributes that it leaves, and whether the element is removed.
pub open spec fn element_handled(handler: Handler, page: Page, before: Element<'_, '_>, after: Element<'_, '_>) -> bool {
    &&& tag_of(after) == tag_of(before)
    &&& element_outcome(handler, page, before) is Ok ==> {
        &&& Ok::<Attributes, RewriteHtmlError>(attributes_of(after)) == handled_attributes(
            handler,
            page,
            tag_of(before),
            attributes_of(before),
        )
        &&& is_removed(after) == (is_removed(before) || removes(handler, page, tag_of(before), attributes_of(before)))
    }
}

/// Whether the handler for a chunk of text succeeds.
pub open spec fn text_outcome(handler: TextHandler, page: Page, chunk: TextChunk<'_>) -> Result<(), RewriteHtmlError> {
    match handler {
        TextHandler::WriteNoscriptContent => Ok(()),
        TextHandler::WriteStyle => match page.css_rewriter {
            Some(css) => match feed(css.key(), css.base(), css@, encode_utf8(chunk_text(chunk))) {
                Ok(_) => Ok(()),
                Err(e) => Err(RewriteHtmlError::CssRewrite(e)),
            },
            None => Err(RewriteHtmlError::EndTag),
        },
    }
}

/// What the handler for a chunk of text does with the chunk and the page:
/// text of a `noscript` element is kept for its end tag; text of a style goes
/// to the CSS rewriter and out of the page.
pub open spec fn text_handled(
    handler: TextHandler,
    before: Page,
    after: Page,
    chunk_before: TextChunk<'_>,
    chunk_after: TextChunk<'_>,
) -> bool {
    &&& after.style_hashes == before.style_hashes
    &&& chunk_text(chunk_after) == chunk_text(chunk_before)
    &&& match handler {
        TextHandler::WriteNoscriptContent => {
            &&& after.noscript_buf@ == before.noscript_buf@ + chunk_text(chunk_before)
            &&& after.css_rewriter == before.css_rewriter
            &&& chunk_removed(chunk_after) == chunk_removed(chunk_before)
        },
        TextHandler::WriteStyle => {
            &&& after.noscript_buf == before.noscript_buf
            &&& before.css_rewriter matches Some(css) ==> (feed(
                css.key(),
                css.base(),
                css@,
                encode_utf8(chunk_text(chunk_before)),
            ) matches Ok(scan) ==> after.css_rewriter matches Some(fed) && fed@ == scan && chunk_removed(chunk_after))
        },
    }
}

/// Whether the handler for an end tag succeeds.
pub open spec fn end_outcome(handler: EndHandler, page: Page) -> Result<(), RewriteHtmlError> {
    match handler {
        EndHandler::FlushStyle => match page.css_rewriter {
            Some(css) => if vstd::utf8::valid_utf8(flushed(css@)) {
                Ok(())
            } else {
                Err(RewriteHtmlError::Utf8)
            },
            None => Err(RewriteHtmlError::EndTag),
        },
        EndHandler::FlushNoscriptContent => match noscript_outcome(page) {
            Ok(inner) => if vstd::utf8::valid_utf8(inner.0) {
                Ok(())
            } else {
                Err(RewriteHtmlError::Utf8)
            },
            Err(e) => Err(e),
        },
    }
}

/// What the handler for an end tag does with the tag and the page: the end
/// of a style brings the rewritten style before the tag and its hash into
/// the list; the end of a `noscript` element brings what it held, rewritten,
/// behind the tag, and the hashes of that into the list.
pub open spec fn end_handled(handler: EndHandler, before: Page, after: Page, end_before: EndTag<'_>, end_after: EndTag<'_>) -> bool {
    match handler {
        EndHandler::FlushStyle => {
            &&& after.css_rewriter is None
            &&& after.noscript_buf == before.noscript_buf
            &&& put_behind(end_after) == put_behind(end_before)
            &&& match before.css_rewriter {
                Some(css) => {
                    &&& after.style_hashes@.len() == before.style_hashes@.len() + 1
                    &&& after.style_hashes@.last()@ == style_hash_of(flushed(css@))
                    &&& after.style_hashes@.drop_last() == before.style_hashes@
                    &&& vstd::utf8::valid_utf8(flushed(css@)) ==> put_before(end_after) == put_before(end_before)
                        + decode_utf8(flushed(css@))
                },
                None => after.style_hashes == before.style_hashes,
            }
        },
        EndHandler::FlushNoscriptContent => {
            &&& after.noscript_buf@ == Seq::<char>::empty()
            &&& after.css_rewriter == before.css_rewriter
            &&& put_before(end_after) == put_before(end_before)
            &&& if noscript_outcome(before) matches Ok(inner) && vstd::utf8::valid_utf8(inner.0) {
                &&& put_behind(end_after) == decode_utf8(noscript_outcome(before)->Ok_0.0) + put_behind(end_before)
                &&& hash_views(after.style_hashes@) == hash_views(before.style_hashes@) + noscript_outcome(
                    before,
                )->Ok_0.1
            } else {
                &&& after.style_hashes == before.style_hashes
                &&& put_behind(end_after) == put_behind(end_before)
            }
        },
    }
}

/// What the parser calls for a start tag: the handler, whose outcome is
/// handed on.
pub(crate) fn on_element(handler: Handler, shared: &SharedPage, page: &mut Page, element: &mut Element<'_, '_>) -> (res:
    Result<(), String>)
    ensures
        final(page).wf(),
        old(page).wf() ==> {
            &&& element_handled(handler, *old(page), *old(element), *final(element))
            &&& element_filled(handler, *old(page), *old(element), *final(element))
            &&& page_handled(handler, *old(page), *final(page))
            &&& handed_on(
                element_outcome(handler, *old(page), *old(element)),
                old(page).failure,
                res,
                final(page).failure,
            )
        },
{
    settle(page);
    match handle_element(handler, shared, page, element) {
        Ok(()) => Ok(()),
        Err(e) => Err(fail(page, e)),
    }
}

/// What the parser calls for a chunk of text: the handler, whose outcome is
/// handed on.
pub(crate) fn on_text(handler: TextHandler, page: &mut Page, chunk: &mut TextChunk<'_>) -> (res: Result<(), String>)
    ensures
        final(page).wf(),
        old(page).wf() ==> {
            &&& text_handled(handler, *old(page), *final(page), *old(chunk), *final(chunk))
            &&& handed_on(text_outcome(handler, *old(page), *old(chunk)), old(page).failure, res, final(page).failure)
        },
{
    settle(page);
    let handled = match handler {
        TextHandler::WriteNoscriptContent => {
            write_noscript_content(page, chunk);
            Ok(())
        },
        TextHandler::WriteStyle => write_style(page, chunk),
    };
    match handled {
        Ok(()) => Ok(()),
        Err(e) => Err(fail(page, e)),
    }
}

/// What the parser calls for an end tag: the handler, whose outcome is
/// handed on.
pub(crate) fn on_end(handler: EndHandler, page: &mut Page, end: &mut EndTag<'_>) -> (res: Result<(), String>)
    ensures
        final(page).wf(),
        old(page).wf() ==> {
            &&& end_handled(handler, *old(page), *final(page), *old(end), *final(end))
            &&& handed_on(end_outcome(handler, *old(page)), old(page).failure, res, final(page).failure)
        },
{
    settle(page);
    let handled = match handler {
        EndHandler::FlushStyle => flush_style(page, end),
        EndHandler::FlushNoscriptContent => flush_noscript_content(page, end),
    };
    match handled {
        Ok(()) => Ok(()),
        Err(e) => Err(fail(page, e)),
    }
}

/// The selectors of the sanitizer with their handlers, in the order in which
/// the handlers are called for one element.
pub open spec fn handler_table() -> Seq<(Seq<char>, Handler)> {
    seq![
        ("*"@, Handler::RemoveDisallowedAttributes),
        ("*[href]"@, Handler::TransformHref),
        ("*[src]"@, Handler::TransformSrc),
        ("applet"@, Handler::RemoveElement),
        ("base"@, Handler::RemoveElement),
        ("body"@, Handler::AppendProxyHeader),
        ("canvas"@, Handler::RemoveElement),
        ("embed"@, Handler::RemoveElement),
        ("form"@, Handler::TransformForm),
        ("head"@, Handler::AppendProxyStyles),
        ("img"@, Handler::TransformImg),
        ("img[srcset]"@, Handler::TransformSrcset),
        ("source[srcset]"@, Handler::TransformSrcset),
        ("link"@, Handler::FilterLinkElements),
        ("math"@, Handler::RemoveElement),
        ("meta"@, Handler::FilterMetaElements),
        ("noscript"@, Handler::TransformNoscript),
        ("script"@, Handler::RemoveElement),
        ("style"@, Handler::TransformStyle),
        ("svg"@, Handler::RemoveElement),
    ]
}

/// For each element that is never let through, the sanitizer selects the
/// element by its name and calls the handler that removes it with everything
/// in it.
pub proof fn removed_tags_are_removed(i: int)
    requires
        0 <= i < crate::rewrite_html::REMOVED_TAGS@.len(),
    ensures
        handler_table().contains((crate::rewrite_html::REMOVED_TAGS@[i]@, Handler::RemoveElement)),
{
    let table = handler_table();
    assert(table[3] == ("applet"@, Handler::RemoveElement));
    assert(table[4] == ("base"@, Handler::RemoveElement));
    assert(table[6] == ("canvas"@, Handler::RemoveElement));
    assert(table[7] == ("embed"@, Handler::RemoveElement));
    assert(table[14] == ("math"@, Handler::RemoveElement));
    assert(table[17] == ("script"@, Handler::RemoveElement));
    assert(table[19] == ("svg"@, Handler::RemoveElement));
}

/// Whether the parser takes everything that the sanitizer is made of: the
/// two patterns, the selectors of the handlers for start tags, and those of
/// the handlers for text.
pub open spec fn sanitizer_is_accepted() -> bool {
    &&& is_pattern(SRCSET_PATTERN@)
    &&& is_pattern(REFRESH_PATTERN@)
    &&& forall|i: int| 0 <= i < handler_table().len() ==> is_selector(#[trigger] handler_table()[i].0)
    &&& is_selector("noscript"@)
    &&& is_selector("style"@)
}

/// The selectors of the sanitizer with their handlers, as the parser gets
/// them.
pub fn element_handlers() -> (table: Vec<(&'static str, Handler)>)
    ensures
        table@.map_values(|entry: (&'static str, Handler)| (entry.0@, entry.1)) == handler_table(),
{
    let mut table: Vec<(&'static str, Handler)> = Vec::new();
    table.push(("*", Handler::RemoveDisallowedAttributes));
    table.push(("*[href]", Handler::TransformHref));
    table.push(("*[src]", Handler::TransformSrc));
    table.push(("applet", Handler::RemoveElement));
    table.push(("base", Handler::RemoveElement));
    table.push(("body", Handler::AppendProxyHeader));
    table.push(("canvas", Handler::RemoveElement));
    table.push(("embed", Handler::RemoveElement));
    table.push(("form", Handler::TransformForm));
    table.push(("head", Handler::AppendProxyStyles));
    table.push(("img", Handler::TransformImg));
    table.push(("img[srcset]", Handler::TransformSrcset));
    table.push(("source[srcset]", Handler::TransformSrcset));
    table.push(("link", Handler::FilterLinkElements));
    table.push(("math", Handler::RemoveElement));
    table.push(("meta", Handler::FilterMetaElements));
    table.push(("noscript", Handler::TransformNoscript));
    table.push(("script", Handler::RemoveElement));
    table.push(("style", Handler::TransformStyle));
    table.push(("svg", Handler::RemoveElement));
    assert(table@.map_values(|entry: (&'static str, Handler)| (entry.0@, entry.1)) =~= handler_table());
    table
}

/// A streaming sanitizer for one page.
pub struct HtmlRewrite {
    live: Option<Rewriter>,
}

/// The failure that a page ends in, given what its handlers have kept: the
/// first failure of a handler, or else what the parser reports.
pub open spec fn page_failure(kept: Option<RewriteHtmlError>, reported: lol_html::errors::RewritingError) -> RewriteHtmlError {
    match kept {
        Some(first) => first,
        None => RewriteHtmlError::Rewriting(reported),
    }
}

/// The failure that the reading of a page ends in. A failure of the parser
/// itself is handed on as it is reported. Where the parser reports the
/// failure of a handler, it is the failure that the handler has kept in the
/// page, if the page still holds one.
pub open spec fn failure_from(failed: Failed) -> RewriteHtmlError {
    if is_handler_failure(failed.reported) {
        page_failure(failed.kept, failed.reported)
    } else {
        RewriteHtmlError::Rewriting(failed.reported)
    }
}

/// The source expressions of a list, as texts.
pub open spec fn hash_views(hashes: Seq<String>) -> Seq<Seq<char>> {
    hashes.map_values(|hash: String| hash@)
}

/// The rewritten page with the source expressions of its styles, or the
/// failure, that is made of what the parser has left at the end. A page
/// that cannot be had back from the parser counts as a failed rewriter.
pub open spec fn result_of(left: Left) -> Result<(Seq<u8>, Seq<Seq<char>>), RewriteHtmlError> {
    match left.reported {
        Some(reported) => Err(failure_from((Failed { reported, kept: left.kept }))),
        None => match (left.output, left.style_hashes) {
            (Some(html), Some(hashes)) => Ok((html, hashes)),
            _ => Err(RewriteHtmlError::Poisoned),
        },
    }
}

/// Whether the parser of a sanitizer takes these chunks one after the other,
/// or else the failure of the first chunk that it does not take.
pub open spec fn written(
    key: Seq<u8>,
    lazy_images: bool,
    stylesheet: Seq<char>,
    base: Seq<char>,
    chunks: Seq<Seq<u8>>,
) -> Result<(), RewriteHtmlError>
    decreases chunks.len(),
{
    if chunks.len() == 0 {
        Ok(())
    } else {
        match written(key, lazy_images, stylesheet, base, chunks.drop_last()) {
            Err(e) => Err(e),
            Ok(()) => match write_outcome(key, lazy_images, stylesheet, base, chunks) {
                Some(failed) => Err(failure_from(failed)),
                None => Ok(()),
            },
        }
    }
}

/// The rewritten form of a page that comes in chunks, with the source
/// expressions of its inline styles: what a sanitizer gives that takes the
/// chunks one after the other and is then ended.
pub open spec fn rewritten_page(
    key: Seq<u8>,
    lazy_images: bool,
    stylesheet: Seq<char>,
    base: Seq<char>,
    chunks: Seq<Seq<u8>>,
) -> Result<(Seq<u8>, Seq<Seq<char>>), RewriteHtmlError> {
    match written(key, lazy_images, stylesheet, base, chunks) {
        Err(e) => Err(e),
        Ok(()) => result_of(page_outcome(key, lazy_images, stylesheet, base, chunks)),
    }
}

/// Once a chunk was not taken, the chunks behind it change nothing.
pub proof fn written_fails_for_good(
    key: Seq<u8>,
    lazy_images: bool,
    stylesheet: Seq<char>,
    base: Seq<char>,
    chunks: Seq<Seq<u8>>,
    n: int,
)
    requires
        0 <= n <= chunks.len(),
        written(key, lazy_images, stylesheet, base, chunks.take(n)) is Err,
    ensures
        written(key, lazy_images, stylesheet, base, chunks) == written(
            key,
            lazy_images,
            stylesheet,
            base,
            chunks.take(n),
        ),
    decreases chunks.len() - n,
{
    if n < chunks.len() {
        assert(chunks.take(n + 1).drop_last() =~= chunks.take(n));
        written_fails_for_good(key, lazy_images, stylesheet, base, chunks, n + 1);
    } else {
        assert(chunks.take(n) =~= chunks);
    }
}

/// Chooses the failure that a page ends in from what its handlers have kept.
pub fn choose_failure(kept: Option<RewriteHtmlError>, reported: lol_html::errors::RewritingError) -> (failure:
    RewriteHtmlError)
    ensures
        failure == page_failure(kept, reported),
{
    match kept {
        Some(first) => first,
        None => RewriteHtmlError::Rewriting(reported),
    }
}

/// The failure that the reading of a page ends in, from what the parser has
/// left.
pub fn failure_of(failed: Failed) -> (failure: RewriteHtmlError)
    ensures
        failure == failure_from(failed),
{
    if !comes_from_handler(&failed.reported) {
        return RewriteHtmlError::Rewriting(failed.reported);
    }
    choose_failure(failed.kept, failed.reported)
}

/// The rewritten page, or the failure, from what the parser has left at the
/// end.
pub fn page_result(ended: Ended) -> (res: Result<HtmlRewriteResult, RewriteHtmlError>)
    ensures
        match result_of(ended@) {
            Ok(page) => res matches Ok(r) && r.html@ == page.0 && hash_views(r.style_hashes@) == page.1,
            Err(e) => res matches Err(failure) && failure == e,
        },
{
    let Ended { reported, kept, style_hashes, output } = ended;
    match reported {
        Some(reported) => Err(failure_of(Failed { reported, kept })),
        None => match (output, style_hashes) {
            (Some(html), Some(style_hashes)) => Ok(HtmlRewriteResult { html, style_hashes }),
            _ => Err(RewriteHtmlError::Poisoned),
        },
    }
}

impl HtmlRewrite {
    /// Whether the rewriter still takes input.
    pub closed spec fn is_live(&self) -> bool {
        self.live is Some
    }

    /// The parser of a live rewriter is that of a sanitizer.
    pub closed spec fn wf(&self) -> bool {
        self.live matches Some(rewriter) ==> sanitizes(rewriter)
    }

    /// The chunks that a live rewriter has taken so far.
    pub closed spec fn taken(&self) -> Seq<Seq<u8>> {
        taken_by(self.live->0)
    }

    /// The key with which a live rewriter signs.
    pub closed spec fn key(&self) -> Seq<u8> {
        started_as(*page_of(self.live->0)).key@
    }

    /// Whether the images of the page may load lazily.
    pub closed spec fn lazy_images(&self) -> bool {
        started_as(*page_of(self.live->0)).lazy_images
    }

    /// The style sheet of the banner.
    pub closed spec fn stylesheet(&self) -> Seq<char> {
        started_as(*page_of(self.live->0)).header_stylesheet@
    }

    /// The text of the URL at which the page was found.
    pub closed spec fn base(&self) -> Seq<char> {
        serialization(*started_as(*page_of(self.live->0)).base_url)
    }

    /// Whether a live rewriter stands for the same sanitizer as another.
    pub open spec fn same_sanitizer(&self, other: &HtmlRewrite) -> bool {
        &&& self.key() == other.key()
        &&& self.lazy_images() == other.lazy_images()
        &&& self.stylesheet() == other.stylesheet()
        &&& self.base() == other.base()
    }

    /// A sanitizer for a page found at `url`. Fails with `Pattern` exactly
    /// where the parser refuses a selector or a pattern of the sanitizer.
    /// The parser gets the handlers of the table, in its order, and then the
    /// two handlers for text, all for one fresh page.
    pub fn new(settings: HtmlSettings, url: Rc<url::Url>) -> (res: Result<HtmlRewrite, RewriteHtmlError>)
        ensures
            (res is Ok) == sanitizer_is_accepted(),
            res matches Ok(rewriter) ==> {
                &&& rewriter.is_live()
                &&& rewriter.wf()
                &&& rewriter.taken() == Seq::<Seq<u8>>::empty()
                &&& rewriter.key() == settings.hmac_secret@
                &&& rewriter.lazy_images() == settings.lazy_images
                &&& rewriter.stylesheet() == settings.header_stylesheet@
                &&& rewriter.base() == serialization(*url)
            },
            res matches Err(e) ==> e == RewriteHtmlError::Pattern,
    {
        let srcset_pattern = match compile(SRCSET_PATTERN) {
            Some(pattern) => pattern,
            None => return Err(RewriteHtmlError::Pattern),
        };
        let refresh_pattern = match compile(REFRESH_PATTERN) {
            Some(pattern) => pattern,
            None => return Err(RewriteHtmlError::Pattern),
        };
        let page: SharedPage = Rc::new(
            page_cell(
                Page {
                    key: settings.hmac_secret,
                    base_url: url,
                    lazy_images: settings.lazy_images,
                    header_stylesheet: settings.header_stylesheet,
                    srcset_pattern,
                    refresh_pattern,
                    css_rewriter: None,
                    style_hashes: Vec::new(),
                    noscript_buf: String::new(),
                    failure: None,
                },
            ),
        );
        let table = element_handlers();
        let ghost selectors = handler_table();
        let mut entries: Vec<Entry> = Vec::new();
        let mut i: usize = 0;
        while i < table.len()
            invariant
                i <= table.len(),
                selectors == handler_table(),
                table@.map_values(|entry: (&'static str, Handler)| (entry.0@, entry.1)) == selectors,
                forall|j: int| 0 <= j < i ==> is_selector(#[trigger] selectors[j].0),
                entries@.len() == i,
                forall|j: int|
                    0 <= j < i ==> {
                        &&& selector_text((#[trigger] entries@[j]).selector) == selectors[j].0
                        &&& registered(entries@[j].handlers) == Registered::Element(selectors[j].1)
                        &&& bound_to(entries@[j].handlers) == page
                    },
            decreases table.len() - i,
        {
            assert(selectors[i as int] == (table@[i as int].0@, table@[i as int].1));
            match parse_selector(table[i].0) {
                Some(selector) => entries.push(Entry { selector, handlers: element_handler(table[i].1, &page) }),
                None => {
                    assert(!is_selector(handler_table()[i as int].0));
                    return Err(RewriteHtmlError::Pattern);
                },
            }
            i += 1;
        }
        assert(table@.len() == selectors.len());
        match parse_selector("noscript") {
            Some(selector) => entries.push(
                Entry { selector, handlers: text_handler(TextHandler::WriteNoscriptContent, &page) },
            ),
            None => return Err(RewriteHtmlError::Pattern),
        }
        match parse_selector("style") {
            Some(selector) => entries.push(Entry { selector, handlers: text_handler(TextHandler::WriteStyle, &page) }),
            None => return Err(RewriteHtmlError::Pattern),
        }
        let rewriter = build(entries, page);
        Ok(HtmlRewrite { live: Some(rewriter) })
    }

    /// Reads one more chunk of the page. Whether the chunk is taken is for
    /// the parser and the handlers to say, over the chunks so far. The first
    /// failure of a handler or of the parser ends the rewriting: every later
    /// call fails with `Poisoned`.
    pub fn write(&mut self, data: &[u8]) -> (res: Result<(), RewriteHtmlError>)
        requires
            old(self).wf(),
        ensures
            final(self).wf(),
            if old(self).is_live() {
                match write_outcome(
                    old(self).key(),
                    old(self).lazy_images(),
                    old(self).stylesheet(),
                    old(self).base(),
                    old(self).taken().push(data@),
                ) {
                    None => {
                        &&& res is Ok
                        &&& final(self).is_live()
                        &&& final(self).taken() == old(self).taken().push(data@)
                        &&& final(self).same_sanitizer(old(self))
                    },
                    Some(failed) => {
                        &&& res matches Err(failure) && failure == failure_from(failed)
                        &&& !final(self).is_live()
                    },
                }
            } else {
                res == Err::<(), RewriteHtmlError>(RewriteHtmlError::Poisoned) && !final(self).is_live()
            },
    {
        match self.live.take() {
            None => Err(RewriteHtmlError::Poisoned),
            Some(rewriter) => match feed_rewriter(rewriter, data) {
                Ok(next) => {
                    self.live = Some(next);
                    Ok(())
                },
                Err(failed) => Err(failure_of(failed)),
            },
        }
    }

    /// Reads the page to its end and returns the rewritten page with the
    /// source expressions of its inline styles, in the order in which the
    /// styles ended: what the parser and the handlers make of the chunks
    /// that were taken.
    pub fn end(self) -> (res: Result<HtmlRewriteResult, RewriteHtmlError>)
        requires
            self.wf(),
        ensures
            if self.is_live() {
                match result_of(
                    page_outcome(self.key(), self.lazy_images(), self.stylesheet(), self.base(), self.taken()),
                ) {
                    Ok(page) => res matches Ok(r) && r.html@ == page.0 && hash_views(r.style_hashes@) == page.1,
                    Err(e) => res matches Err(failure) && failure == e,
                }
            } else {
                res matches Err(e) && e == RewriteHtmlError::Poisoned
            },
    {
        match self.live {
            Some(rewriter) => page_result(finish_rewriter(rewriter)),
            None => Err(RewriteHtmlError::Poisoned),
        }
    }
}

/// Takes what the parser has written.
pub fn collect(written: &mut Vec<u8>, chunk: &[u8])
    ensures
        final(written)@ == old(written)@ + chunk@,
{
    written.extend_from_slice(chunk);
    assert(written@ =~= old(written)@ + chunk@);
}

} // verus!
