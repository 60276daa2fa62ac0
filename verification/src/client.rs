//! Decisions of the fetch path: whether a request carries a valid signature,
//! what to ask of the origin, and what to make of its answer.

use vstd::prelude::*;
use vstd::utf8::encode_utf8;
use hmac::Mac;
use std::rc::Rc;
use vstd::utf8::{is_ascii_chars, is_ascii_chars_encode_utf8};
use crate::config::Config;
use crate::css_laws::{chunking_is_irrelevant, concatenated, feed_chunks};
use crate::host::{host_of, host_verdict, validate_request_host};
use crate::rewrite_css::{initial, rewritten_css, CssRewrite, RewriteCssError};
use crate::rewrite_html::RewriteHtmlError;
use crate::rewrite_url::{
    hex_digit_value, hex_lower, hex_lower_digit, hex_lower_digits, hmac_sha256, joined, parsed, rewrite_url, rewritten_url,
    serialization, signature, url_append_pair, url_as_str, url_join, url_parse, with_query_pair, RewriteUrlError,
    PAIR_LIMIT,
};
use crate::rewriter::{
    hash_views, rewritten_page, sanitizer_is_accepted, share, written, written_fails_for_good, HtmlRewrite,
    HtmlRewriteResult, HtmlSettings,
};

verus! {

#[verifier::external_type_specification]
pub struct ExFromHexError(hex::FromHexError);

/// Why a request was not served.
#[derive(Debug)]
pub enum ClientError {
    /// No key is configured.
    HmacInstance,
    /// The signature is not a hexadecimal string.
    Hex(hex::FromHexError),
    /// No outbound client is configured.
    RequestClient,
    /// The request to the origin failed.
    Request,
    /// The signature does not belong to the URL.
    InvalidHash,
    /// The origin answered with a status that is neither 200 nor a redirect.
    UnexpectedStatusCode(u16),
    /// A header of the origin's answer is not text.
    StringDecode,
    /// The target is not an absolute URL.
    UrlParse(url::ParseError),
    /// The origin's content type cannot be parsed.
    MimeParse,
    /// The origin's body is not UTF-8 where it has to be.
    Utf8Decode,
    /// A redirect target could not be turned into a proxy URL.
    UrlRewrite(RewriteUrlError),
    /// The page could not be rewritten.
    HtmlRewrite(RewriteHtmlError),
    /// The style sheet could not be rewritten.
    CssRewrite(RewriteCssError),
    /// The request makes no sense.
    BadRequest,
    /// The target's address is outside the permitted range.
    IpRangeDenied(String),
    /// The target's host name has no address.
    ResolveHostname(String),
}

/// The value of a byte that is a hexadecimal digit, upper or lower case.
pub open spec fn hex_value(b: u8) -> Option<u8> {
    hex_digit_value(b as char)
}

/// The position of the first byte that is no hexadecimal digit.
pub open spec fn first_non_hex(bytes: Seq<u8>) -> Option<int>
    decreases bytes.len(),
{
    if bytes.len() == 0 {
        None
    } else if hex_value(bytes[0]) is None {
        Some(0)
    } else {
        match first_non_hex(bytes.drop_first()) {
            Some(i) => Some(i + 1),
            None => None,
        }
    }
}

/// The bytes that an even number of hexadecimal digits stand for.
pub open spec fn hex_bytes(digits: Seq<u8>) -> Seq<u8> {
    Seq::new(
        digits.len() / 2,
        |i: int| (hex_value(digits[2 * i]).unwrap() * 16 + hex_value(digits[2 * i + 1]).unwrap()) as u8,
    )
}

/// What decoding a hexadecimal string gives: the bytes, or the first fault.
pub open spec fn hex_decoded(digits: Seq<u8>) -> Result<Seq<u8>, hex::FromHexError> {
    if digits.len() % 2 != 0 {
        Err(hex::FromHexError::OddLength)
    } else {
        match first_non_hex(digits) {
            Some(i) => Err(hex::FromHexError::InvalidHexCharacter { c: digits[i] as char, index: i as usize }),
            None => Ok(hex_bytes(digits)),
        }
    }
}

/// What checking `hash` against `url` gives under `key`.
pub open spec fn hash_verdict(key: Seq<u8>, url: Seq<char>, hash: Seq<char>) -> Result<(), ClientError> {
    match hex_decoded(encode_utf8(hash)) {
        Err(e) => Err(ClientError::Hex(e)),
        Ok(tag) => if tag == hmac_sha256(key, encode_utf8(url)) {
            Ok(())
        } else {
            Err(ClientError::InvalidHash)
        },
    }
}

/// `hex::decode`: the bytes behind an even number of hexadecimal digits of
/// either case; `OddLength` for an odd number of bytes, else the first byte
/// that is no digit, with its position.
#[verifier::external_body]
pub(crate) fn hex_decode(digits: &str) -> (res: Result<Vec<u8>, hex::FromHexError>)
    ensures
        match (res, hex_decoded(encode_utf8(digits@))) {
            (Ok(bytes), Ok(expected)) => bytes@ == expected,
            (Err(e), Err(expected)) => e == expected,
            _ => false,
        },
{
    hex::decode(digits)
}

/// `Mac::verify_slice` of `hmac::Hmac<sha2::Sha256>` keyed with `key`, after one
/// `update` with `message`: whether `tag` is the tag of the message, compared in
/// constant time.
#[verifier::external_body]
pub(crate) fn hmac_verify(key: &[u8], message: &[u8], tag: &[u8]) -> (valid: bool)
    ensures
        valid == (tag@ == hmac_sha256(key@, message@)),
{
    let mut mac = hmac::Hmac::<sha2::Sha256>::new_from_slice(key).expect("any key length is accepted");
    mac.update(message);
    mac.verify_slice(tag).is_ok()
}

/// Checks that `hash` is the signature of `url` under `key`. The URL is taken
/// as it was received, byte for byte.
pub fn verify_hash(key: &[u8], url: &str, hash: &str) -> (res: Result<(), ClientError>)
    ensures
        res == hash_verdict(key@, url@, hash@),
{
    let tag = match hex_decode(hash) {
        Ok(bytes) => bytes,
        Err(e) => return Err(ClientError::Hex(e)),
    };
    if hmac_verify(key, url.as_bytes(), tag.as_slice()) {
        Ok(())
    } else {
        Err(ClientError::InvalidHash)
    }
}

#[verifier::external_type_specification]
#[verifier::external_body]
pub struct ExMime(mime::Mime);

/// The media type that `mime::Mime::from_str` reads from a text.
pub uninterp spec fn parsed_mime(text: Seq<char>) -> Option<mime::Mime>;

/// Whether two media types are equal by `mime::Mime::eq`.
pub uninterp spec fn mime_equal(a: mime::Mime, b: mime::Mime) -> bool;

/// `mime::Mime::from_str`: the media type that a text names.
#[verifier::external_body]
pub(crate) fn parse_mime(text: &str) -> (media_type: Option<mime::Mime>)
    ensures
        media_type == parsed_mime(text@),
{
    text.parse().ok()
}

/// `mime::Mime::eq`: whether two media types are the same.
#[verifier::external_body]
pub(crate) fn mime_eq(a: &mime::Mime, b: &mime::Mime) -> (same: bool)
    ensures
        same == mime_equal(*a, *b),
{
    a == b
}

/// The method of a request to the origin.
#[derive(Debug, Clone, Copy, PartialEq, Eq, Structural)]
pub enum Method {
    Get,
    Post,
}

/// A form that the client has sent to the proxy, and the method that the
/// form was written for.
#[derive(Debug)]
pub struct FormRequest {
    pub body: Vec<(String, String)>,
    pub method: Method,
}

/// A request to the origin that has passed the checks.
#[derive(Debug)]
pub struct RequestPlan {
    pub method: Method,
    pub url: url::Url,
    /// The form to send as the body of the request.
    pub body: Option<Vec<(String, String)>>,
    /// A host name that has to be resolved and held against the permitted
    /// range before the request is sent.
    pub resolve: Option<String>,
}

/// How the body of an answer reaches the client.
#[derive(Debug)]
pub enum BodyType {
    /// Rewritten as a whole.
    Complete(Vec<u8>),
    /// Handed on as it comes from the origin.
    Stream,
}

/// How the body of an answer is treated.
#[derive(Debug, Clone, Copy, PartialEq, Eq, Structural)]
pub enum BodyKind {
    Html,
    Css,
    Stream,
}

/// The answer for the client.
#[derive(Debug)]
pub struct ClientResponse {
    pub body: BodyType,
    pub content_disposition: Option<Vec<u8>>,
    pub content_type: String,
    pub style_hashes: Option<Vec<String>>,
}

/// A redirect of the origin: where it leads, and the proxy URL for that.
#[derive(Debug)]
pub struct ClientRedirect {
    pub external_url: String,
    pub internal_url: String,
    pub status_code: u16,
}

/// What a fetch ends in.
#[derive(Debug)]
pub enum FetchResult {
    Response(ClientResponse),
    Redirect(ClientRedirect),
}

/// What to do with the answer of the origin once its status is known.
#[derive(Debug)]
pub enum ResponseAction {
    /// Rewrite the body and hand it to the client.
    Transform,
    /// Tell the client of the redirect.
    Redirect(ClientRedirect),
}

/// The text of a URL after the pairs were added to its query, in their order.
pub open spec fn with_query_pairs(url: Seq<char>, pairs: Seq<(String, String)>) -> Seq<char>
    decreases pairs.len(),
{
    if pairs.len() == 0 {
        url
    } else {
        with_query_pair(with_query_pairs(url, pairs.drop_last()), pairs.last().0@, pairs.last().1@)
    }
}

/// Whether the URL and each pair are short enough on the way.
pub open spec fn pairs_fit(url: Seq<char>, pairs: Seq<(String, String)>) -> bool
    decreases pairs.len(),
{
    if pairs.len() == 0 {
        true
    } else {
        &&& pairs_fit(url, pairs.drop_last())
        &&& encode_utf8(with_query_pairs(url, pairs.drop_last())).len() <= PAIR_LIMIT
        &&& encode_utf8(pairs.last().0@).len() <= PAIR_LIMIT
        &&& encode_utf8(pairs.last().1@).len() <= PAIR_LIMIT
    }
}

/// The pairs, from the first, up to the one that does not fit.
pub open spec fn fitting(url: Seq<char>, pairs: Seq<(String, String)>) -> Seq<(String, String)>
    decreases pairs.len(),
{
    if pairs.len() == 0 || pairs_fit(url, pairs) {
        pairs
    } else {
        fitting(url, pairs.drop_last())
    }
}

/// Adds the fields of a form to the query of a URL, in their order. Fails
/// with `BadRequest` where the URL or a field is longer than `PAIR_LIMIT`;
/// the fields before that one have joined the query then.
pub fn append_form_params(url: &mut url::Url, params: &Vec<(String, String)>) -> (res: Result<(), ClientError>)
    ensures
        serialization(*final(url)) == with_query_pairs(
            serialization(*old(url)),
            fitting(serialization(*old(url)), params@),
        ),
        if pairs_fit(serialization(*old(url)), params@) {
            res is Ok && serialization(*final(url)) == with_query_pairs(serialization(*old(url)), params@)
        } else {
            res == Err::<(), ClientError>(ClientError::BadRequest)
        },
{
    let ghost start = serialization(*url);
    let mut i: usize = 0;
    proof {
        assert(params@.take(0) =~= Seq::<(String, String)>::empty());
    }
    while i < params.len()
        invariant
            i <= params.len(),
            start == serialization(*old(url)),
            pairs_fit(start, params@.take(i as int)),
            serialization(*url) == with_query_pairs(start, params@.take(i as int)),
        decreases params.len() - i,
    {
        proof {
            assert(params@.take(i + 1).drop_last() =~= params@.take(i as int));
            assert(params@.take(i + 1).last() == params@[i as int]);
        }
        let name = params[i].0.as_str();
        let value = params[i].1.as_str();
        if url_as_str(url).as_bytes().len() > PAIR_LIMIT || name.as_bytes().len() > PAIR_LIMIT
            || value.as_bytes().len() > PAIR_LIMIT {
            proof {
                pairs_never_fit_again(start, params@, i + 1);
                fitting_stops(start, params@, i as int);
            }
            return Err(ClientError::BadRequest);
        }
        url_append_pair(url, name, value);
        i += 1;
    }
    proof {
        assert(params@.take(i as int) =~= params@);
    }
    Ok(())
}

/// Pairs that do not fit up to some point do not fit as a whole.
proof fn pairs_never_fit_again(url: Seq<char>, pairs: Seq<(String, String)>, n: int)
    requires
        0 <= n <= pairs.len(),
        !pairs_fit(url, pairs.take(n)),
    ensures
        !pairs_fit(url, pairs),
    decreases pairs.len() - n,
{
    if n < pairs.len() {
        assert(pairs.take(n + 1).drop_last() =~= pairs.take(n));
        pairs_never_fit_again(url, pairs, n + 1);
    } else {
        assert(pairs.take(n) =~= pairs);
    }
}

/// The pairs that fit end before the first one that does not.
proof fn fitting_stops(url: Seq<char>, pairs: Seq<(String, String)>, k: int)
    requires
        0 <= k < pairs.len(),
        pairs_fit(url, pairs.take(k)),
        !pairs_fit(url, pairs.take(k + 1)),
    ensures
        fitting(url, pairs) == pairs.take(k),
    decreases pairs.len() - k,
{
    pairs_never_fit_again(url, pairs, k + 1);
    assert(fitting(url, pairs) == fitting(url, pairs.drop_last()));
    if pairs.len() == k + 1 {
        assert(pairs.drop_last() =~= pairs.take(k));
        assert(fitting(url, pairs.take(k)) == pairs.take(k));
    } else {
        let shorter = pairs.drop_last();
        assert(shorter.take(k) =~= pairs.take(k));
        assert(shorter.take(k + 1) =~= pairs.take(k + 1));
        fitting_stops(url, shorter, k);
    }
}

/// The request to the origin that a valid request to the proxy asks for.
pub open spec fn planned(config: Config, url: Seq<char>, form: Option<FormRequest>) -> Result<
    (Method, Seq<char>, Option<Vec<(String, String)>>, Option<String>),
    ClientError,
> {
    match parsed(url) {
        Err(e) => Err(ClientError::UrlParse(e)),
        Ok(target) => match host_verdict(config.permitted_ip_range, host_of(target)) {
            Err(e) => Err(e),
            Ok(resolve) => match form {
                None => Ok((Method::Get, target, None, resolve)),
                Some(request) => if request.method == Method::Post {
                    Ok((Method::Post, target, Some(request.body), resolve))
                } else if pairs_fit(target, request.body@) {
                    Ok((request.method, with_query_pairs(target, request.body@), None, resolve))
                } else {
                    Err(ClientError::BadRequest)
                },
            },
        },
    }
}

/// Checks a request to the proxy and says what to ask of the origin. The
/// signature is checked first, against the URL as it was received; then the
/// URL has to be absolute and its host permitted. A form goes into the body
/// of a `POST`; for any other method its fields join the query of the URL.
pub fn fetch_validate_url(config: &Config, url: &str, hash: &str, request_body_opt: Option<FormRequest>) -> (res:
    Result<RequestPlan, ClientError>)
    ensures
        match hash_verdict(config.hmac_secret@, url@, hash@) {
            Err(e) => res == Err::<RequestPlan, ClientError>(e),
            Ok(()) => match planned(*config, url@, request_body_opt) {
                Err(ClientError::IpRangeDenied(text)) => res matches Err(ClientError::IpRangeDenied(t)) && t@ == text@,
                Err(e) => res == Err::<RequestPlan, ClientError>(e),
                Ok(expected) => {
                    &&& res matches Ok(plan)
                    &&& plan.method == expected.0
                    &&& serialization(plan.url) == expected.1
                    &&& plan.body == expected.2
                    &&& match (plan.resolve, expected.3) {
                        (Some(name), Some(wanted)) => name@ == wanted@,
                        (None, None) => true,
                        _ => false,
                    }
                },
            },
        },
{
    verify_hash(config.hmac_secret.as_slice(), url, hash)?;
    let mut next_url = match url_parse(url) {
        Ok(u) => u,
        Err(e) => return Err(ClientError::UrlParse(e)),
    };
    let resolve = validate_request_host(config.permitted_ip_range, &next_url)?;
    match request_body_opt {
        None => Ok(RequestPlan { method: Method::Get, url: next_url, body: None, resolve }),
        Some(payload) => {
            if payload.method == Method::Post {
                Ok(RequestPlan { method: Method::Post, url: next_url, body: Some(payload.body), resolve })
            } else {
                append_form_params(&mut next_url, &payload.body)?;
                Ok(RequestPlan { method: payload.method, url: next_url, body: None, resolve })
            }
        },
    }
}

/// The `Location` header of an answer.
#[derive(Debug, Clone, Copy)]
pub enum Location<'a> {
    /// The answer has none.
    Absent,
    /// The answer has one that is not text.
    Unreadable,
    /// Where the answer points.
    Text(&'a str),
}

/// What the status of the origin's answer asks for: 200 is rewritten, a
/// redirect that says where to is reported, and every other status is an
/// error that names the status.
pub open spec fn response_action(key: Seq<u8>, url: Seq<char>, status_code: u16, location: Location) -> Result<
    Option<(Seq<char>, Seq<char>)>,
    ClientError,
> {
    if status_code == 200 {
        Ok(None)
    } else if 300 <= status_code < 400 {
        match location {
            Location::Absent => Err(ClientError::UnexpectedStatusCode(status_code)),
            Location::Unreadable => Err(ClientError::StringDecode),
            Location::Text(target) => match joined(url, target@) {
                Err(e) => Err(ClientError::UrlParse(e)),
                Ok(external) => match rewritten_url(key, url, target@) {
                    Err(e) => Err(ClientError::UrlRewrite(e)),
                    Ok(internal) => Ok(Some((external, internal))),
                },
            },
        }
    } else {
        Err(ClientError::UnexpectedStatusCode(status_code))
    }
}

/// Decides on the answer of the origin by its status: 200 is rewritten; a
/// redirect is reported with its target, resolved against the requested URL,
/// and with a fresh proxy URL for it; any other status, and a redirect that
/// does not say where to, is an error that names the status. A target that
/// resolves can always be rewritten, so the failure of a redirect is never
/// that of the rewriting.
pub fn fetch_transform_url(key: &[u8], url: &url::Url, status_code: u16, location: Location<'_>) -> (res: Result<
    ResponseAction,
    ClientError,
>)
    ensures
        match response_action(key@, serialization(*url), status_code, location) {
            Err(e) => res == Err::<ResponseAction, ClientError>(e),
            Ok(None) => res matches Ok(ResponseAction::Transform),
            Ok(Some(urls)) => {
                &&& res matches Ok(ResponseAction::Redirect(redirect))
                &&& redirect.external_url@ == urls.0
                &&& redirect.internal_url@ == urls.1
                &&& redirect.status_code == status_code
            },
        },
        !(res matches Err(ClientError::UrlRewrite(_))),
{
    if status_code == 200 {
        return Ok(ResponseAction::Transform);
    }
    if 300 <= status_code && status_code < 400 {
        return match location {
            Location::Absent => Err(ClientError::UnexpectedStatusCode(status_code)),
            Location::Unreadable => Err(ClientError::StringDecode),
            Location::Text(redirect_url) => {
                let external = match url_join(url, redirect_url) {
                    Ok(u) => u,
                    Err(e) => return Err(ClientError::UrlParse(e)),
                };
                let internal_url = match rewrite_url(key, url, redirect_url) {
                    Ok(u) => u,
                    Err(e) => return Err(ClientError::UrlRewrite(e)),
                };
                Ok(
                    ResponseAction::Redirect(
                        ClientRedirect { external_url: url_as_str(&external).to_owned(), internal_url, status_code },
                    ),
                )
            },
        };
    }
    Err(ClientError::UnexpectedStatusCode(status_code))
}

/// Whether `media_type` is the type that `name` names.
pub open spec fn is_media_type(media_type: mime::Mime, name: Seq<char>) -> bool {
    match parsed_mime(name) {
        Some(named) => mime_equal(media_type, named),
        None => false,
    }
}

/// How the body of an answer with this content type is treated: pages and
/// style sheets are rewritten, with or without a UTF-8 character set named;
/// everything else is handed on. An answer without a content type counts as
/// plain text.
pub open spec fn body_kind_of(content_type: Option<Seq<char>>) -> Result<BodyKind, ClientError> {
    match content_type {
        None => Ok(BodyKind::Stream),
        Some(text) => match parsed_mime(text) {
            None => Err(ClientError::MimeParse),
            Some(media_type) => if is_media_type(media_type, "text/html"@) || is_media_type(
                media_type,
                "text/html; charset=utf-8"@,
            ) {
                Ok(BodyKind::Html)
            } else if is_media_type(media_type, "text/css"@) || is_media_type(media_type, "text/css; charset=utf-8"@) {
                Ok(BodyKind::Css)
            } else {
                Ok(BodyKind::Stream)
            },
        },
    }
}

/// Whether `media_type` is the type that `name` names.
fn has_media_type(media_type: &mime::Mime, name: &str) -> (same: bool)
    ensures
        same == is_media_type(*media_type, name@),
{
    match parse_mime(name) {
        Some(named) => mime_eq(media_type, &named),
        None => false,
    }
}

/// Says by the content type of an answer how its body is treated.
pub fn body_kind(content_type: Option<&str>) -> (res: Result<BodyKind, ClientError>)
    ensures
        res == body_kind_of(
            match content_type {
                Some(t) => Some(t@),
                None => None,
            },
        ),
{
    match content_type {
        None => Ok(BodyKind::Stream),
        Some(text) => match parse_mime(text) {
            None => Err(ClientError::MimeParse),
            Some(media_type) => {
                if has_media_type(&media_type, "text/html") || has_media_type(&media_type, "text/html; charset=utf-8") {
                    Ok(BodyKind::Html)
                } else if has_media_type(&media_type, "text/css") || has_media_type(
                    &media_type,
                    "text/css; charset=utf-8",
                ) {
                    Ok(BodyKind::Css)
                } else {
                    Ok(BodyKind::Stream)
                }
            },
        },
    }
}

/// The text of a shared URL.
pub open spec fn text_of(url: &Rc<url::Url>) -> Seq<char> {
    serialization(**url)
}

/// The chunks of a body as byte strings.
pub open spec fn chunk_views(chunks: Seq<Vec<u8>>) -> Seq<Seq<u8>> {
    chunks.map_values(|c: Vec<u8>| c@)
}

/// Rewrites a style sheet that came in chunks from `url`. The result is that
/// of the style sheet in one piece.
pub fn transform_css(key: &[u8], url: &Rc<url::Url>, chunks: &Vec<Vec<u8>>) -> (res: Result<Vec<u8>, ClientError>)
    ensures
        match rewritten_css(key@, serialization(**url), concatenated(chunk_views(chunks@))) {
            Ok(bytes) => res matches Ok(b) && b@ == bytes,
            Err(e) => res == Err::<Vec<u8>, ClientError>(ClientError::CssRewrite(e)),
        },
{
    let ghost base = text_of(url);
    let ghost all = chunk_views(chunks@);
    let mut key_copy: Vec<u8> = Vec::new();
    key_copy.extend_from_slice(key);
    assert(key_copy@ =~= key@);
    let mut rewriter = CssRewrite::new(key_copy, share(url));
    let mut i: usize = 0;
    proof {
        assert(all.take(0) =~= Seq::<Seq<u8>>::empty());
    }
    while i < chunks.len()
        invariant
            i <= chunks.len(),
            all == chunk_views(chunks@),
            base == text_of(url),
            rewriter.wf(),
            rewriter.key() == key@,
            rewriter.base() == base,
            feed_chunks(key@, base, initial(), all.take(i as int)) == Ok::<crate::rewrite_css::Scan, RewriteCssError>(
                rewriter@,
            ),
        decreases chunks.len() - i,
    {
        proof {
            assert(all.take(i + 1).drop_last() =~= all.take(i as int));
            assert(all.take(i + 1).last() == chunks@[i as int]@);
        }
        match rewriter.write(chunks[i].as_slice()) {
            Ok(()) => {},
            Err(e) => {
                proof {
                    chunks_fail_for_good(key@, base, all, i + 1);
                    chunking_is_irrelevant(key@, base, initial(), all);
                }
                return Err(ClientError::CssRewrite(e));
            },
        }
        i += 1;
    }
    proof {
        assert(all.take(i as int) =~= all);
        chunking_is_irrelevant(key@, base, initial(), all);
    }
    match rewriter.end() {
        Ok(bytes) => Ok(bytes),
        Err(e) => Err(ClientError::CssRewrite(e)),
    }
}

/// Once a chunk has failed, the chunks behind it change nothing.
proof fn chunks_fail_for_good(key: Seq<u8>, base: Seq<char>, chunks: Seq<Seq<u8>>, n: int)
    requires
        0 <= n <= chunks.len(),
        feed_chunks(key, base, initial(), chunks.take(n)) is Err,
    ensures
        feed_chunks(key, base, initial(), chunks) == feed_chunks(key, base, initial(), chunks.take(n)),
    decreases chunks.len() - n,
{
    if n < chunks.len() {
        assert(chunks.take(n + 1).drop_last() =~= chunks.take(n));
        chunks_fail_for_good(key, base, chunks, n + 1);
    } else {
        assert(chunks.take(n) =~= chunks);
    }
}

/// Rewrites a page that came in chunks from `url`: a sanitizer takes the
/// chunks one after the other and is ended. Where the parser refuses what the
/// sanitizer is made of, no page is rewritten and the failure is `Pattern`.
pub fn transform_html(settings: HtmlSettings, url: &Rc<url::Url>, chunks: &Vec<Vec<u8>>) -> (res: Result<
    HtmlRewriteResult,
    ClientError,
>)
    ensures
        if sanitizer_is_accepted() {
            match rewritten_page(
                settings.hmac_secret@,
                settings.lazy_images,
                settings.header_stylesheet@,
                text_of(url),
                chunk_views(chunks@),
            ) {
                Ok(page) => res matches Ok(r) && r.html@ == page.0 && hash_views(r.style_hashes@) == page.1,
                Err(e) => res matches Err(ClientError::HtmlRewrite(failure)) && failure == e,
            }
        } else {
            res matches Err(ClientError::HtmlRewrite(RewriteHtmlError::Pattern))
        },
{
    let ghost key = settings.hmac_secret@;
    let ghost lazy_images = settings.lazy_images;
    let ghost stylesheet = settings.header_stylesheet@;
    let ghost base = text_of(url);
    let ghost all = chunk_views(chunks@);
    let mut rewriter = match HtmlRewrite::new(settings, share(url)) {
        Ok(r) => r,
        Err(e) => return Err(ClientError::HtmlRewrite(e)),
    };
    let mut i: usize = 0;
    proof {
        assert(all.take(0) =~= Seq::<Seq<u8>>::empty());
    }
    while i < chunks.len()
        invariant
            i <= chunks.len(),
            sanitizer_is_accepted(),
            all == chunk_views(chunks@),
            key == settings.hmac_secret@,
            lazy_images == settings.lazy_images,
            stylesheet == settings.header_stylesheet@,
            base == text_of(url),
            rewriter.wf(),
            rewriter.is_live(),
            rewriter.taken() == all.take(i as int),
            rewriter.key() == key,
            rewriter.lazy_images() == lazy_images,
            rewriter.stylesheet() == stylesheet,
            rewriter.base() == base,
            written(key, lazy_images, stylesheet, base, all.take(i as int)) is Ok,
        decreases chunks.len() - i,
    {
        proof {
            assert(all.take(i + 1).drop_last() =~= all.take(i as int));
            assert(all.take(i as int).push(chunks@[i as int]@) =~= all.take(i + 1));
        }
        match rewriter.write(chunks[i].as_slice()) {
            Ok(()) => {},
            Err(e) => {
                proof {
                    assert(written(key, lazy_images, stylesheet, base, all.take(i + 1)) is Err);
                    written_fails_for_good(key, lazy_images, stylesheet, base, all, i + 1);
                }
                return Err(ClientError::HtmlRewrite(e));
            },
        }
        i += 1;
    }
    proof {
        assert(all.take(i as int) =~= all);
    }
    match rewriter.end() {
        Ok(result) => Ok(result),
        Err(e) => Err(ClientError::HtmlRewrite(e)),
    }
}

/// Makes the answer for the client from the answer of the origin: a page is
/// rewritten and comes with the source expressions of its styles, a style
/// sheet is rewritten, and everything else is handed on with its content
/// disposition.
pub fn transform_response(
    settings: HtmlSettings,
    url: &Rc<url::Url>,
    content_type: Option<&str>,
    content_disposition: Option<Vec<u8>>,
    chunks: &Vec<Vec<u8>>,
) -> (res: Result<ClientResponse, ClientError>)
    ensures
        match body_kind_of(
            match content_type {
                Some(t) => Some(t@),
                None => None,
            },
        ) {
            Err(e) => res == Err::<ClientResponse, ClientError>(e),
            Ok(BodyKind::Html) => if sanitizer_is_accepted() {
                match rewritten_page(
                    settings.hmac_secret@,
                    settings.lazy_images,
                    settings.header_stylesheet@,
                    text_of(url),
                    chunk_views(chunks@),
                ) {
                    Ok(page) => {
                        &&& res matches Ok(response)
                        &&& response.body matches BodyType::Complete(b) && b@ == page.0
                        &&& response.style_hashes matches Some(hashes) && hash_views(hashes@) == page.1
                        &&& response.content_disposition is None
                        &&& Some(response.content_type@) == (match content_type {
                            Some(t) => Some(t@),
                            None => None,
                        })
                    },
                    Err(e) => res matches Err(ClientError::HtmlRewrite(failure)) && failure == e,
                }
            } else {
                res matches Err(ClientError::HtmlRewrite(RewriteHtmlError::Pattern))
            },
            Ok(BodyKind::Css) => match rewritten_css(
                settings.hmac_secret@,
                serialization(**url),
                concatenated(chunk_views(chunks@)),
            ) {
                Ok(bytes) => {
                    &&& res matches Ok(response)
                    &&& response.body matches BodyType::Complete(b) && b@ == bytes
                    &&& response.style_hashes is None
                    &&& response.content_disposition is None
                    &&& Some(response.content_type@) == (match content_type {
                        Some(t) => Some(t@),
                        None => None,
                    })
                },
                Err(e) => res == Err::<ClientResponse, ClientError>(ClientError::CssRewrite(e)),
            },
            Ok(BodyKind::Stream) => {
                &&& res matches Ok(response)
                &&& response.body is Stream
                &&& response.style_hashes is None
                &&& response.content_disposition == content_disposition
                &&& response.content_type@ == (match content_type {
                    Some(t) => t@,
                    None => "text/plain"@,
                })
            },
        },
{
    let kind = body_kind(content_type)?;
    let content_type = match content_type {
        Some(text) => text.to_owned(),
        None => String::from_str("text/plain"),
    };
    match kind {
        BodyKind::Html => {
            let rewritten = transform_html(settings, url, chunks)?;
            Ok(
                ClientResponse {
                    body: BodyType::Complete(rewritten.html),
                    content_disposition: None,
                    content_type,
                    style_hashes: Some(rewritten.style_hashes),
                },
            )
        },
        BodyKind::Css => {
            let rewritten = transform_css(settings.hmac_secret.as_slice(), url, chunks)?;
            Ok(
                ClientResponse {
                    body: BodyType::Complete(rewritten),
                    content_disposition: None,
                    content_type,
                    style_hashes: None,
                },
            )
        },
        BodyKind::Stream => Ok(
            ClientResponse { body: BodyType::Stream, content_disposition, content_type, style_hashes: None },
        ),
    }
}

/// No prefix of a string of hexadecimal digits holds anything else.
proof fn all_hex_has_no_fault(digits: Seq<u8>)
    requires
        forall|i: int| 0 <= i < digits.len() ==> hex_value(#[trigger] digits[i]) is Some,
    ensures
        first_non_hex(digits) is None,
    decreases digits.len(),
{
    if digits.len() > 0 {
        let rest = digits.drop_first();
        assert forall|i: int| 0 <= i < rest.len() implies hex_value(#[trigger] rest[i]) is Some by {
            assert(rest[i] == digits[i + 1]);
        }
        all_hex_has_no_fault(rest);
    }
}

/// Decoding the lower-case hexadecimal form of a byte string gives it back.
pub proof fn hex_round_trip(bytes: Seq<u8>)
    ensures
        hex_decoded(encode_utf8(hex_lower(bytes))) == Ok::<Seq<u8>, hex::FromHexError>(bytes),
{
    let text = hex_lower(bytes);
    hex_lower_digits(bytes);
    assert forall|j: int| 0 <= j < text.len() implies {
        &&& '\0' <= #[trigger] text[j] <= '\u{7f}'
        &&& hex_value(text[j] as u8) == Some(if j % 2 == 0 { bytes[j / 2] / 16 } else { bytes[j / 2] % 16 })
    } by {
        let i = j / 2;
        assert(0 <= i < bytes.len());
        if j % 2 == 0 {
            assert(j == 2 * i);
            assert(text[2 * i] == hex_lower_digit(bytes[i] / 16));
        } else {
            assert(j == 2 * i + 1);
            assert(text[2 * i] == hex_lower_digit(bytes[i] / 16));
        }
    }
    assert(is_ascii_chars(text));
    is_ascii_chars_encode_utf8(text);
    let digits = encode_utf8(text);
    assert forall|j: int| 0 <= j < digits.len() implies hex_value(#[trigger] digits[j]) is Some by {
        assert(digits[j] == text[j] as u8);
    }
    all_hex_has_no_fault(digits);
    assert(hex_bytes(digits) =~= bytes) by {
        assert forall|i: int| 0 <= i < bytes.len() implies hex_bytes(digits)[i] == bytes[i] by {
            assert(digits[2 * i] == text[2 * i] as u8);
            assert(digits[2 * i + 1] == text[2 * i + 1] as u8);
            assert(text[2 * i] == hex_lower_digit(bytes[i] / 16));
            let b = bytes[i];
            assert((b / 16) * 16 + b % 16 == b);
        }
    }
}

/// A signature made by `sign` is accepted by `verify_hash` for the same key and
/// the same URL.
pub proof fn signature_verifies(key: Seq<u8>, url: Seq<char>)
    ensures
        hash_verdict(key, url, signature(key, url)) == Ok::<(), ClientError>(()),
{
    hex_round_trip(hmac_sha256(key, encode_utf8(url)));
}

/// The two parts of a proxy URL belong together: the target that its `url`
/// pair decodes to is accepted by `verify_hash` with the signature in its
/// `hash` pair.
pub proof fn proxy_url_verifies(key: Seq<u8>, target: Seq<char>)
    ensures
        hash_verdict(
            key,
            vstd::utf8::decode_utf8(crate::rewrite_url::form_urldecoded(crate::rewrite_url::form_urlencoded(encode_utf8(target)))),
            signature(key, target),
        ) == Ok::<(), ClientError>(()),
{
    crate::rewrite_url::form_urlencoding_round_trip(encode_utf8(target));
    vstd::utf8::encode_utf8_decode_utf8(target);
    signature_verifies(key, target);
}

} // verus!
