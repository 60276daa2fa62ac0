//! Signed proxy URLs: a target URL travels together with the HMAC-SHA256 of its
//! text, so that only targets this proxy has handed out are fetched.

use vstd::prelude::*;
use vstd::utf8::encode_utf8;
use hmac::Mac;
use crate::text::starts_with;

verus! {

#[verifier::external_type_specification]
#[verifier::external_body]
pub struct ExUrl(url::Url);

#[verifier::external_type_specification]
#[verifier::external_body]
pub struct ExUrlParseError(url::ParseError);

/// The text of a URL, as `url::Url::as_str` gives it.
pub uninterp spec fn serialization(u: url::Url) -> Seq<char>;

/// What `url::Url::join` makes of a reference against a base, both as text.
pub uninterp spec fn joined(base: Seq<char>, reference: Seq<char>) -> Result<Seq<char>, url::ParseError>;

/// The fragment of a URL given by its text, without the `#`, as `url::Url::fragment` reports it.
pub uninterp spec fn fragment_of(url: Seq<char>) -> Option<Seq<char>>;

/// The text of a URL after `url::Url::set_fragment(None)`.
pub uninterp spec fn without_fragment(url: Seq<char>) -> Seq<char>;

/// What `url::Url::parse` makes of a text: the text of the URL, or why it is
/// none.
pub uninterp spec fn parsed(text: Seq<char>) -> Result<Seq<char>, url::ParseError>;

/// The text of a URL after one more pair was added to its query, as
/// `form_urlencoded::Serializer::append_pair` on `url::Url::query_pairs_mut`
/// does it.
pub uninterp spec fn with_query_pair(url: Seq<char>, name: Seq<char>, value: Seq<char>) -> Seq<char>;

/// The HMAC-SHA256 tag of `message` under `key`.
pub uninterp spec fn hmac_sha256(key: Seq<u8>, message: Seq<u8>) -> Seq<u8>;

/// Why a proxy URL could not be made.
#[derive(Debug)]
pub enum RewriteUrlError {
    /// The reference does not resolve to a URL against the base.
    UrlParse(url::ParseError),
}

/// Bytes that the form-urlencoded serializer copies as they are.
pub open spec fn is_form_safe(b: u8) -> bool {
    ||| b == 0x2A
    ||| b == 0x2D
    ||| b == 0x2E
    ||| b == 0x5F
    ||| 0x30 <= b <= 0x39
    ||| 0x41 <= b <= 0x5A
    ||| 0x61 <= b <= 0x7A
}

/// The upper-case hexadecimal digit for `n < 16`.
pub open spec fn hex_upper_digit(n: u8) -> char {
    if n < 10 {
        (0x30 + n) as char
    } else {
        (0x37 + n) as char
    }
}

/// The lower-case hexadecimal digit for `n < 16`.
pub open spec fn hex_lower_digit(n: u8) -> char {
    if n < 10 {
        (0x30 + n) as char
    } else {
        (0x57 + n) as char
    }
}

/// One byte in `application/x-www-form-urlencoded` form.
pub open spec fn form_urlencoded_byte(b: u8) -> Seq<char> {
    if is_form_safe(b) {
        seq![b as char]
    } else if b == 0x20 {
        seq!['+']
    } else {
        seq!['%', hex_upper_digit(b / 16), hex_upper_digit(b % 16)]
    }
}

/// A byte string in `application/x-www-form-urlencoded` form.
pub open spec fn form_urlencoded(bytes: Seq<u8>) -> Seq<char>
    decreases bytes.len(),
{
    if bytes.len() == 0 {
        Seq::empty()
    } else {
        form_urlencoded_byte(bytes[0]) + form_urlencoded(bytes.drop_first())
    }
}

/// The value of a hexadecimal digit of either case.
pub open spec fn hex_digit_value(c: char) -> Option<u8> {
    if '0' <= c <= '9' {
        Some(((c as u8) - 0x30) as u8)
    } else if 'A' <= c <= 'F' {
        Some(((c as u8) - 0x37) as u8)
    } else if 'a' <= c <= 'f' {
        Some(((c as u8) - 0x57) as u8)
    } else {
        None
    }
}

/// The bytes that a text in `application/x-www-form-urlencoded` form stands
/// for: `+` is a space, `%` with two hexadecimal digits is the byte of that
/// value, and every other character is its own byte.
pub open spec fn form_urldecoded(text: Seq<char>) -> Seq<u8>
    decreases text.len(),
{
    if text.len() == 0 {
        Seq::empty()
    } else if text[0] == '%' && text.len() >= 3 && hex_digit_value(text[1]) is Some && hex_digit_value(text[2]) is Some {
        seq![(hex_digit_value(text[1]).unwrap() * 16 + hex_digit_value(text[2]).unwrap()) as u8] + form_urldecoded(
            text.skip(3),
        )
    } else if text[0] == '+' {
        seq![0x20u8] + form_urldecoded(text.skip(1))
    } else {
        seq![text[0] as u8] + form_urldecoded(text.skip(1))
    }
}

/// What was encoded can be read back: decoding the encoded form of a byte
/// string gives the byte string.
pub proof fn form_urlencoding_round_trip(bytes: Seq<u8>)
    ensures
        form_urldecoded(form_urlencoded(bytes)) == bytes,
    decreases bytes.len(),
{
    if bytes.len() > 0 {
        let b = bytes[0];
        let rest = bytes.drop_first();
        let tail = form_urlencoded(rest);
        let text = form_urlencoded(bytes);
        form_urlencoding_round_trip(rest);
        assert(seq![b] + rest =~= bytes);
        if is_form_safe(b) {
            assert(text =~= seq![b as char] + tail);
            assert(text.skip(1) =~= tail);
            assert(text[0] == b as char);
            assert((b as char) as u8 == b);
        } else if b == 0x20 {
            assert(text =~= seq!['+'] + tail);
            assert(text.skip(1) =~= tail);
        } else {
            let high = hex_upper_digit(b / 16);
            let low = hex_upper_digit(b % 16);
            assert(text =~= seq!['%', high, low] + tail);
            assert(text.skip(3) =~= tail);
            assert(text[0] == '%' && text[1] == high && text[2] == low);
            assert(hex_digit_value(high) == Some(b / 16));
            assert(hex_digit_value(low) == Some(b % 16));
            assert(((b / 16) * 16 + b % 16) as u8 == b);
        }
    } else {
        assert(form_urlencoded(bytes) =~= Seq::<char>::empty());
    }
}

/// The encoded form holds none of the characters that part a query: no `&`,
/// no `=` and no `#`.
pub proof fn form_urlencoded_has_no_separator(bytes: Seq<u8>)
    ensures
        forall|i: int|
            0 <= i < form_urlencoded(bytes).len() ==> {
                let c = #[trigger] form_urlencoded(bytes)[i];
                c != '&' && c != '=' && c != '#'
            },
    decreases bytes.len(),
{
    if bytes.len() > 0 {
        let b = bytes[0];
        let head = form_urlencoded_byte(b);
        let tail = form_urlencoded(bytes.drop_first());
        form_urlencoded_has_no_separator(bytes.drop_first());
        assert forall|i: int| 0 <= i < form_urlencoded(bytes).len() implies {
            let c = #[trigger] form_urlencoded(bytes)[i];
            c != '&' && c != '=' && c != '#'
        } by {
            if i < head.len() {
                assert(form_urlencoded(bytes)[i] == head[i]);
            } else {
                assert(form_urlencoded(bytes)[i] == tail[i - head.len()]);
            }
        }
    }
}

/// A byte string as lower-case hexadecimal digits, two per byte.
pub open spec fn hex_lower(bytes: Seq<u8>) -> Seq<char>
    decreases bytes.len(),
{
    if bytes.len() == 0 {
        Seq::empty()
    } else {
        seq![hex_lower_digit(bytes[0] / 16), hex_lower_digit(bytes[0] % 16)] + hex_lower(bytes.drop_first())
    }
}

/// `hex_lower` writes two digits per byte, high half first.
pub proof fn hex_lower_digits(bytes: Seq<u8>)
    ensures
        hex_lower(bytes).len() == 2 * bytes.len(),
        forall|i: int| 0 <= i < bytes.len() ==> {
            &&& #[trigger] hex_lower(bytes)[2 * i] == hex_lower_digit(bytes[i] / 16)
            &&& hex_lower(bytes)[2 * i + 1] == hex_lower_digit(bytes[i] % 16)
        },
    decreases bytes.len(),
{
    if bytes.len() > 0 {
        let rest = bytes.drop_first();
        hex_lower_digits(rest);
        assert forall|i: int| 0 <= i < bytes.len() implies {
            &&& #[trigger] hex_lower(bytes)[2 * i] == hex_lower_digit(bytes[i] / 16)
            &&& hex_lower(bytes)[2 * i + 1] == hex_lower_digit(bytes[i] % 16)
        } by {
            if i > 0 {
                assert(hex_lower(bytes)[2 * i] == hex_lower(rest)[2 * (i - 1)]);
                assert(hex_lower(bytes)[2 * i + 1] == hex_lower(rest)[2 * (i - 1) + 1]);
                assert(rest[i - 1] == bytes[i]);
            }
        }
    }
}

/// The signature that accompanies `target` in a proxy URL.
pub open spec fn signature(key: Seq<u8>, target: Seq<char>) -> Seq<char> {
    hex_lower(hmac_sha256(key, encode_utf8(target)))
}

/// The proxy URL for an absolute target: the query pairs `url` and `hash`, in that order.
pub open spec fn proxy_query(key: Seq<u8>, target: Seq<char>) -> Seq<char> {
    "./?url="@ + form_urlencoded(encode_utf8(target)) + "&hash="@ + signature(key, target)
}

/// The proxy URL for an absolute URL that may carry a fragment: the fragment is
/// left out of what is signed and follows the query.
pub open spec fn proxy_url(key: Seq<u8>, absolute: Seq<char>) -> Seq<char> {
    let query = proxy_query(key, without_fragment(absolute));
    match fragment_of(absolute) {
        Some(fragment) => query + seq!['#'] + fragment,
        None => query,
    }
}

/// What `rewrite_url` returns for a reference found in a page at `base`.
pub open spec fn rewritten_url(key: Seq<u8>, base: Seq<char>, reference: Seq<char>) -> Result<Seq<char>, RewriteUrlError> {
    if "data:"@.is_prefix_of(reference) {
        if "data:image/"@.is_prefix_of(reference) {
            Ok(reference)
        } else {
            Ok(Seq::empty())
        }
    } else if "#"@.is_prefix_of(reference) {
        Ok(reference)
    } else {
        match joined(base, reference) {
            Ok(absolute) => Ok(proxy_url(key, absolute)),
            Err(e) => Err(RewriteUrlError::UrlParse(e)),
        }
    }
}

/// A rewritten reference leads through the proxy, or is an image in a `data:`
/// URL, or is a bare fragment. The one exception are `data:` URLs that hold no
/// image: they become empty.
pub proof fn rewritten_url_shape(key: Seq<u8>, base: Seq<char>, reference: Seq<char>)
    requires
        rewritten_url(key, base, reference) is Ok,
        "data:"@.is_prefix_of(reference) ==> "data:image/"@.is_prefix_of(reference),
    ensures
        ({
            let url = rewritten_url(key, base, reference).unwrap();
            ||| "./?url="@.is_prefix_of(url)
            ||| "data:image/"@.is_prefix_of(url)
            ||| "#"@.is_prefix_of(url)
        }),
{
    if !"data:"@.is_prefix_of(reference) && !"#"@.is_prefix_of(reference) {
        let absolute = joined(base, reference).unwrap();
        let target = without_fragment(absolute);
        let url = proxy_url(key, absolute);
        let head = "./?url="@;
        let query = proxy_query(key, target);
        assert(head.is_prefix_of(query)) by {
            assert(query =~= head + (form_urlencoded(encode_utf8(target)) + "&hash="@ + signature(key, target)));
            assert(query.subrange(0, head.len() as int) =~= head);
        }
        assert(query.is_prefix_of(url)) by {
            match fragment_of(absolute) {
                Some(fragment) => {
                    assert(url =~= query + (seq!['#'] + fragment));
                    assert(url.subrange(0, query.len() as int) =~= query);
                },
                None => {
                    assert(url.subrange(0, query.len() as int) =~= query);
                },
            }
        }
        assert(url.subrange(0, head.len() as int) =~= head);
    }
}

/// `url::Url::join`: resolves `reference` against `base`.
#[verifier::external_body]
pub(crate) fn url_join(base: &url::Url, reference: &str) -> (res: Result<url::Url, url::ParseError>)
    ensures
        match res {
            Ok(u) => joined(serialization(*base), reference@) == Ok::<Seq<char>, url::ParseError>(serialization(u)),
            Err(e) => joined(serialization(*base), reference@) == Err::<Seq<char>, url::ParseError>(e),
        },
{
    base.join(reference)
}

/// `url::Url::parse`: reads an absolute URL.
#[verifier::external_body]
pub(crate) fn url_parse(text: &str) -> (res: Result<url::Url, url::ParseError>)
    ensures
        match res {
            Ok(u) => parsed(text@) == Ok::<Seq<char>, url::ParseError>(serialization(u)),
            Err(e) => parsed(text@) == Err::<Seq<char>, url::ParseError>(e),
        },
{
    url::Url::parse(text)
}

/// The longest text, in bytes, that `url_append_pair` takes for the URL, for
/// a name and for a value: with it the URL stays far below the four gigabytes
/// that a URL can have.
pub const PAIR_LIMIT: usize = 0x1000_0000;

/// `form_urlencoded::Serializer::append_pair` on `url::Url::query_pairs_mut`:
/// adds a pair to the query of the URL.
#[verifier::external_body]
pub(crate) fn url_append_pair(u: &mut url::Url, name: &str, value: &str)
    requires
        encode_utf8(serialization(*old(u))).len() <= PAIR_LIMIT,
        encode_utf8(name@).len() <= PAIR_LIMIT,
        encode_utf8(value@).len() <= PAIR_LIMIT,
    ensures
        serialization(*final(u)) == with_query_pair(serialization(*old(u)), name@, value@),
{
    u.query_pairs_mut().append_pair(name, value);
}

/// `url::Url::as_str`: the text of the URL, which is never empty, since it
/// begins with the scheme.
#[verifier::external_body]
pub(crate) fn url_as_str(u: &url::Url) -> (text: &str)
    ensures
        text@ == serialization(*u),
        text@.len() > 0,
{
    u.as_str()
}

/// `url::Url::fragment`: the fragment, if the URL has one.
#[verifier::external_body]
pub(crate) fn url_fragment(u: &url::Url) -> (fragment: Option<String>)
    ensures
        (fragment is Some) == (fragment_of(serialization(*u)) is Some),
        fragment matches Some(f) ==> fragment_of(serialization(*u)) == Some(f@),
{
    u.fragment().map(String::from)
}

/// `url::Url::set_fragment` with `None`: drops the fragment.
#[verifier::external_body]
pub(crate) fn url_clear_fragment(u: &mut url::Url)
    ensures
        serialization(*final(u)) == without_fragment(serialization(*old(u))),
{
    u.set_fragment(None)
}

/// `form_urlencoded::byte_serialize`, collected: safe bytes as they are, a space
/// as `+`, any other byte as `%` and two upper-case hexadecimal digits.
#[verifier::external_body]
pub(crate) fn form_urlencode(bytes: &[u8]) -> (encoded: String)
    ensures
        encoded@ == form_urlencoded(bytes@),
{
    url::form_urlencoded::byte_serialize(bytes).collect()
}

/// `hex::encode`: two lower-case hexadecimal digits per byte.
#[verifier::external_body]
pub(crate) fn hex_encode(bytes: &[u8]) -> (encoded: String)
    ensures
        encoded@ == hex_lower(bytes@),
{
    hex::encode(bytes)
}

/// `Mac::finalize` of `hmac::Hmac<sha2::Sha256>` keyed with `key`, after one
/// `update` with `message`: the 32-byte tag.
#[verifier::external_body]
pub(crate) fn hmac_tag(key: &[u8], message: &[u8]) -> (tag: Vec<u8>)
    ensures
        tag@ == hmac_sha256(key@, message@),
        tag@.len() == 32,
{
    let mut mac = hmac::Hmac::<sha2::Sha256>::new_from_slice(key).expect("any key length is accepted");
    mac.update(message);
    mac.finalize().into_bytes().to_vec()
}

/// The signature of `target` under `key`, as it appears in a proxy URL: 64
/// hexadecimal digits in lower case.
pub fn sign(key: &[u8], target: &str) -> (hash: String)
    ensures
        hash@ == signature(key@, target@),
        hash@.len() == 64,
{
    let tag = hmac_tag(key, target.as_bytes());
    proof {
        hex_lower_digits(tag@);
    }
    hex_encode(tag.as_slice())
}

/// Rewrites a reference found in a page at `base_url` so that it leads back
/// through the proxy. `data:image/` URLs and bare fragments pass unchanged,
/// other `data:` URLs become empty. The target in a proxy URL is not empty,
/// and its hash has 64 digits.
pub fn rewrite_url(key: &[u8], base_url: &url::Url, url: &str) -> (res: Result<String, RewriteUrlError>)
    ensures
        match (res, rewritten_url(key@, serialization(*base_url), url@)) {
            (Ok(s), Ok(expected)) => s@ == expected,
            (Err(e), Err(expected)) => e == expected,
            _ => false,
        },
        !"data:"@.is_prefix_of(url@) && !"#"@.is_prefix_of(url@) ==> (joined(serialization(*base_url), url@) matches Ok(
            absolute,
        ) ==> without_fragment(absolute).len() > 0 && signature(key@, without_fragment(absolute)).len() == 64),
{
    if starts_with(url, "data:") {
        return if starts_with(url, "data:image/") {
            Ok(url.to_owned())
        } else {
            Ok(String::new())
        };
    } else if starts_with(url, "#") {
        return Ok(url.to_owned());
    }
    let mut next_url = match url_join(base_url, url) {
        Ok(u) => u,
        Err(e) => return Err(RewriteUrlError::UrlParse(e)),
    };
    let fragment = url_fragment(&next_url);
    url_clear_fragment(&mut next_url);
    let target = url_as_str(&next_url);
    let mut result = String::from_str("./?url=");
    let encoded = form_urlencode(target.as_bytes());
    result.append(encoded.as_str());
    result.append("&hash=");
    let hash = sign(key, target);
    result.append(hash.as_str());
    if let Some(f) = fragment {
        result.append("#");
        result.append(f.as_str());
        proof {
            reveal_strlit("#");
            assert("#"@ =~= seq!['#']);
        }
    }
    Ok(result)
}

} // verus!
