//! What the server says around a fetch: the security policy of an answer, the
//! page for an error, and how a form and a redirect are handled.

use vstd::prelude::*;
use vstd::utf8::encode_utf8;
use crate::client::{ClientError, ClientRedirect, FormRequest, Method};
use crate::text::{ascii_uppercase, str_eq, to_ascii_uppercase, trim, trimmed};

verus! {

/// The policy up to the hashes of the allowed inline styles.
pub const POLICY_BEFORE_HASHES: &'static str =
    "default-src 'none'; block-all-mixed-content; img-src data: 'self'; style-src 'self' ";

/// The policy behind the hashes of the allowed inline styles.
pub const POLICY_BEHIND_HASHES: &'static str =
    "; prefetch-src 'self'; media-src 'self'; frame-src 'self'; font-src 'self'; frame-ancestors 'self'";

/// The name of the form field that carries the method a form was written for.
pub const ORIGIN_METHOD_FIELD: &'static str = "_searproxy_origin_method";

/// The words of a list, with a space between each two.
pub open spec fn joined_with_spaces(words: Seq<String>) -> Seq<char>
    decreases words.len(),
{
    if words.len() == 0 {
        Seq::empty()
    } else if words.len() == 1 {
        words[0]@
    } else {
        joined_with_spaces(words.drop_last()) + seq![' '] + words.last()@
    }
}

/// The sources of styles that an answer allows besides the proxy itself: for a
/// page, the hashes of its inline styles and then that of the banner's style
/// sheet; for anything else, the hash of the proxy's own style sheet.
pub open spec fn style_sources(
    style_hashes: Option<Seq<String>>,
    header_stylesheet_hash: Seq<char>,
    main_stylesheet_hash: Seq<char>,
) -> Seq<char> {
    match style_hashes {
        Some(hashes) => if hashes.len() == 0 {
            header_stylesheet_hash
        } else {
            joined_with_spaces(hashes) + seq![' '] + header_stylesheet_hash
        },
        None => main_stylesheet_hash,
    }
}

/// The Content Security Policy of an answer with these style sources.
pub open spec fn policy(style_sources: Seq<char>) -> Seq<char> {
    POLICY_BEFORE_HASHES@ + style_sources + POLICY_BEHIND_HASHES@
}

/// The Content Security Policy of an answer. `style_hashes_opt` holds the
/// source expressions of the inline styles of a rewritten page; it is absent
/// for every other answer.
pub fn get_content_security_policy(
    style_hashes_opt: Option<Vec<String>>,
    header_stylesheet_hash: &str,
    main_stylesheet_hash: &str,
) -> (header: String)
    ensures
        header@ == policy(
            style_sources(
                match style_hashes_opt {
                    Some(hashes) => Some(hashes@),
                    None => None,
                },
                header_stylesheet_hash@,
                main_stylesheet_hash@,
            ),
        ),
{
    let mut header = String::from_str(POLICY_BEFORE_HASHES);
    match style_hashes_opt {
        Some(hashes) => {
            let mut sources = String::new();
            let mut i: usize = 0;
            proof {
                assert(hashes@.take(0) =~= Seq::<String>::empty());
            }
            while i < hashes.len()
                invariant
                    i <= hashes.len(),
                    sources@ == joined_with_spaces(hashes@.take(i as int)),
                decreases hashes.len() - i,
            {
                proof {
                    assert(hashes@.take(i + 1).drop_last() =~= hashes@.take(i as int));
                    assert(hashes@.take(i + 1).last() == hashes@[i as int]);
                    reveal_strlit(" ");
                    assert(" "@ =~= seq![' ']);
                }
                if i > 0 {
                    sources.append(" ");
                }
                sources.append(hashes[i].as_str());
                proof {
                    if i == 0 {
                        assert(hashes@.take(1)[0] == hashes@[0]);
                        assert(sources@ =~= hashes@[0]@);
                    }
                }
                i += 1;
            }
            proof {
                assert(hashes@.take(i as int) =~= hashes@);
                reveal_strlit(" ");
                assert(" "@ =~= seq![' ']);
            }
            if hashes.len() > 0 {
                sources.append(" ");
            }
            sources.append(header_stylesheet_hash);
            assert(sources@ =~= style_sources(Some(hashes@), header_stylesheet_hash@, main_stylesheet_hash@));
            header.append(sources.as_str());
        },
        None => {
            header.append(main_stylesheet_hash);
        },
    }
    header.append(POLICY_BEHIND_HASHES);
    header
}

/// The headers that every answer carries, each as name and value: the policy
/// for answers that are no rewritten pages, and three fixed ones.
pub fn default_headers(header_stylesheet_hash: &str, main_stylesheet_hash: &str) -> (headers: Vec<(String, String)>)
    ensures
        headers@.len() == 4,
        headers@[0].0@ == "content-security-policy"@,
        headers@[0].1@ == policy(main_stylesheet_hash@),
        headers@[1].0@ == "referrer-policy"@ && headers@[1].1@ == "no-referrer"@,
        headers@[2].0@ == "x-frame-options"@ && headers@[2].1@ == "SAMEORIGIN"@,
        headers@[3].0@ == "x-content-type-options"@ && headers@[3].1@ == "nosniff"@,
{
    let mut headers: Vec<(String, String)> = Vec::new();
    headers.push(
        (
            String::from_str("content-security-policy"),
            get_content_security_policy(None, header_stylesheet_hash, main_stylesheet_hash),
        ),
    );
    headers.push((String::from_str("referrer-policy"), String::from_str("no-referrer")));
    headers.push((String::from_str("x-frame-options"), String::from_str("SAMEORIGIN")));
    headers.push((String::from_str("x-content-type-options"), String::from_str("nosniff")));
    headers
}

/// What an error page says.
#[derive(Debug)]
pub struct ErrorMessage {
    pub name: String,
    pub description: String,
}

/// An error as the client gets it: the status, and what the page says, if
/// there is something to say. Every such answer is sent with
/// `Cache-Control: no-cache`.
#[derive(Debug)]
pub struct ErrorResponse {
    pub status_code: u16,
    pub message: Option<ErrorMessage>,
}

/// The status with which an error is answered.
pub open spec fn status_of(error: ClientError) -> u16 {
    match error {
        ClientError::InvalidHash => 401,
        ClientError::Hex(_) | ClientError::BadRequest | ClientError::IpRangeDenied(_) | ClientError::ResolveHostname(
            _,
        ) => 400,
        _ => 500,
    }
}

/// The decimal digit for `n < 10`.
pub open spec fn digit(n: nat) -> char {
    (0x30 + n) as char
}

/// A number in decimal digits.
pub open spec fn decimal(n: nat) -> Seq<char>
    decreases n,
{
    if n < 10 {
        seq![digit(n)]
    } else {
        decimal(n / 10).push(digit(n % 10))
    }
}

/// What the page says of an error, as name and description; nothing for
/// errors that are the proxy's own business.
pub open spec fn message_of(error: ClientError) -> Option<(Seq<char>, Seq<char>)> {
    match error {
        ClientError::InvalidHash => Some(
            ("Invalid hash"@, "The given URL and hash combination doesn't match."@),
        ),
        ClientError::UnexpectedStatusCode(status_code) => Some(
            ("Unexpected status code"@, "Origin returned status code: '"@ + decimal(status_code as nat) + "'"@),
        ),
        ClientError::MimeParse => Some(("Invalid media type"@, "Origin returned invalid media type"@)),
        ClientError::Hex(_) => Some(("Invalid hash"@, "The given hash must be valid hexadecimal."@)),
        ClientError::BadRequest => Some(
            ("Bad request"@, "Server will not process the request due to a client error"@),
        ),
        ClientError::IpRangeDenied(host) => Some(
            (
                "Request denied"@,
                "The requested host \""@ + host@ + "\" is not permitted by the service provider."@,
            ),
        ),
        ClientError::ResolveHostname(host) => Some(
            ("Unknown host"@, "The requested host \""@ + host@ + "\" couldn't be resolved."@),
        ),
        _ => None,
    }
}

/// The status with which an error is answered: 401 for a signature that does
/// not fit, 400 for what the client got wrong, 500 for the rest.
pub fn status_code(error: &ClientError) -> (status: u16)
    ensures
        status == status_of(*error),
{
    match error {
        ClientError::InvalidHash => 401,
        ClientError::Hex(_) | ClientError::BadRequest | ClientError::IpRangeDenied(_) | ClientError::ResolveHostname(
            _,
        ) => 400,
        _ => 500,
    }
}

/// A number in decimal digits.
pub fn to_decimal(n: u16) -> (text: String)
    ensures
        text@ == decimal(n as nat),
    decreases n,
{
    let digits: [&'static str; 10] = ["0", "1", "2", "3", "4", "5", "6", "7", "8", "9"];
    proof {
        reveal_strlit("0");
        reveal_strlit("1");
        reveal_strlit("2");
        reveal_strlit("3");
        reveal_strlit("4");
        reveal_strlit("5");
        reveal_strlit("6");
        reveal_strlit("7");
        reveal_strlit("8");
        reveal_strlit("9");
    }
    let last: usize = (n % 10) as usize;
    assert(digits[last as int]@ =~= seq![digit(last as nat)]);
    if n < 10 {
        String::from_str(digits[last])
    } else {
        let mut text = to_decimal(n / 10);
        text.append(digits[last]);
        assert(text@ =~= decimal((n / 10) as nat).push(digit((n % 10) as nat)));
        text
    }
}

/// What the page says of an error.
pub fn get_error_message(error_detail: &ClientError) -> (message: Option<ErrorMessage>)
    ensures
        match message_of(*error_detail) {
            Some(expected) => message matches Some(m) && m.name@ == expected.0 && m.description@ == expected.1,
            None => message is None,
        },
{
    match error_detail {
        ClientError::InvalidHash => Some(
            ErrorMessage {
                name: String::from_str("Invalid hash"),
                description: String::from_str("The given URL and hash combination doesn't match."),
            },
        ),
        ClientError::UnexpectedStatusCode(status_code) => {
            let mut description = String::from_str("Origin returned status code: '");
            description.append(to_decimal(*status_code).as_str());
            description.append("'");
            Some(ErrorMessage { name: String::from_str("Unexpected status code"), description })
        },
        ClientError::MimeParse => Some(
            ErrorMessage {
                name: String::from_str("Invalid media type"),
                description: String::from_str("Origin returned invalid media type"),
            },
        ),
        ClientError::Hex(_) => Some(
            ErrorMessage {
                name: String::from_str("Invalid hash"),
                description: String::from_str("The given hash must be valid hexadecimal."),
            },
        ),
        ClientError::BadRequest => Some(
            ErrorMessage {
                name: String::from_str("Bad request"),
                description: String::from_str("Server will not process the request due to a client error"),
            },
        ),
        ClientError::IpRangeDenied(host) => {
            let mut description = String::from_str("The requested host \"");
            description.append(host.as_str());
            description.append("\" is not permitted by the service provider.");
            Some(ErrorMessage { name: String::from_str("Request denied"), description })
        },
        ClientError::ResolveHostname(host) => {
            let mut description = String::from_str("The requested host \"");
            description.append(host.as_str());
            description.append("\" couldn't be resolved.");
            Some(ErrorMessage { name: String::from_str("Unknown host"), description })
        },
        _ => None,
    }
}

/// The answer to a request that has failed.
pub fn get_error_response(error_detail: ClientError) -> (response: ErrorResponse)
    ensures
        response.status_code == status_of(error_detail),
        match message_of(error_detail) {
            Some(expected) => response.message matches Some(m) && m.name@ == expected.0 && m.description@
                == expected.1,
            None => response.message is None,
        },
{
    ErrorResponse { status_code: status_code(&error_detail), message: get_error_message(&error_detail) }
}

/// The languages that the origin is asked for: those that the client named,
/// or English.
pub fn accepted_languages<'a>(header: Option<&'a str>) -> (languages: &'a str)
    ensures
        languages@ == (match header {
            Some(named) => named@,
            None => "en"@,
        }),
{
    match header {
        Some(named) => named,
        None => "en",
    }
}

/// Bytes that may stand in the value of a header.
pub open spec fn is_header_byte(b: u8) -> bool {
    (b >= 32 && b != 127) || b == 9
}

/// Whether a text can be the value of a header.
pub open spec fn is_header_text(text: Seq<char>) -> bool {
    forall|i: int| 0 <= i < encode_utf8(text).len() ==> is_header_byte(#[trigger] encode_utf8(text)[i])
}

/// `http::HeaderValue::from_str`, which the web framework hands on: whether
/// every byte of the text may stand in the value of a header.
#[verifier::external_body]
pub(crate) fn is_header_value(text: &str) -> (valid: bool)
    ensures
        valid == is_header_text(text@),
{
    actix_web::http::header::HeaderValue::from_str(text).is_ok()
}

/// How a redirect of the origin is answered.
#[derive(Debug)]
pub enum RedirectAnswer {
    /// With a temporary redirect to the proxy URL of the target.
    Follow { status_code: u16, location: String },
    /// With a page that shows the target and asks.
    Confirm(ClientRedirect),
}

/// Answers a redirect of the origin: where redirects are followed, with a
/// redirect of its own, status 307, to the proxy URL of the target; otherwise,
/// and where the proxy URL cannot stand in a header, with a page that asks.
pub fn handle_client_redirect(follow_redirects: bool, client_redirect: ClientRedirect) -> (answer: RedirectAnswer)
    ensures
        if follow_redirects && is_header_text(client_redirect.internal_url@) {
            answer matches RedirectAnswer::Follow { status_code, location } && status_code == 307 && location@
                == client_redirect.internal_url@
        } else {
            answer matches RedirectAnswer::Confirm(kept) && kept == client_redirect
        },
{
    if follow_redirects && is_header_value(client_redirect.internal_url.as_str()) {
        RedirectAnswer::Follow { status_code: 307, location: client_redirect.internal_url }
    } else {
        RedirectAnswer::Confirm(client_redirect)
    }
}

/// The value of the last field that names the method a form was written for.
pub open spec fn origin_method(fields: Seq<(String, String)>) -> Option<Seq<char>>
    decreases fields.len(),
{
    if fields.len() == 0 {
        None
    } else if fields.last().0@ == ORIGIN_METHOD_FIELD@ {
        Some(fields.last().1@)
    } else {
        origin_method(fields.drop_last())
    }
}

/// The method with which a posted form goes to the origin: `GET` where the
/// form says so, in any case of letters, and `POST` otherwise.
pub open spec fn method_of(fields: Seq<(String, String)>) -> Method {
    match origin_method(fields) {
        Some(value) => if trimmed(ascii_uppercase(value)) == "GET"@ {
            Method::Get
        } else {
            Method::Post
        },
        None => Method::Post,
    }
}

/// The fields of a form without those that name its method.
pub open spec fn form_fields(fields: Seq<(String, String)>) -> Seq<(String, String)> {
    fields.filter(|field: (String, String)| field.0@ != ORIGIN_METHOD_FIELD@)
}

/// Reads a form that was posted to the proxy: the field that names the
/// method the form was written for is taken out and decides how the form
/// goes to the origin.
pub fn form_request(body: Vec<(String, String)>) -> (request: FormRequest)
    ensures
        request.method == method_of(body@),
        request.body@ == form_fields(body@),
{
    let mut fields: Vec<(String, String)> = Vec::new();
    let mut method = Method::Post;
    let mut body = body;
    let ghost all = body@;
    proof {
        reveal(Seq::filter);
    }
    // The fields are taken from the end of the vector, so they come out in
    // reverse and are turned round afterwards.
    let mut reversed: Vec<(String, String)> = Vec::new();
    let mut found = false;
    while body.len() > 0
        invariant
            body@ == all.take(body@.len() as int),
            body@.len() <= all.len(),
            found == origin_method(all.skip(body@.len() as int)) is Some,
            method == method_of(all.skip(body@.len() as int)),
            reversed@.reverse() == form_fields(all.skip(body@.len() as int)),
        decreases body.len(),
    {
        let ghost n = body@.len() as int;
        let field = body.pop().unwrap();
        proof {
            assert(field == all[n - 1]);
            assert(body@ =~= all.take(n - 1));
            assert(all.skip(n - 1) =~= seq![field] + all.skip(n));
            filter_first(field, all.skip(n));
            method_first(field, all.skip(n));
        }
        if str_eq(field.0.as_str(), ORIGIN_METHOD_FIELD) {
            if !found {
                found = true;
                let raised = to_ascii_uppercase(field.1.as_str());
                method = if str_eq(trim(raised.as_str()), "GET") {
                    Method::Get
                } else {
                    Method::Post
                };
            }
        } else {
            reversed.push(field);
            proof {
                assert(reversed@.reverse() =~= seq![field] + reversed@.drop_last().reverse());
            }
        }
    }
    proof {
        assert(all.skip(0) =~= all);
    }
    while reversed.len() > 0
        invariant
            fields@ + reversed@.reverse() == form_fields(all),
        decreases reversed.len(),
    {
        let ghost before = reversed@;
        let field = reversed.pop().unwrap();
        fields.push(field);
        proof {
            assert(before.reverse() =~= seq![field] + reversed@.reverse());
            assert(fields@ + reversed@.reverse() =~= fields@.drop_last() + before.reverse());
        }
    }
    proof {
        assert(fields@ + reversed@.reverse() =~= fields@);
    }
    FormRequest { body: fields, method }
}

/// The fields behind a first one, without those that name the method.
proof fn filter_first(field: (String, String), rest: Seq<(String, String)>)
    ensures
        form_fields(seq![field] + rest) == if field.0@ != ORIGIN_METHOD_FIELD@ {
            seq![field] + form_fields(rest)
        } else {
            form_fields(rest)
        },
    decreases rest.len(),
{
    reveal(Seq::filter);
    let pred = |f: (String, String)| f.0@ != ORIGIN_METHOD_FIELD@;
    let all = seq![field] + rest;
    if rest.len() == 0 {
        assert(all.drop_last() =~= Seq::<(String, String)>::empty());
        assert(all.last() == field);
        assert(form_fields(rest) =~= Seq::<(String, String)>::empty());
        assert(all.drop_last().filter(pred) =~= Seq::<(String, String)>::empty());
        assert(Seq::<(String, String)>::empty().push(field) =~= seq![field] + Seq::<(String, String)>::empty());
    } else {
        filter_first(field, rest.drop_last());
        assert(all.drop_last() =~= seq![field] + rest.drop_last());
        assert(all.last() == rest.last());
        if pred(rest.last()) {
            assert((seq![field] + form_fields(rest.drop_last())).push(rest.last()) =~= seq![field] + form_fields(
                rest.drop_last(),
            ).push(rest.last()));
        }
    }
}

/// A field before others decides the method only where none of them names it.
proof fn method_first(field: (String, String), rest: Seq<(String, String)>)
    ensures
        origin_method(seq![field] + rest) == match origin_method(rest) {
            Some(value) => Some(value),
            None => if field.0@ == ORIGIN_METHOD_FIELD@ {
                Some(field.1@)
            } else {
                None
            },
        },
    decreases rest.len(),
{
    let all = seq![field] + rest;
    if rest.len() == 0 {
        assert(all.drop_last() =~= Seq::<(String, String)>::empty());
        assert(all.last() == field);
        assert(origin_method(all.drop_last()) is None);
        assert(origin_method(rest) is None);
    } else {
        method_first(field, rest.drop_last());
        assert(all.drop_last() =~= seq![field] + rest.drop_last());
        assert(all.last() == rest.last());
        assert(all.len() > 0);
        assert(origin_method(all) == if all.last().0@ == ORIGIN_METHOD_FIELD@ {
            Some(all.last().1@)
        } else {
            origin_method(all.drop_last())
        });
    }
}

} // verus!
