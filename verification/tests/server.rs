use searproxy::client::{ClientError, ClientRedirect, Method};
use searproxy::rewrite_css::RewriteCssError;
use searproxy::server::{
    accepted_languages, default_headers, form_request, get_content_security_policy, get_error_message,
    get_error_response, handle_client_redirect, status_code, to_decimal, RedirectAnswer,
};

const HEADER_HASH: &str = "'sha256-header'";
const MAIN_HASH: &str = "'sha256-main'";

fn pair(name: &str, value: &str) -> (String, String) {
    (String::from(name), String::from(value))
}

#[test]
fn policy_of_a_page_lists_its_hashes_and_then_the_header_hash() {
    assert_eq!(
        get_content_security_policy(
            Some(vec![String::from("'sha256-one'"), String::from("'sha256-two'")]),
            HEADER_HASH,
            MAIN_HASH
        ),
        "default-src 'none'; block-all-mixed-content; img-src data: 'self'; style-src 'self' 'sha256-one' 'sha256-two' 'sha256-header'; prefetch-src 'self'; media-src 'self'; frame-src 'self'; font-src 'self'; frame-ancestors 'self'"
    );
}

#[test]
fn policy_of_a_page_without_styles_allows_the_header_style() {
    assert_eq!(
        get_content_security_policy(Some(Vec::new()), HEADER_HASH, MAIN_HASH),
        "default-src 'none'; block-all-mixed-content; img-src data: 'self'; style-src 'self' 'sha256-header'; prefetch-src 'self'; media-src 'self'; frame-src 'self'; font-src 'self'; frame-ancestors 'self'"
    );
}

#[test]
fn policy_of_other_answers_allows_the_main_style() {
    assert_eq!(
        get_content_security_policy(None, HEADER_HASH, MAIN_HASH),
        "default-src 'none'; block-all-mixed-content; img-src data: 'self'; style-src 'self' 'sha256-main'; prefetch-src 'self'; media-src 'self'; frame-src 'self'; font-src 'self'; frame-ancestors 'self'"
    );
}

#[test]
fn default_headers_are_the_baseline() {
    let headers = default_headers(HEADER_HASH, MAIN_HASH);
    assert_eq!(headers.len(), 4);
    assert_eq!(headers[0].0, "content-security-policy");
    assert_eq!(headers[0].1, get_content_security_policy(None, HEADER_HASH, MAIN_HASH));
    assert_eq!(headers[1], pair("referrer-policy", "no-referrer"));
    assert_eq!(headers[2], pair("x-frame-options", "SAMEORIGIN"));
    assert_eq!(headers[3], pair("x-content-type-options", "nosniff"));
}

#[test]
fn status_codes_follow_the_kind_of_error() {
    assert_eq!(status_code(&ClientError::InvalidHash), 401);
    assert_eq!(status_code(&ClientError::Hex(hex::FromHexError::OddLength)), 400);
    assert_eq!(status_code(&ClientError::BadRequest), 400);
    assert_eq!(status_code(&ClientError::IpRangeDenied(String::from("10.0.0.1"))), 400);
    assert_eq!(status_code(&ClientError::ResolveHostname(String::from("nowhere"))), 400);
    assert_eq!(status_code(&ClientError::HmacInstance), 500);
    assert_eq!(status_code(&ClientError::RequestClient), 500);
    assert_eq!(status_code(&ClientError::Request), 500);
    assert_eq!(status_code(&ClientError::UnexpectedStatusCode(404)), 500);
    assert_eq!(status_code(&ClientError::StringDecode), 500);
    assert_eq!(status_code(&ClientError::UrlParse(url::ParseError::EmptyHost)), 500);
    assert_eq!(status_code(&ClientError::MimeParse), 500);
    assert_eq!(status_code(&ClientError::Utf8Decode), 500);
    assert_eq!(status_code(&ClientError::CssRewrite(RewriteCssError::DecodeFailed)), 500);
}

#[test]
fn error_messages_name_the_reason() {
    let message = get_error_message(&ClientError::InvalidHash).unwrap();
    assert_eq!(message.name, "Invalid hash");
    assert_eq!(message.description, "The given URL and hash combination doesn't match.");

    let message = get_error_message(&ClientError::UnexpectedStatusCode(404)).unwrap();
    assert_eq!(message.name, "Unexpected status code");
    assert_eq!(message.description, "Origin returned status code: '404'");

    let message = get_error_message(&ClientError::MimeParse).unwrap();
    assert_eq!(message.name, "Invalid media type");
    assert_eq!(message.description, "Origin returned invalid media type");

    let message = get_error_message(&ClientError::Hex(hex::FromHexError::OddLength)).unwrap();
    assert_eq!(message.name, "Invalid hash");
    assert_eq!(message.description, "The given hash must be valid hexadecimal.");

    let message = get_error_message(&ClientError::BadRequest).unwrap();
    assert_eq!(message.name, "Bad request");
    assert_eq!(message.description, "Server will not process the request due to a client error");

    let message = get_error_message(&ClientError::IpRangeDenied(String::from("10.0.0.1"))).unwrap();
    assert_eq!(message.name, "Request denied");
    assert_eq!(
        message.description,
        "The requested host \"10.0.0.1\" is not permitted by the service provider."
    );

    let message = get_error_message(&ClientError::ResolveHostname(String::from("nowhere.invalid"))).unwrap();
    assert_eq!(message.name, "Unknown host");
    assert_eq!(message.description, "The requested host \"nowhere.invalid\" couldn't be resolved.");

    assert!(get_error_message(&ClientError::Request).is_none());
    assert!(get_error_message(&ClientError::Utf8Decode).is_none());
    assert!(get_error_message(&ClientError::HmacInstance).is_none());
}

#[test]
fn error_response_joins_status_and_message() {
    let response = get_error_response(ClientError::InvalidHash);
    assert_eq!(response.status_code, 401);
    assert_eq!(response.message.unwrap().name, "Invalid hash");

    let response = get_error_response(ClientError::Request);
    assert_eq!(response.status_code, 500);
    assert!(response.message.is_none());
}

#[test]
fn numbers_are_written_in_decimal() {
    assert_eq!(to_decimal(0), "0");
    assert_eq!(to_decimal(7), "7");
    assert_eq!(to_decimal(10), "10");
    assert_eq!(to_decimal(404), "404");
    assert_eq!(to_decimal(65535), "65535");
}

#[test]
fn languages_default_to_english() {
    assert_eq!(accepted_languages(Some("de-DE,de;q=0.9")), "de-DE,de;q=0.9");
    assert_eq!(accepted_languages(None), "en");
}

fn redirect(internal_url: &str) -> ClientRedirect {
    ClientRedirect {
        external_url: String::from("https://www.example.com/next"),
        internal_url: String::from(internal_url),
        status_code: 302,
    }
}

#[test]
fn redirects_are_followed_only_where_that_is_wanted() {
    match handle_client_redirect(true, redirect("./?url=x&hash=y")) {
        RedirectAnswer::Follow { status_code, location } => {
            assert_eq!(status_code, 307);
            assert_eq!(location, "./?url=x&hash=y");
        }
        other => panic!("unexpected: {:?}", other),
    }
    match handle_client_redirect(false, redirect("./?url=x&hash=y")) {
        RedirectAnswer::Confirm(kept) => {
            assert_eq!(kept.internal_url, "./?url=x&hash=y");
            assert_eq!(kept.external_url, "https://www.example.com/next");
            assert_eq!(kept.status_code, 302);
        }
        other => panic!("unexpected: {:?}", other),
    }
}

#[test]
fn redirects_that_cannot_stand_in_a_header_are_confirmed() {
    assert!(matches!(handle_client_redirect(true, redirect("./?url=x\n&hash=y")), RedirectAnswer::Confirm(_)));
    assert!(matches!(handle_client_redirect(true, redirect("./?url=x\u{7f}")), RedirectAnswer::Confirm(_)));
    assert!(matches!(handle_client_redirect(true, redirect("./?url=\u{e9}\t")), RedirectAnswer::Follow { .. }));
}

#[test]
fn posted_form_goes_out_with_the_method_it_names() {
    let request = form_request(vec![pair("q", "rust"), pair("_searproxy_origin_method", "get"), pair("page", "2")]);
    assert_eq!(request.method, Method::Get);
    assert_eq!(request.body, vec![pair("q", "rust"), pair("page", "2")]);

    let request = form_request(vec![pair("_searproxy_origin_method", " Get "), pair("q", "rust")]);
    assert_eq!(request.method, Method::Get);
    assert_eq!(request.body, vec![pair("q", "rust")]);

    let request = form_request(vec![pair("q", "rust"), pair("_searproxy_origin_method", "Post")]);
    assert_eq!(request.method, Method::Post);
    assert_eq!(request.body, vec![pair("q", "rust")]);

    let request = form_request(vec![pair("q", "rust"), pair("_searproxy_origin_method", "put")]);
    assert_eq!(request.method, Method::Post);
}

#[test]
fn posted_form_without_a_method_goes_out_as_post() {
    let request = form_request(vec![pair("q", "rust")]);
    assert_eq!(request.method, Method::Post);
    assert_eq!(request.body, vec![pair("q", "rust")]);

    let request = form_request(Vec::new());
    assert_eq!(request.method, Method::Post);
    assert!(request.body.is_empty());
}

#[test]
fn last_method_field_of_a_form_decides() {
    let request = form_request(vec![
        pair("_searproxy_origin_method", "GET"),
        pair("a", "1"),
        pair("_searproxy_origin_method", "POST"),
    ]);
    assert_eq!(request.method, Method::Post);
    assert_eq!(request.body, vec![pair("a", "1")]);
}
