use std::rc::Rc;

use searproxy::client::{
    append_form_params, body_kind, fetch_transform_url, fetch_validate_url, transform_css, transform_html,
    transform_response, BodyKind, BodyType, ClientError, FormRequest, Location, Method, ResponseAction,
};
use searproxy::config::{Config, IndexHttpArgs};
use searproxy::ip_range::PermittedIpRange;
use searproxy::rewrite_css::RewriteCssError;
use searproxy::rewrite_url::sign;
use searproxy::rewriter::HtmlSettings;

const KEY: &[u8] = b"example";

fn config(range: PermittedIpRange) -> Config {
    Config {
        follow_redirects: false,
        hmac_secret: KEY.to_vec(),
        lazy_images: false,
        permitted_ip_range: range,
        proxy_address: None,
        request_timeout: 5,
        worker_count: 0,
    }
}

fn settings() -> HtmlSettings {
    HtmlSettings { hmac_secret: KEY.to_vec(), lazy_images: false, header_stylesheet: String::from("h{}") }
}

fn pair(name: &str, value: &str) -> (String, String) {
    (String::from(name), String::from(value))
}

fn shared(url: &str) -> Rc<url::Url> {
    Rc::new(url::Url::parse(url).unwrap())
}

#[test]
fn valid_request_without_form_is_a_get() {
    let url = "https://www.example.com/a";
    let plan = fetch_validate_url(
        &config(PermittedIpRange::Global),
        url,
        "d2269853e1eda4c3f07592ef3742218dfa63c210d29f0fe3ea16f460efa164e8",
        None,
    )
    .unwrap();
    assert_eq!(plan.method, Method::Get);
    assert_eq!(plan.url.as_str(), url);
    assert_eq!(plan.body, None);
    assert_eq!(plan.resolve, Some(String::from("www.example.com")));
}

#[test]
fn form_for_get_joins_the_query() {
    let url = "https://www.example.com/path?x=1";
    let form = FormRequest { body: vec![pair("a", "b"), pair("c", "d e")], method: Method::Get };
    let plan = fetch_validate_url(&config(PermittedIpRange::Global), url, &sign(KEY, url), Some(form)).unwrap();
    assert_eq!(plan.method, Method::Get);
    assert_eq!(plan.url.as_str(), "https://www.example.com/path?x=1&a=b&c=d+e");
    assert_eq!(plan.body, None);
}

#[test]
fn form_for_post_goes_into_the_body() {
    let url = "https://www.example.com/path?x=1";
    let form = FormRequest { body: vec![pair("a", "b")], method: Method::Post };
    let plan = fetch_validate_url(&config(PermittedIpRange::Global), url, &sign(KEY, url), Some(form)).unwrap();
    assert_eq!(plan.method, Method::Post);
    assert_eq!(plan.url.as_str(), url);
    assert_eq!(plan.body, Some(vec![pair("a", "b")]));
}

#[test]
fn tampered_request_is_refused() {
    let url = "https://www.example.com/a";
    let hash = sign(KEY, url);
    assert!(matches!(
        fetch_validate_url(&config(PermittedIpRange::Global), "https://www.example.com/b", &hash, None),
        Err(ClientError::InvalidHash)
    ));
    assert!(matches!(
        fetch_validate_url(&config(PermittedIpRange::Global), url, "xyz", None),
        Err(ClientError::Hex(hex::FromHexError::OddLength))
    ));
    assert!(matches!(
        fetch_validate_url(&config(PermittedIpRange::Global), url, "xy", None),
        Err(ClientError::Hex(hex::FromHexError::InvalidHexCharacter { c: 'x', index: 0 }))
    ));
}

#[test]
fn signature_is_checked_before_the_host() {
    assert!(matches!(
        fetch_validate_url(&config(PermittedIpRange::Nothing), "http://127.0.0.1/", "00", None),
        Err(ClientError::InvalidHash)
    ));
}

#[test]
fn signed_target_has_to_be_absolute() {
    let url = "www.example.com/a";
    assert!(matches!(
        fetch_validate_url(&config(PermittedIpRange::Global), url, &sign(KEY, url), None),
        Err(ClientError::UrlParse(url::ParseError::RelativeUrlWithoutBase))
    ));
}

#[test]
fn signed_target_has_to_be_permitted() {
    let url = "http://127.0.0.1/";
    match fetch_validate_url(&config(PermittedIpRange::Global), url, &sign(KEY, url), None) {
        Err(ClientError::IpRangeDenied(host)) => assert_eq!(host, "127.0.0.1"),
        other => panic!("unexpected: {:?}", other),
    }
    let plan = fetch_validate_url(&config(PermittedIpRange::Local), url, &sign(KEY, url), None).unwrap();
    assert_eq!(plan.resolve, None);
}

#[test]
fn form_fields_are_appended_in_their_order() {
    let mut url = url::Url::parse("https://www.example.com/").unwrap();
    append_form_params(&mut url, &vec![pair("b", "2"), pair("a", "1&=")]).unwrap();
    assert_eq!(url.as_str(), "https://www.example.com/?b=2&a=1%26%3D");
    append_form_params(&mut url, &Vec::new()).unwrap();
    assert_eq!(url.as_str(), "https://www.example.com/?b=2&a=1%26%3D");
}

#[test]
fn status_200_is_rewritten() {
    let url = url::Url::parse("https://www.example.com/a").unwrap();
    assert!(matches!(fetch_transform_url(KEY, &url, 200, Location::Absent), Ok(ResponseAction::Transform)));
    assert!(matches!(fetch_transform_url(KEY, &url, 200, Location::Text("/next")), Ok(ResponseAction::Transform)));
}

#[test]
fn redirect_is_reported_with_a_proxy_url() {
    let url = url::Url::parse("https://www.example.com/a").unwrap();
    match fetch_transform_url(KEY, &url, 302, Location::Text("/next")).unwrap() {
        ResponseAction::Redirect(redirect) => {
            assert_eq!(redirect.external_url, "https://www.example.com/next");
            assert_eq!(
                redirect.internal_url,
                "./?url=https%3A%2F%2Fwww.example.com%2Fnext&hash=fe48823ee52f6b972dd6b94e8fd059cf8dba89f5e2b8a745a40234e0e6900d0b"
            );
            assert_eq!(redirect.status_code, 302);
        }
        other => panic!("unexpected: {:?}", other),
    }
}

#[test]
fn redirect_without_a_location_is_an_unexpected_status() {
    let url = url::Url::parse("https://www.example.com/a").unwrap();
    assert!(matches!(
        fetch_transform_url(KEY, &url, 301, Location::Absent),
        Err(ClientError::UnexpectedStatusCode(301))
    ));
    assert!(matches!(
        fetch_transform_url(KEY, &url, 399, Location::Absent),
        Err(ClientError::UnexpectedStatusCode(399))
    ));
}

#[test]
fn redirect_with_a_location_that_cannot_be_used_fails() {
    let url = url::Url::parse("https://www.example.com/a").unwrap();
    assert!(matches!(
        fetch_transform_url(KEY, &url, 307, Location::Text("https://[::1")),
        Err(ClientError::UrlParse(_))
    ));
    assert!(matches!(fetch_transform_url(KEY, &url, 302, Location::Unreadable), Err(ClientError::StringDecode)));
}

#[test]
fn location_counts_only_for_a_redirect() {
    let url = url::Url::parse("https://www.example.com/a").unwrap();
    assert!(matches!(fetch_transform_url(KEY, &url, 200, Location::Unreadable), Ok(ResponseAction::Transform)));
    assert!(matches!(
        fetch_transform_url(KEY, &url, 404, Location::Unreadable),
        Err(ClientError::UnexpectedStatusCode(404))
    ));
    assert!(matches!(
        fetch_transform_url(KEY, &url, 500, Location::Text("/next")),
        Err(ClientError::UnexpectedStatusCode(500))
    ));
}

#[test]
fn other_statuses_are_errors() {
    let url = url::Url::parse("https://www.example.com/a").unwrap();
    assert!(matches!(fetch_transform_url(KEY, &url, 404, Location::Absent), Err(ClientError::UnexpectedStatusCode(404))));
    assert!(matches!(fetch_transform_url(KEY, &url, 400, Location::Text("/x")), Err(ClientError::UnexpectedStatusCode(400))));
    assert!(matches!(fetch_transform_url(KEY, &url, 299, Location::Text("/x")), Err(ClientError::UnexpectedStatusCode(299))));
    assert!(matches!(fetch_transform_url(KEY, &url, 201, Location::Absent), Err(ClientError::UnexpectedStatusCode(201))));
}

#[test]
fn content_type_decides_on_the_body() {
    assert_eq!(body_kind(Some("text/html")).unwrap(), BodyKind::Html);
    assert_eq!(body_kind(Some("text/html; charset=utf-8")).unwrap(), BodyKind::Html);
    assert_eq!(body_kind(Some("TEXT/HTML; Charset=UTF-8")).unwrap(), BodyKind::Html);
    assert_eq!(body_kind(Some("text/css")).unwrap(), BodyKind::Css);
    assert_eq!(body_kind(Some("text/css;charset=utf-8")).unwrap(), BodyKind::Css);
    assert_eq!(body_kind(Some("image/png")).unwrap(), BodyKind::Stream);
    assert_eq!(body_kind(Some("text/plain")).unwrap(), BodyKind::Stream);
    assert_eq!(body_kind(None).unwrap(), BodyKind::Stream);
    assert!(matches!(body_kind(Some("nonsense")), Err(ClientError::MimeParse)));
    assert!(matches!(body_kind(Some("")), Err(ClientError::MimeParse)));
}

const CSS_OUT: &str = "a{background:url('./?url=https%3A%2F%2Fwww.example.com%2Fmain.css&hash=7d40cd69599262cfe009ac148491a37e9ec47dcf2386c2807bc2255fff6d5fa3')}";

#[test]
fn style_sheet_in_chunks_is_rewritten_as_a_whole() {
    let url = shared("https://www.example.com");
    let whole = transform_css(KEY, &url, &vec![b"a{background:url('main.css')}".to_vec()]).unwrap();
    let chunked = transform_css(
        KEY,
        &url,
        &vec![b"a{background:u".to_vec(), b"rl('ma".to_vec(), Vec::new(), b"in.css')}".to_vec()],
    )
    .unwrap();
    assert_eq!(std::str::from_utf8(&whole).unwrap(), CSS_OUT);
    assert_eq!(whole, chunked);
    assert_eq!(transform_css(KEY, &url, &Vec::new()).unwrap(), Vec::<u8>::new());
}

#[test]
fn style_sheet_with_a_broken_url_fails() {
    let url = shared("https://www.example.com");
    assert!(matches!(
        transform_css(KEY, &url, &vec![b"url(\xff)".to_vec()]),
        Err(ClientError::CssRewrite(RewriteCssError::DecodeFailed))
    ));
    assert!(matches!(
        transform_css(KEY, &url, &vec![b"url(https://[".to_vec(), b"::1)".to_vec(), b"url(a)".to_vec()]),
        Err(ClientError::CssRewrite(RewriteCssError::UrlRewrite(_)))
    ));
}

#[test]
fn page_in_chunks_is_rewritten() {
    let url = shared("https://www.example.com/");
    let result =
        transform_html(settings(), &url, &vec![b"<a hr".to_vec(), b"ef='/'>main</".to_vec(), b"a>".to_vec()]).unwrap();
    assert_eq!(
        std::str::from_utf8(&result.html).unwrap(),
        "<a href=\"./?url=https%3A%2F%2Fwww.example.com%2F&hash=85870232cac1676c4477f7cae4da7173ccee4002f32e89c16038547aa20175c0\">main</a>"
    );
    assert!(result.style_hashes.is_empty());
}

#[test]
fn answer_for_a_page_carries_its_style_hashes() {
    let url = shared("https://www.example.com/");
    let response = transform_response(
        settings(),
        &url,
        Some("text/html; charset=utf-8"),
        Some(b"attachment".to_vec()),
        &vec![b"<style>a{opacity:1}</style>".to_vec()],
    )
    .unwrap();
    match response.body {
        BodyType::Complete(html) => assert_eq!(html, b"<style>a{opacity:1}</style>".to_vec()),
        other => panic!("unexpected: {:?}", other),
    }
    assert_eq!(response.content_type, "text/html; charset=utf-8");
    assert_eq!(response.content_disposition, None);
    assert_eq!(
        response.style_hashes,
        Some(vec![String::from("'sha256-564qpJ+zCKapW1rdO7SIzUPCdybwEYY3byP3vXR6hVo='")])
    );
}

#[test]
fn answer_for_a_style_sheet_is_rewritten() {
    let url = shared("https://www.example.com");
    let response =
        transform_response(settings(), &url, Some("text/css"), None, &vec![b"a{background:url('main.css')}".to_vec()])
            .unwrap();
    match response.body {
        BodyType::Complete(css) => assert_eq!(std::str::from_utf8(&css).unwrap(), CSS_OUT),
        other => panic!("unexpected: {:?}", other),
    }
    assert_eq!(response.content_type, "text/css");
    assert_eq!(response.style_hashes, None);
}

#[test]
fn other_answers_are_handed_on() {
    let url = shared("https://www.example.com");
    let response =
        transform_response(settings(), &url, Some("image/png"), Some(b"inline".to_vec()), &Vec::new()).unwrap();
    assert!(matches!(response.body, BodyType::Stream));
    assert_eq!(response.content_type, "image/png");
    assert_eq!(response.content_disposition, Some(b"inline".to_vec()));
    assert_eq!(response.style_hashes, None);

    let response = transform_response(settings(), &url, None, None, &Vec::new()).unwrap();
    assert!(matches!(response.body, BodyType::Stream));
    assert_eq!(response.content_type, "text/plain");

    assert!(matches!(
        transform_response(settings(), &url, Some("no media type"), None, &Vec::new()),
        Err(ClientError::MimeParse)
    ));
}

#[test]
fn query_names_a_target_only_with_its_signature() {
    let both = IndexHttpArgs { url: Some(String::from("https://e.com/")), hash: Some(String::from("00")) };
    assert_eq!(both.target(), Some(("https://e.com/", "00")));
    let no_hash = IndexHttpArgs { url: Some(String::from("https://e.com/")), hash: None };
    assert_eq!(no_hash.target(), None);
    let no_url = IndexHttpArgs { url: None, hash: Some(String::from("00")) };
    assert_eq!(no_url.target(), None);
}

#[test]
fn page_that_cannot_be_rewritten_fails_the_answer() {
    let url = shared("https://www.example.com/");
    assert!(matches!(
        transform_html(settings(), &url, &vec![b"<a href='https://[::1'>x</a>".to_vec()]),
        Err(ClientError::HtmlRewrite(searproxy::rewrite_html::RewriteHtmlError::UrlRewrite(_)))
    ));
    assert!(matches!(
        transform_response(settings(), &url, Some("text/html"), None, &vec![b"<form method='a b'>".to_vec()]),
        Err(ClientError::HtmlRewrite(searproxy::rewrite_html::RewriteHtmlError::Method))
    ));
    assert!(matches!(
        transform_response(settings(), &url, Some("text/css"), None, &vec![b"url(\xff)".to_vec()]),
        Err(ClientError::CssRewrite(RewriteCssError::DecodeFailed))
    ));
}

#[test]
fn redirect_to_a_fragment_or_to_data_keeps_that_target() {
    let url = url::Url::parse("https://www.example.com/a").unwrap();
    match fetch_transform_url(KEY, &url, 303, Location::Text("#part")).unwrap() {
        ResponseAction::Redirect(redirect) => {
            assert_eq!(redirect.external_url, "https://www.example.com/a#part");
            assert_eq!(redirect.internal_url, "#part");
            assert_eq!(redirect.status_code, 303);
        }
        other => panic!("unexpected: {:?}", other),
    }
}

#[test]
fn field_beyond_the_limit_is_a_bad_request() {
    let long = "a".repeat(searproxy::rewrite_url::PAIR_LIMIT + 1);
    let mut url = url::Url::parse("https://www.example.com/").unwrap();
    assert!(matches!(
        append_form_params(&mut url, &vec![pair("ok", "1"), (String::from("field"), long)]),
        Err(ClientError::BadRequest)
    ));
    assert_eq!(url.as_str(), "https://www.example.com/?ok=1");
}
