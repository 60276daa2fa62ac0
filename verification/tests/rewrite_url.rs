use searproxy::client::{verify_hash, ClientError};
use searproxy::rewrite_url::{rewrite_url, sign};

const KEY: &[u8] = b"example";

fn base(text: &str) -> url::Url {
    url::Url::parse(text).unwrap()
}

#[test]
fn rewrite_url_rewrite_relative() {
    assert_eq!(
        rewrite_url(KEY, &base("https://www.example.com"), "/index.html").unwrap(),
        "./?url=https%3A%2F%2Fwww.example.com%2Findex.html&hash=7554946c4d3998da8be40b803c938c943f3dbbbb78958addd008b55bcacfb8c0"
    );
}

#[test]
fn rewrite_url_rewrite_relative_parent() {
    assert_eq!(
        rewrite_url(KEY, &base("https://www.example.com/home/about"), "../index.html").unwrap(),
        "./?url=https%3A%2F%2Fwww.example.com%2Findex.html&hash=7554946c4d3998da8be40b803c938c943f3dbbbb78958addd008b55bcacfb8c0"
    );
}

#[test]
fn rewrite_url_rewrite_absolute() {
    assert_eq!(
        rewrite_url(KEY, &base("https://example.com/"), "https://www.example.com/").unwrap(),
        "./?url=https%3A%2F%2Fwww.example.com%2F&hash=85870232cac1676c4477f7cae4da7173ccee4002f32e89c16038547aa20175c0"
    );
}

#[test]
fn rewrite_url_accept_data_image_png() {
    assert_eq!(
        rewrite_url(KEY, &base("https://example.com/"), "data:image/png;base64,dGVzdA==").unwrap(),
        "data:image/png;base64,dGVzdA=="
    );
}

#[test]
fn rewrite_url_accept_data_image_jpg() {
    assert_eq!(
        rewrite_url(KEY, &base("https://example.com/"), "data:image/jpg;base64,dGVzdA==").unwrap(),
        "data:image/jpg;base64,dGVzdA=="
    );
}

#[test]
fn rewrite_url_reject_data_script() {
    assert_eq!(
        rewrite_url(KEY, &base("https://example.com/"), "data:application/javascript;base64,dGVzdA==").unwrap(),
        ""
    );
}

#[test]
fn rewrite_url_reject_data_text() {
    assert_eq!(
        rewrite_url(KEY, &base("https://example.com/"), "data:text/plain;base64,dGVzdA==").unwrap(),
        ""
    );
}

#[test]
fn rewrite_url_pass_through_fragment_ref() {
    assert_eq!(rewrite_url(KEY, &base("https://example.com/"), "#about").unwrap(), "#about");
}

#[test]
fn rewrite_url_rewrite_prefixed_path_fragment_ref() {
    assert_eq!(
        rewrite_url(KEY, &base("https://example.com/"), "/home/#about").unwrap(),
        "./?url=https%3A%2F%2Fexample.com%2Fhome%2F&hash=3af87c981235827014507736715a403ebd2f9c875689318184ba2cc035ea3e61#about"
    );
}

#[test]
fn rewrite_url_rewrite_prefixed_fragment_ref() {
    assert_eq!(
        rewrite_url(KEY, &base("https://example.com/"), "https://another.example.com/#about").unwrap(),
        "./?url=https%3A%2F%2Fanother.example.com%2F&hash=743bb69ce433c306c9883528f2a7b451531362a1d41bbf6519ed97cdb81b907b#about"
    );
}

#[test]
fn rewrite_url_fails_on_unresolvable_reference() {
    assert!(rewrite_url(KEY, &base("https://example.com/"), "https://[::1").is_err());
}

#[test]
fn rewrite_url_encodes_space_and_reserved_bytes() {
    let url = rewrite_url(KEY, &base("https://example.com/"), "/a b?x=1&y=*-._~").unwrap();
    assert!(url.starts_with("./?url=https%3A%2F%2Fexample.com%2Fa%2520b%3Fx%3D1%26y%3D*-._%7E&hash="));
}

#[test]
fn sign_gives_lowercase_hex_of_the_tag() {
    assert_eq!(
        sign(KEY, "https://www.example.com/"),
        "85870232cac1676c4477f7cae4da7173ccee4002f32e89c16038547aa20175c0"
    );
}

#[test]
fn verify_hash_accepts_what_sign_made() {
    let url = "https://www.example.com/index.html?a=b";
    assert!(verify_hash(KEY, url, &sign(KEY, url)).is_ok());
    assert!(verify_hash(KEY, url, &sign(KEY, url).to_uppercase()).is_ok());
}

#[test]
fn verify_hash_rejects_other_url_or_key() {
    let url = "https://www.example.com/";
    let hash = sign(KEY, url);
    assert!(matches!(verify_hash(KEY, "https://www.example.com/x", &hash), Err(ClientError::InvalidHash)));
    assert!(matches!(verify_hash(b"other", url, &hash), Err(ClientError::InvalidHash)));
    assert!(matches!(verify_hash(KEY, url, "00"), Err(ClientError::InvalidHash)));
}

#[test]
fn verify_hash_reports_malformed_hex() {
    let url = "https://www.example.com/";
    assert!(matches!(
        verify_hash(KEY, url, "abc"),
        Err(ClientError::Hex(hex::FromHexError::OddLength))
    ));
    assert!(matches!(
        verify_hash(KEY, url, "0g"),
        Err(ClientError::Hex(hex::FromHexError::InvalidHexCharacter { c: 'g', index: 1 }))
    ));
}

#[test]
fn proxy_url_carries_a_target_that_its_hash_signs() {
    for (origin, reference) in [
        ("https://www.example.com/a/b?x=1", "../c d?q=a&b=c#frag"),
        ("https://www.example.com/", "//other.example/p\u{e4}th?\u{fc}=1"),
        ("http://[::1]:8080/x", "y;z=1"),
    ] {
        let origin = base(origin);
        let minted = rewrite_url(KEY, &origin, reference).unwrap();
        let (query, fragment) = match minted.split_once('#') {
            Some((query, fragment)) => (query, Some(fragment)),
            None => (minted.as_str(), None),
        };
        let query = query.strip_prefix("./?").unwrap();
        let pairs: Vec<(String, String)> = url::form_urlencoded::parse(query.as_bytes()).into_owned().collect();
        assert_eq!(pairs.len(), 2);
        assert_eq!(pairs[0].0, "url");
        assert_eq!(pairs[1].0, "hash");
        assert_eq!(pairs[1].1.len(), 64);
        assert!(verify_hash(KEY, &pairs[0].1, &pairs[1].1).is_ok());

        let mut resolved = origin.join(reference).unwrap();
        assert_eq!(fragment, resolved.fragment());
        resolved.set_fragment(None);
        assert_eq!(pairs[0].1, resolved.as_str());
    }
}
