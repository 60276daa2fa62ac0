use std::rc::Rc;

use searproxy::rewrite_css::{CssRewrite, MatchState, RewriteCssError};

#[test]
fn no_quotes_relative_n_1() {
    let mut rewriter =
        CssRewrite::new(b"example".to_vec(), Rc::new(url::Url::parse("https://www.example.com").unwrap()));

    rewriter.write(b"url(main.css)").unwrap();

    assert_eq!(std::str::from_utf8( rewriter.end().unwrap().as_slice()).unwrap(),"url(./?url=https%3A%2F%2Fwww.example.com%2Fmain.css&hash=7d40cd69599262cfe009ac148491a37e9ec47dcf2386c2807bc2255fff6d5fa3)");
}

#[test]
fn single_quotes_relative_n_1() {
    let mut rewriter =
        CssRewrite::new(b"example".to_vec(), Rc::new(url::Url::parse("https://www.example.com").unwrap()));

    rewriter.write(b"url('main.css')").unwrap();

    assert_eq!(std::str::from_utf8( rewriter.end().unwrap().as_slice()).unwrap(),"url('./?url=https%3A%2F%2Fwww.example.com%2Fmain.css&hash=7d40cd69599262cfe009ac148491a37e9ec47dcf2386c2807bc2255fff6d5fa3')");
}

#[test]
fn double_quotes_relative_n_1() {
    let mut rewriter =
        CssRewrite::new(b"example".to_vec(), Rc::new(url::Url::parse("https://www.example.com").unwrap()));

    rewriter.write(b"url(\"main.css\")").unwrap();

    assert_eq!(std::str::from_utf8( rewriter.end().unwrap().as_slice()).unwrap(),"url(\"./?url=https%3A%2F%2Fwww.example.com%2Fmain.css&hash=7d40cd69599262cfe009ac148491a37e9ec47dcf2386c2807bc2255fff6d5fa3\")");
}

#[test]
fn no_quotes_relative_n_5() {
    let mut rewriter =
        CssRewrite::new(b"example".to_vec(), Rc::new(url::Url::parse("https://www.example.com").unwrap()));

    rewriter
        .write("url(main.css)".repeat(5).as_bytes())
        .unwrap();

    assert_eq!(std::str::from_utf8( rewriter.end().unwrap().as_slice()).unwrap(),"url(./?url=https%3A%2F%2Fwww.example.com%2Fmain.css&hash=7d40cd69599262cfe009ac148491a37e9ec47dcf2386c2807bc2255fff6d5fa3)".repeat(5));
}

#[test]
fn single_quotes_relative_n_5() {
    let mut rewriter =
        CssRewrite::new(b"example".to_vec(), Rc::new(url::Url::parse("https://www.example.com").unwrap()));

    rewriter
        .write("url('main.css')".repeat(5).as_bytes())
        .unwrap();

    assert_eq!(std::str::from_utf8( rewriter.end().unwrap().as_slice()).unwrap(),"url('./?url=https%3A%2F%2Fwww.example.com%2Fmain.css&hash=7d40cd69599262cfe009ac148491a37e9ec47dcf2386c2807bc2255fff6d5fa3')".repeat(5));
}

#[test]
fn double_quotes_relative_n_5() {
    let mut rewriter =
        CssRewrite::new(b"example".to_vec(), Rc::new(url::Url::parse("https://www.example.com").unwrap()));

    rewriter
        .write("url(\"main.css\")".repeat(5).as_bytes())
        .unwrap();

    assert_eq!(std::str::from_utf8( rewriter.end().unwrap().as_slice()).unwrap(),"url(\"./?url=https%3A%2F%2Fwww.example.com%2Fmain.css&hash=7d40cd69599262cfe009ac148491a37e9ec47dcf2386c2807bc2255fff6d5fa3\")".repeat(5));
}

#[test]
fn chunked_single_quote_n_1() {
    let mut rewriter =
        CssRewrite::new(b"example".to_vec(), Rc::new(url::Url::parse("https://www.example.com").unwrap()));

    rewriter.write(b" ".repeat(2048).as_slice()).unwrap();
    rewriter.write(b"ur").unwrap();
    rewriter.write(b"l ( ").unwrap();
    rewriter.write(b" ".repeat(2048).as_slice()).unwrap();
    rewriter.write(b"'").unwrap();
    rewriter.write(b"https://www.").unwrap();
    rewriter.write(b"example.com").unwrap();
    rewriter.write(b"/main.css'").unwrap();
    rewriter.write(b"  ) ").unwrap();
    rewriter.write(b" ".repeat(2048).as_slice()).unwrap();

    assert!(std::str::from_utf8( rewriter.end().unwrap().as_slice()).unwrap().contains("url('./?url=https%3A%2F%2Fwww.example.com%2Fmain.css&hash=7d40cd69599262cfe009ac148491a37e9ec47dcf2386c2807bc2255fff6d5fa3')"));
}

#[test]
fn simple_single_quote_n_1() {
    let mut rewriter =
        CssRewrite::new(b"example".to_vec(), Rc::new(url::Url::parse("https://www.example.com").unwrap()));

    rewriter
        .write(b"url('https://www.example.com/main.css')")
        .unwrap();

    assert_eq!(std::str::from_utf8( rewriter.end().unwrap().as_slice()).unwrap(), "url('./?url=https%3A%2F%2Fwww.example.com%2Fmain.css&hash=7d40cd69599262cfe009ac148491a37e9ec47dcf2386c2807bc2255fff6d5fa3')");
}

#[test]
fn chunked_double_quote_n_1() {
    let mut rewriter =
        CssRewrite::new(b"example".to_vec(), Rc::new(url::Url::parse("https://www.example.com").unwrap()));

    rewriter.write(b" ".repeat(2048).as_slice()).unwrap();
    rewriter.write(b"ur").unwrap();
    rewriter.write(b"l ( ").unwrap();
    rewriter.write(b" ".repeat(2048).as_slice()).unwrap();
    rewriter.write(b"\"").unwrap();
    rewriter.write(b"https://www.").unwrap();
    rewriter.write(b"example.com").unwrap();
    rewriter.write(b"/main.css\"").unwrap();
    rewriter.write(b"  ) ").unwrap();
    rewriter.write(b" ".repeat(2048).as_slice()).unwrap();

    assert!(std::str::from_utf8( rewriter.end().unwrap().as_slice()).unwrap().contains("url(\"./?url=https%3A%2F%2Fwww.example.com%2Fmain.css&hash=7d40cd69599262cfe009ac148491a37e9ec47dcf2386c2807bc2255fff6d5fa3\")"));
}

#[test]
fn simple_double_quote_n_1() {
    let mut rewriter =
        CssRewrite::new(b"example".to_vec(), Rc::new(url::Url::parse("https://www.example.com").unwrap()));

    rewriter
        .write(b"url(\"https://www.example.com/main.css\")")
        .unwrap();

    assert_eq!(std::str::from_utf8( rewriter.end().unwrap().as_slice()).unwrap(), "url(\"./?url=https%3A%2F%2Fwww.example.com%2Fmain.css&hash=7d40cd69599262cfe009ac148491a37e9ec47dcf2386c2807bc2255fff6d5fa3\")");
}

#[test]
fn chunked_no_quotes_n_1() {
    let mut rewriter =
        CssRewrite::new(b"example".to_vec(), Rc::new(url::Url::parse("https://www.example.com").unwrap()));

    rewriter.write(b" ".repeat(2048).as_slice()).unwrap();
    rewriter.write(b"ur").unwrap();
    rewriter.write(b"l (").unwrap();
    rewriter.write(b"https://www.").unwrap();
    rewriter.write(b"example.com").unwrap();
    rewriter.write(b"/main.css").unwrap();
    rewriter.write(b") ").unwrap();
    rewriter.write(b" ".repeat(2048).as_slice()).unwrap();

    assert!(std::str::from_utf8( rewriter.end().unwrap().as_slice()).unwrap().contains("url(./?url=https%3A%2F%2Fwww.example.com%2Fmain.css&hash=7d40cd69599262cfe009ac148491a37e9ec47dcf2386c2807bc2255fff6d5fa3)"));
}

#[test]
fn simple_no_quotes_n_1() {
    let mut rewriter =
        CssRewrite::new(b"example".to_vec(), Rc::new(url::Url::parse("https://www.example.com").unwrap()));

    rewriter
        .write(b"url(https://www.example.com/main.css)")
        .unwrap();

    assert_eq!(std::str::from_utf8( rewriter.end().unwrap().as_slice()).unwrap(), "url(./?url=https%3A%2F%2Fwww.example.com%2Fmain.css&hash=7d40cd69599262cfe009ac148491a37e9ec47dcf2386c2807bc2255fff6d5fa3)");
}

fn rewrite_in_chunks(chunks: &[&[u8]]) -> String {
    let mut rewriter =
        CssRewrite::new(b"example".to_vec(), Rc::new(url::Url::parse("https://www.example.com").unwrap()));
    for chunk in chunks {
        rewriter.write(chunk).unwrap();
    }
    String::from_utf8(rewriter.end().unwrap()).unwrap()
}

const MAIN_CSS: &str = "./?url=https%3A%2F%2Fwww.example.com%2Fmain.css&hash=7d40cd69599262cfe009ac148491a37e9ec47dcf2386c2807bc2255fff6d5fa3";

#[test]
fn every_cut_of_a_style_sheet_gives_the_same_output() {
    let input: &[u8] = b"a{x:url( 'main.css' )}b{y:url(main.css)} url  (\"main.css\") curl u ur url";
    let whole = rewrite_in_chunks(&[input]);
    for cut in 0..=input.len() {
        assert_eq!(rewrite_in_chunks(&[&input[..cut], &input[cut..]]), whole);
    }
    for first in 0..input.len() {
        let second = (first + 7).min(input.len());
        assert_eq!(rewrite_in_chunks(&[&input[..first], &input[first..second], &input[second..]]), whole);
    }
    let bytes: Vec<&[u8]> = input.chunks(1).collect();
    assert_eq!(rewrite_in_chunks(&bytes), whole);
}

#[test]
fn text_around_a_single_token_is_kept() {
    assert_eq!(
        rewrite_in_chunks(&[b"a { b: url(\"main.css\") no-repeat; }\n"]),
        format!("a {{ b: url(\"{}\") no-repeat; }}\n", MAIN_CSS)
    );
    assert_eq!(rewrite_in_chunks(&[b"@import url(main.css);"]), format!("@import url({});", MAIN_CSS));
}

#[test]
fn whitespace_around_brackets_and_quotes_is_dropped() {
    assert_eq!(rewrite_in_chunks(&[b"url \t(\n'main.css'\r )"]), format!("url('{}')", MAIN_CSS));
    assert_eq!(rewrite_in_chunks(&[b"x url  (main.css)"]), format!("x url({})", MAIN_CSS));
}

#[test]
fn whitespace_behind_the_letters_is_dropped_even_without_a_bracket() {
    assert_eq!(rewrite_in_chunks(&[b"curl .a{}"]), "curl.a{}");
}

#[test]
fn unfinished_token_stays_as_it_was_read() {
    assert_eq!(rewrite_in_chunks(&[b"a url(abc"]), "a url(abc");
    assert_eq!(rewrite_in_chunks(&[b"url('x y"]), "url('x y");
    assert_eq!(rewrite_in_chunks(&[b"ur"]), "ur");
    assert_eq!(rewrite_in_chunks(&[b"url"]), "url");
    assert_eq!(rewrite_in_chunks(&[b""]), "");
}

#[test]
fn token_in_upper_case_is_not_seen() {
    assert_eq!(rewrite_in_chunks(&[b"URL(main.css) Url(main.css)"]), "URL(main.css) Url(main.css)");
}

#[test]
fn letters_that_start_no_token_are_copied() {
    assert_eq!(rewrite_in_chunks(&[b"uurl(main.css) urn ur1 u"]), "uurl(main.css) urn ur1 u");
}

#[test]
fn bracket_ends_a_quoted_url_too() {
    assert_eq!(rewrite_in_chunks(&[b"url('main.css)"]), format!("url('{})", MAIN_CSS));
}

#[test]
fn data_urls_in_style_sheets() {
    assert_eq!(
        rewrite_in_chunks(&[b"url(data:image/png;base64,AAAA)"]),
        "url(data:image/png;base64,AAAA)"
    );
    assert_eq!(rewrite_in_chunks(&[b"url(data:text/html,x)"]), "url()");
    assert_eq!(rewrite_in_chunks(&[b"url(#top)"]), "url(#top)");
}

#[test]
fn url_that_is_not_utf8_fails() {
    let mut rewriter =
        CssRewrite::new(b"example".to_vec(), Rc::new(url::Url::parse("https://www.example.com").unwrap()));
    assert!(rewriter.write(b"a url(\xc3").is_ok());
    assert!(matches!(rewriter.write(b"\x28)"), Err(RewriteCssError::DecodeFailed)));
}

#[test]
fn url_that_cannot_be_resolved_fails() {
    let mut rewriter =
        CssRewrite::new(b"example".to_vec(), Rc::new(url::Url::parse("https://www.example.com").unwrap()));
    assert!(matches!(
        rewriter.write(b"url('https://[::1')"),
        Err(RewriteCssError::UrlRewrite(_))
    ));
}

#[test]
fn match_state_walks_through_a_token() {
    let mut state = MatchState::Idle;
    assert!(!state.inside_brackets() && !state.whitespace_allowed());
    state.next();
    assert_eq!(state, MatchState::U);
    state.next();
    assert_eq!(state, MatchState::R);
    assert!(!state.whitespace_allowed());
    state.next();
    assert_eq!(state, MatchState::L);
    assert!(!state.inside_brackets() && state.whitespace_allowed());
    state.next();
    assert_eq!(state, MatchState::OpeningBracket);
    assert!(state.inside_brackets() && state.whitespace_allowed());
    state.next();
    assert_eq!(state, MatchState::ClosingBracket);
    assert!(state.inside_brackets() && state.whitespace_allowed());
    state.next();
    assert_eq!(state, MatchState::Idle);

    let mut quoted = MatchState::Quote(b'"');
    assert!(quoted.inside_brackets() && quoted.whitespace_allowed());
    quoted.next();
    assert_eq!(quoted, MatchState::ClosingBracket);
    quoted.reset();
    assert_eq!(quoted, MatchState::Idle);
}

#[test]
fn rewriter_that_has_failed_keeps_what_it_wrote_before_the_token_ended() {
    let mut rewriter =
        CssRewrite::new(b"example".to_vec(), Rc::new(url::Url::parse("https://www.example.com").unwrap()));
    assert!(rewriter.write(b"ab url('main.css') cd url(").is_ok());
    assert!(matches!(rewriter.write(b"\xff) ef"), Err(RewriteCssError::DecodeFailed)));
    assert!(rewriter.is_settled());
    assert_eq!(
        String::from_utf8(rewriter.end().unwrap()).unwrap(),
        format!("ab url('{}') cd url(", MAIN_CSS)
    );
}
