//! What the CSS scanner does to whole stylesheets, proved from its steps.

use vstd::prelude::*;
use crate::rewrite_css::{
    feed, feed_concat, flushed, initial, is_css_whitespace, rewritten_css, rewritten_payload, step, MatchState,
    RewriteCssError, Scan,
};

verus! {

/// The scanner after a list of chunks, read one after the other.
pub open spec fn feed_chunks(key: Seq<u8>, base: Seq<char>, s: Scan, chunks: Seq<Seq<u8>>) -> Result<Scan, RewriteCssError>
    decreases chunks.len(),
{
    if chunks.len() == 0 {
        Ok(s)
    } else {
        match feed_chunks(key, base, s, chunks.drop_last()) {
            Ok(before) => feed(key, base, before, chunks.last()),
            Err(e) => Err(e),
        }
    }
}

/// The chunks of a list, joined in their order.
pub open spec fn concatenated(chunks: Seq<Seq<u8>>) -> Seq<u8>
    decreases chunks.len(),
{
    if chunks.len() == 0 {
        Seq::empty()
    } else {
        concatenated(chunks.drop_last()) + chunks.last()
    }
}

/// However a stylesheet is cut into chunks, the scanner ends where it ends on
/// the stylesheet in one piece: same state, same output, same failure.
pub proof fn chunking_is_irrelevant(key: Seq<u8>, base: Seq<char>, s: Scan, chunks: Seq<Seq<u8>>)
    ensures
        feed_chunks(key, base, s, chunks) == feed(key, base, s, concatenated(chunks)),
    decreases chunks.len(),
{
    if chunks.len() > 0 {
        chunking_is_irrelevant(key, base, s, chunks.drop_last());
        feed_concat(key, base, s, concatenated(chunks.drop_last()), chunks.last());
    }
}

/// A scanner with `output` put before everything it has written.
pub open spec fn behind(output: Seq<u8>, s: Scan) -> Scan {
    Scan { output: output + s.output, ..s }
}

/// What a scanner has written plays no part in what it does next: with other
/// output before it, it takes the same steps and writes the same bytes.
pub proof fn output_is_only_written(key: Seq<u8>, base: Seq<char>, output: Seq<u8>, s: Scan, input: Seq<u8>)
    ensures
        feed(key, base, behind(output, s), input) == match feed(key, base, s, input) {
            Ok(after) => Ok(behind(output, after)),
            Err(e) => Err(e),
        },
    decreases input.len(),
{
    if input.len() > 0 {
        output_is_only_written(key, base, output, s, input.drop_last());
        match feed(key, base, s, input.drop_last()) {
            Ok(before) => {
                let b = input.last();
                match step(key, base, before, b) {
                    Ok(after) => {
                        let shifted = step(key, base, behind(output, before), b);
                        assert(shifted is Ok);
                        assert(shifted.unwrap().state == after.state);
                        assert(shifted.unwrap().payload =~= after.payload);
                        assert(shifted.unwrap().output =~= output + after.output);
                    },
                    Err(e) => {},
                }
            },
            Err(e) => {},
        }
    } else {
        assert(behind(output, s).output =~= output + s.output);
    }
}

/// A stylesheet can be cut wherever the scanner is outside a token: the
/// rewritten form of the whole is the rewritten form of the part before the cut
/// followed by that of the part behind it.
pub proof fn rewriting_composes(key: Seq<u8>, base: Seq<char>, first: Seq<u8>, second: Seq<u8>)
    requires
        feed(key, base, initial(), first) matches Ok(s) && s.state is Idle && s.payload == Seq::<u8>::empty(),
    ensures
        rewritten_css(key, base, first + second) == match (
            rewritten_css(key, base, first),
            rewritten_css(key, base, second),
        ) {
            (Ok(head), Ok(tail)) => Ok::<Seq<u8>, RewriteCssError>(head + tail),
            (Err(e), _) => Err(e),
            (_, Err(e)) => Err(e),
        },
{
    let middle = feed(key, base, initial(), first).unwrap();
    feed_concat(key, base, initial(), first, second);
    output_is_only_written(key, base, middle.output, initial(), second);
    assert(behind(middle.output, initial()) == middle) by {
        assert(middle.output + Seq::<u8>::empty() =~= middle.output);
    }
    assert(flushed(middle) =~= middle.output);
    match feed(key, base, initial(), second) {
        Ok(after) => {
            assert(flushed(behind(middle.output, after)) =~= middle.output + flushed(after));
        },
        Err(e) => {},
    }
}

/// Text without the letter `u` is rewritten to itself, and leaves the scanner
/// outside a token.
pub proof fn plain_text_is_kept(key: Seq<u8>, base: Seq<char>, bytes: Seq<u8>)
    requires
        without_u(bytes),
    ensures
        feed(key, base, initial(), bytes) == Ok::<Scan, RewriteCssError>(
            Scan { state: MatchState::Idle, payload: Seq::empty(), output: bytes },
        ),
        rewritten_css(key, base, bytes) == Ok::<Seq<u8>, RewriteCssError>(bytes),
{
    feed_plain(key, base, initial(), bytes);
    assert(Seq::<u8>::empty() + bytes =~= bytes);
    assert(bytes + Seq::<u8>::empty() =~= bytes);
}

/// No byte of `bytes` is the letter `u`.
pub open spec fn without_u(bytes: Seq<u8>) -> bool {
    forall|i: int| 0 <= i < bytes.len() ==> #[trigger] bytes[i] != 0x75
}

/// Every byte of `bytes` is whitespace.
pub open spec fn all_whitespace(bytes: Seq<u8>) -> bool {
    forall|i: int| 0 <= i < bytes.len() ==> is_css_whitespace(#[trigger] bytes[i])
}

/// No byte of `bytes` is `b`.
pub open spec fn without(bytes: Seq<u8>, b: u8) -> bool {
    forall|i: int| 0 <= i < bytes.len() ==> #[trigger] bytes[i] != b
}

/// Feeding one byte is one step.
proof fn feed_one(key: Seq<u8>, base: Seq<char>, s: Scan, b: u8)
    ensures
        feed(key, base, s, seq![b]) == step(key, base, s, b),
{
    assert(seq![b].drop_last() =~= Seq::<u8>::empty());
    assert(feed(key, base, s, Seq::<u8>::empty()) == Ok::<Scan, RewriteCssError>(s));
}

/// Outside a token, text without the letter `u` is copied.
proof fn feed_plain(key: Seq<u8>, base: Seq<char>, s: Scan, bytes: Seq<u8>)
    requires
        s.state is Idle,
        s.payload == Seq::<u8>::empty(),
        without_u(bytes),
    ensures
        feed(key, base, s, bytes) == Ok::<Scan, RewriteCssError>(
            Scan { state: MatchState::Idle, payload: Seq::empty(), output: s.output + bytes },
        ),
    decreases bytes.len(),
{
    if bytes.len() == 0 {
        assert(s.output + bytes =~= s.output);
    } else {
        let head = bytes.drop_last();
        assert(without_u(head)) by {
            assert forall|i: int| 0 <= i < head.len() implies #[trigger] head[i] != 0x75 by {
                assert(head[i] == bytes[i]);
            }
        }
        feed_plain(key, base, s, head);
        assert(bytes.last() == bytes[bytes.len() - 1]);
        assert((s.output + head).push(bytes.last()) =~= s.output + bytes);
    }
}

/// Whitespace before the opening and before the closing bracket is dropped.
proof fn feed_skipped(key: Seq<u8>, base: Seq<char>, s: Scan, bytes: Seq<u8>)
    requires
        s.state is L || s.state is ClosingBracket,
        all_whitespace(bytes),
    ensures
        feed(key, base, s, bytes) == Ok::<Scan, RewriteCssError>(s),
    decreases bytes.len(),
{
    if bytes.len() > 0 {
        let head = bytes.drop_last();
        assert(all_whitespace(head)) by {
            assert forall|i: int| 0 <= i < head.len() implies is_css_whitespace(#[trigger] head[i]) by {
                assert(head[i] == bytes[i]);
            }
        }
        feed_skipped(key, base, s, head);
        assert(is_css_whitespace(bytes[bytes.len() - 1]));
    }
}

/// Between the brackets, bytes that end nothing are kept for the URL.
proof fn feed_collected(key: Seq<u8>, base: Seq<char>, s: Scan, bytes: Seq<u8>)
    requires
        without(bytes, 0x29),
        match s.state {
            MatchState::OpeningBracket => without(bytes, 0x22) && without(bytes, 0x27),
            MatchState::Quote(q) => without(bytes, q),
            _ => false,
        },
    ensures
        feed(key, base, s, bytes) == Ok::<Scan, RewriteCssError>(Scan { payload: s.payload + bytes, ..s }),
    decreases bytes.len(),
{
    if bytes.len() == 0 {
        assert(s.payload + bytes =~= s.payload);
    } else {
        let head = bytes.drop_last();
        let last = bytes[bytes.len() - 1];
        assert forall|b: u8| without(bytes, b) implies without(head, b) by {
            assert forall|i: int| 0 <= i < head.len() implies #[trigger] head[i] != b by {
                assert(head[i] == bytes[i]);
            }
        }
        feed_collected(key, base, s, head);
        assert((s.payload + head).push(last) =~= s.payload + bytes);
    }
}

/// One more byte after `input`.
proof fn then_byte(key: Seq<u8>, base: Seq<char>, input: Seq<u8>, s: Scan, b: u8)
    requires
        feed(key, base, initial(), input) == Ok::<Scan, RewriteCssError>(s),
    ensures
        feed(key, base, initial(), input + seq![b]) == step(key, base, s, b),
{
    feed_one(key, base, s, b);
    feed_concat(key, base, initial(), input, seq![b]);
}

/// Plain text after `input`.
proof fn then_plain(key: Seq<u8>, base: Seq<char>, input: Seq<u8>, s: Scan, bytes: Seq<u8>)
    requires
        feed(key, base, initial(), input) == Ok::<Scan, RewriteCssError>(s),
        s.state is Idle,
        s.payload == Seq::<u8>::empty(),
        without_u(bytes),
    ensures
        feed(key, base, initial(), input + bytes) == Ok::<Scan, RewriteCssError>(
            Scan { state: MatchState::Idle, payload: Seq::empty(), output: s.output + bytes },
        ),
{
    feed_plain(key, base, s, bytes);
    feed_concat(key, base, initial(), input, bytes);
}

/// Dropped whitespace after `input`.
proof fn then_skipped(key: Seq<u8>, base: Seq<char>, input: Seq<u8>, s: Scan, bytes: Seq<u8>)
    requires
        feed(key, base, initial(), input) == Ok::<Scan, RewriteCssError>(s),
        s.state is L || s.state is ClosingBracket,
        all_whitespace(bytes),
    ensures
        feed(key, base, initial(), input + bytes) == Ok::<Scan, RewriteCssError>(s),
{
    feed_skipped(key, base, s, bytes);
    feed_concat(key, base, initial(), input, bytes);
}

/// Bytes of the URL after `input`.
proof fn then_collected(key: Seq<u8>, base: Seq<char>, input: Seq<u8>, s: Scan, bytes: Seq<u8>)
    requires
        feed(key, base, initial(), input) == Ok::<Scan, RewriteCssError>(s),
        without(bytes, 0x29),
        match s.state {
            MatchState::OpeningBracket => without(bytes, 0x22) && without(bytes, 0x27),
            MatchState::Quote(q) => without(bytes, q),
            _ => false,
        },
    ensures
        feed(key, base, initial(), input + bytes) == Ok::<Scan, RewriteCssError>(
            Scan { payload: s.payload + bytes, ..s },
        ),
{
    feed_collected(key, base, s, bytes);
    feed_concat(key, base, initial(), input, bytes);
}

/// A failure stays a failure, whatever follows.
proof fn then_failed(key: Seq<u8>, base: Seq<char>, input: Seq<u8>, e: RewriteCssError, bytes: Seq<u8>)
    requires
        feed(key, base, initial(), input) == Err::<Scan, RewriteCssError>(e),
    ensures
        feed(key, base, initial(), input + bytes) == Err::<Scan, RewriteCssError>(e),
{
    feed_concat(key, base, initial(), input, bytes);
}

/// The scanner behind the opening bracket of a token that follows plain text.
proof fn opened(key: Seq<u8>, base: Seq<char>, prefix: Seq<u8>, gap: Seq<u8>)
    requires
        without_u(prefix),
        all_whitespace(gap),
    ensures
        feed(key, base, initial(), prefix + seq![0x75u8, 0x72u8, 0x6Cu8] + gap + seq![0x28u8]) == Ok::<
            Scan,
            RewriteCssError,
        >(
            Scan {
                state: MatchState::OpeningBracket,
                payload: Seq::empty(),
                output: prefix + seq![0x75u8, 0x72u8, 0x6Cu8, 0x28u8],
            },
        ),
{
    let s0 = Scan { state: MatchState::Idle, payload: Seq::empty(), output: prefix };
    assert(feed(key, base, initial(), prefix) == Ok::<Scan, RewriteCssError>(s0)) by {
        feed_plain(key, base, initial(), prefix);
        assert(Seq::<u8>::empty() + prefix =~= prefix);
    }
    let su = Scan { state: MatchState::U, payload: Seq::empty(), output: prefix.push(0x75u8) };
    then_byte(key, base, prefix, s0, 0x75u8);
    let sr = Scan { state: MatchState::R, payload: Seq::empty(), output: prefix.push(0x75u8).push(0x72u8) };
    then_byte(key, base, prefix + seq![0x75u8], su, 0x72u8);
    let sl = Scan { state: MatchState::L, payload: Seq::empty(), output: prefix.push(0x75u8).push(0x72u8).push(0x6Cu8) };
    then_byte(key, base, prefix + seq![0x75u8] + seq![0x72u8], sr, 0x6Cu8);
    let letters = prefix + seq![0x75u8, 0x72u8, 0x6Cu8];
    assert(prefix + seq![0x75u8] + seq![0x72u8] + seq![0x6Cu8] =~= letters);
    then_skipped(key, base, letters, sl, gap);
    then_byte(key, base, letters + gap, sl, 0x28u8);
    assert(sl.output.push(0x28u8) =~= prefix + seq![0x75u8, 0x72u8, 0x6Cu8, 0x28u8]);
}

/// The end of a token whose URL has been read, and the plain text after it.
proof fn finished(
    key: Seq<u8>,
    base: Seq<char>,
    input: Seq<u8>,
    s: Scan,
    url: Seq<u8>,
    suffix: Seq<u8>,
)
    requires
        feed(key, base, initial(), input) == Ok::<Scan, RewriteCssError>(s),
        s.state is OpeningBracket || s.state is ClosingBracket,
        s.state is OpeningBracket ==> s.payload == url,
        without_u(suffix),
    ensures
        rewritten_css(key, base, input + seq![0x29u8] + suffix) == (if s.state is ClosingBracket {
            Ok::<Seq<u8>, RewriteCssError>(s.output + seq![0x29u8] + suffix)
        } else {
            match rewritten_payload(key, base, url) {
                Ok(proxy) => Ok::<Seq<u8>, RewriteCssError>(s.output + proxy + seq![0x29u8] + suffix),
                Err(e) => Err(e),
            }
        }),
{
    then_byte(key, base, input, s, 0x29u8);
    match step(key, base, s, 0x29u8) {
        Ok(after) => {
            then_plain(key, base, input + seq![0x29u8], after, suffix);
            let end = Scan { state: MatchState::Idle, payload: Seq::empty(), output: after.output + suffix };
            if s.state is ClosingBracket {
                assert(flushed(end) =~= s.output + seq![0x29u8] + suffix);
            } else {
                let proxy = rewritten_payload(key, base, url).unwrap();
                assert(flushed(end) =~= s.output + proxy + seq![0x29u8] + suffix);
            }
        },
        Err(e) => {
            then_failed(key, base, input + seq![0x29u8], e, suffix);
        },
    }
}

/// A token in quotes, alone in a stylesheet whose other text holds no letter
/// `u`: the stylesheet comes out with the URL between the quotes replaced by its
/// proxy URL, and without the whitespace that stood around the brackets and
/// quotes. It fails exactly where the URL cannot be rewritten.
pub proof fn single_quoted_token(
    key: Seq<u8>,
    base: Seq<char>,
    prefix: Seq<u8>,
    gap_before_bracket: Seq<u8>,
    gap_before_quote: Seq<u8>,
    quote: u8,
    url: Seq<u8>,
    gap_after_quote: Seq<u8>,
    suffix: Seq<u8>,
)
    requires
        without_u(prefix),
        without_u(suffix),
        all_whitespace(gap_before_bracket),
        all_whitespace(gap_before_quote),
        all_whitespace(gap_after_quote),
        quote == 0x22 || quote == 0x27,
        without(url, quote),
        without(url, 0x29),
    ensures
        rewritten_css(
            key,
            base,
            prefix + seq![0x75u8, 0x72u8, 0x6Cu8] + gap_before_bracket + seq![0x28u8] + gap_before_quote + seq![quote]
                + url + seq![quote] + gap_after_quote + seq![0x29u8] + suffix,
        ) == match rewritten_payload(key, base, url) {
            Ok(proxy) => Ok::<Seq<u8>, RewriteCssError>(
                prefix + seq![0x75u8, 0x72u8, 0x6Cu8, 0x28u8, quote] + proxy + seq![quote, 0x29u8] + suffix,
            ),
            Err(e) => Err(e),
        },
{
    let i3 = prefix + seq![0x75u8, 0x72u8, 0x6Cu8] + gap_before_bracket + seq![0x28u8];
    let s3 = Scan {
        state: MatchState::OpeningBracket,
        payload: Seq::empty(),
        output: prefix + seq![0x75u8, 0x72u8, 0x6Cu8, 0x28u8],
    };
    opened(key, base, prefix, gap_before_bracket);
    let s4 = Scan { payload: gap_before_quote, ..s3 };
    assert(feed(key, base, initial(), i3 + gap_before_quote) == Ok::<Scan, RewriteCssError>(s4)) by {
        assert forall|i: int| 0 <= i < gap_before_quote.len() implies {
            &&& #[trigger] gap_before_quote[i] != 0x29
            &&& gap_before_quote[i] != 0x22
            &&& gap_before_quote[i] != 0x27
        } by {
            assert(is_css_whitespace(gap_before_quote[i]));
        }
        then_collected(key, base, i3, s3, gap_before_quote);
        assert(Seq::<u8>::empty() + gap_before_quote =~= gap_before_quote);
    }
    let i5 = i3 + gap_before_quote + seq![quote];
    let s5 = Scan { state: MatchState::Quote(quote), payload: Seq::empty(), output: s3.output.push(quote) };
    assert(feed(key, base, initial(), i5) == Ok::<Scan, RewriteCssError>(s5)) by {
        then_byte(key, base, i3 + gap_before_quote, s4, quote);
    }
    let s6 = Scan { payload: url, ..s5 };
    assert(feed(key, base, initial(), i5 + url) == Ok::<Scan, RewriteCssError>(s6)) by {
        then_collected(key, base, i5, s5, url);
        assert(Seq::<u8>::empty() + url =~= url);
    }
    let i7 = i5 + url + seq![quote];
    then_byte(key, base, i5 + url, s6, quote);
    match rewritten_payload(key, base, url) {
        Err(e) => {
            then_failed(key, base, i7, e, gap_after_quote);
            then_failed(key, base, i7 + gap_after_quote, e, seq![0x29u8]);
            then_failed(key, base, i7 + gap_after_quote + seq![0x29u8], e, suffix);
        },
        Ok(proxy) => {
            let s7 = Scan {
                state: MatchState::ClosingBracket,
                payload: Seq::empty(),
                output: s5.output + proxy + seq![quote],
            };
            assert(feed(key, base, initial(), i7) == Ok::<Scan, RewriteCssError>(s7));
            then_skipped(key, base, i7, s7, gap_after_quote);
            finished(key, base, i7 + gap_after_quote, s7, url, suffix);
            assert(s7.output + seq![0x29u8] + suffix =~= prefix + seq![0x75u8, 0x72u8, 0x6Cu8, 0x28u8, quote] + proxy
                + seq![quote, 0x29u8] + suffix);
        },
    }
}

/// A token without quotes, alone in a stylesheet whose other text holds no
/// letter `u`: the stylesheet comes out with everything between the brackets
/// replaced by its proxy URL, and without the whitespace that stood before the
/// opening bracket. It fails exactly where the URL cannot be rewritten.
pub proof fn single_bare_token(
    key: Seq<u8>,
    base: Seq<char>,
    prefix: Seq<u8>,
    gap_before_bracket: Seq<u8>,
    url: Seq<u8>,
    suffix: Seq<u8>,
)
    requires
        without_u(prefix),
        without_u(suffix),
        all_whitespace(gap_before_bracket),
        without(url, 0x22),
        without(url, 0x27),
        without(url, 0x29),
    ensures
        rewritten_css(
            key,
            base,
            prefix + seq![0x75u8, 0x72u8, 0x6Cu8] + gap_before_bracket + seq![0x28u8] + url + seq![0x29u8] + suffix,
        ) == match rewritten_payload(key, base, url) {
            Ok(proxy) => Ok::<Seq<u8>, RewriteCssError>(
                prefix + seq![0x75u8, 0x72u8, 0x6Cu8, 0x28u8] + proxy + seq![0x29u8] + suffix,
            ),
            Err(e) => Err(e),
        },
{
    let i3 = prefix + seq![0x75u8, 0x72u8, 0x6Cu8] + gap_before_bracket + seq![0x28u8];
    let s3 = Scan {
        state: MatchState::OpeningBracket,
        payload: Seq::empty(),
        output: prefix + seq![0x75u8, 0x72u8, 0x6Cu8, 0x28u8],
    };
    opened(key, base, prefix, gap_before_bracket);
    let s4 = Scan { payload: url, ..s3 };
    assert(feed(key, base, initial(), i3 + url) == Ok::<Scan, RewriteCssError>(s4)) by {
        then_collected(key, base, i3, s3, url);
        assert(Seq::<u8>::empty() + url =~= url);
    }
    finished(key, base, i3 + url, s4, url, suffix);
}

} // verus!
