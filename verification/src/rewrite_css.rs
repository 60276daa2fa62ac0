//! Streaming rewriter for `url(...)` tokens in CSS.
//!
//! The scanner reads bytes, not CSS: it looks for the letters `url`, an opening
//! bracket, an optional quote, and hands what stands before the closing quote
//! or bracket to [`rewrite_url`]. Everything else is copied.

use std::rc::Rc;
use vstd::prelude::*;
use vstd::slice::slice_subrange;
use vstd::utf8::{decode_utf8, encode_utf8, encode_utf8_decode_utf8, valid_utf8};
use crate::rewrite_url::{rewrite_url, rewritten_url, serialization, RewriteUrlError};
use crate::text::from_utf8;

verus! {

/// Why a stylesheet could not be rewritten.
#[derive(Debug)]
pub enum RewriteCssError {
    /// The input ends inside a `url(...)` token.
    Incomplete,
    /// What stands between the brackets is not UTF-8.
    DecodeFailed,
    /// What stands between the brackets cannot be made a proxy URL.
    UrlRewrite(RewriteUrlError),
}

/// Progress of the scanner through one `url(...)` token.
#[derive(Debug, Clone, Copy, PartialEq, Eq, Structural)]
pub enum MatchState {
    Idle,
    U,
    R,
    L,
    OpeningBracket,
    Quote(u8),
    ClosingBracket,
}

impl MatchState {
    /// The state that follows `self` when the expected byte was read.
    pub open spec fn successor(self) -> MatchState {
        match self {
            MatchState::Idle => MatchState::U,
            MatchState::U => MatchState::R,
            MatchState::R => MatchState::L,
            MatchState::L => MatchState::OpeningBracket,
            MatchState::OpeningBracket | MatchState::Quote(_) => MatchState::ClosingBracket,
            MatchState::ClosingBracket => MatchState::Idle,
        }
    }

    /// Whether the scanner is past the opening bracket of a token.
    pub open spec fn spec_inside_brackets(&self) -> bool {
        *self is OpeningBracket || *self is Quote || *self is ClosingBracket
    }

    /// Whether whitespace is skipped in this state instead of ending the match.
    pub open spec fn spec_whitespace_allowed(&self) -> bool {
        *self is L || self.spec_inside_brackets()
    }

    /// Whether the bytes read in this state belong to the URL of the token.
    pub open spec fn collecting(&self) -> bool {
        *self is OpeningBracket || *self is Quote
    }

    /// Advances to the next state of the token.
    pub fn next(&mut self)
        ensures
            *final(self) == old(self).successor(),
    {
        *self = match *self {
            MatchState::Idle => MatchState::U,
            MatchState::U => MatchState::R,
            MatchState::R => MatchState::L,
            MatchState::L => MatchState::OpeningBracket,
            MatchState::OpeningBracket | MatchState::Quote(_) => MatchState::ClosingBracket,
            MatchState::ClosingBracket => MatchState::Idle,
        };
    }

    /// Abandons the current match.
    pub fn reset(&mut self)
        ensures
            *final(self) == MatchState::Idle,
    {
        *self = MatchState::Idle;
    }

    /// Whether the scanner is past the opening bracket of a token.
    #[verifier::when_used_as_spec(spec_inside_brackets)]
    pub fn inside_brackets(&self) -> (inside: bool)
        ensures
            inside == self.spec_inside_brackets(),
    {
        matches!(self, MatchState::OpeningBracket | MatchState::Quote(_) | MatchState::ClosingBracket)
    }

    /// Whether whitespace is skipped in this state instead of ending the match.
    #[verifier::when_used_as_spec(spec_whitespace_allowed)]
    pub fn whitespace_allowed(&self) -> (allowed: bool)
        ensures
            allowed == self.spec_whitespace_allowed(),
    {
        matches!(
            self,
            MatchState::L | MatchState::OpeningBracket | MatchState::Quote(_) | MatchState::ClosingBracket
        )
    }
}

/// The scanner as a value: where it stands in a token, the bytes of the URL
/// read so far, and everything written so far.
pub struct Scan {
    pub state: MatchState,
    pub payload: Seq<u8>,
    pub output: Seq<u8>,
}

/// The scanner before the first byte.
pub open spec fn initial() -> Scan {
    Scan { state: MatchState::Idle, payload: Seq::empty(), output: Seq::empty() }
}

/// Space, line feed, carriage return and tab.
pub open spec fn is_css_whitespace(b: u8) -> bool {
    b == 0x20 || b == 0x0A || b == 0x0D || b == 0x09
}

/// What replaces the bytes between the brackets of a token.
pub open spec fn rewritten_payload(key: Seq<u8>, base: Seq<char>, payload: Seq<u8>) -> Result<Seq<u8>, RewriteCssError> {
    if !valid_utf8(payload) {
        Err(RewriteCssError::DecodeFailed)
    } else {
        match rewritten_url(key, base, decode_utf8(payload)) {
            Ok(url) => Ok(encode_utf8(url)),
            Err(e) => Err(RewriteCssError::UrlRewrite(e)),
        }
    }
}

/// The scanner after the byte that ends the URL of a token: the rewritten URL
/// and the byte itself are written.
pub open spec fn ended(key: Seq<u8>, base: Seq<char>, s: Scan, b: u8, next_state: MatchState) -> Result<Scan, RewriteCssError> {
    match rewritten_payload(key, base, s.payload) {
        Ok(url) => Ok(Scan { state: next_state, payload: Seq::empty(), output: s.output + url + seq![b] }),
        Err(e) => Err(e),
    }
}

/// The scanner after a byte that is copied.
pub open spec fn copied(s: Scan, b: u8, next_state: MatchState) -> Scan {
    Scan { state: next_state, payload: Seq::empty(), output: s.output.push(b) }
}

/// The scanner after one more byte.
pub open spec fn step(key: Seq<u8>, base: Seq<char>, s: Scan, b: u8) -> Result<Scan, RewriteCssError> {
    match s.state {
        MatchState::Idle => Ok(copied(s, b, if b == 0x75 { MatchState::U } else { MatchState::Idle })),
        MatchState::U => Ok(copied(s, b, if b == 0x72 { MatchState::R } else { MatchState::Idle })),
        MatchState::R => Ok(copied(s, b, if b == 0x6C { MatchState::L } else { MatchState::Idle })),
        MatchState::L => if b == 0x28 {
            Ok(copied(s, b, MatchState::OpeningBracket))
        } else if is_css_whitespace(b) {
            Ok(s)
        } else {
            Ok(copied(s, b, MatchState::Idle))
        },
        MatchState::OpeningBracket => if b == 0x22 || b == 0x27 {
            Ok(copied(s, b, MatchState::Quote(b)))
        } else if b == 0x29 {
            ended(key, base, s, b, MatchState::Idle)
        } else {
            Ok(Scan { payload: s.payload.push(b), ..s })
        },
        MatchState::Quote(q) => if b == q {
            ended(key, base, s, b, MatchState::ClosingBracket)
        } else if b == 0x29 {
            ended(key, base, s, b, MatchState::Idle)
        } else {
            Ok(Scan { payload: s.payload.push(b), ..s })
        },
        MatchState::ClosingBracket => if b == 0x29 {
            Ok(copied(s, b, MatchState::Idle))
        } else {
            Ok(s)
        },
    }
}

/// The scanner after a run of bytes, or the first failure on the way.
pub open spec fn feed(key: Seq<u8>, base: Seq<char>, s: Scan, input: Seq<u8>) -> Result<Scan, RewriteCssError>
    decreases input.len(),
{
    if input.len() == 0 {
        Ok(s)
    } else {
        match feed(key, base, s, input.drop_last()) {
            Ok(before) => step(key, base, before, input.last()),
            Err(e) => Err(e),
        }
    }
}

/// What the scanner has written when the input ends: the bytes of an unfinished
/// URL follow as they were read.
pub open spec fn flushed(s: Scan) -> Seq<u8> {
    s.output + s.payload
}

/// The rewritten form of a whole stylesheet.
pub open spec fn rewritten_css(key: Seq<u8>, base: Seq<char>, input: Seq<u8>) -> Result<Seq<u8>, RewriteCssError> {
    match feed(key, base, initial(), input) {
        Ok(s) => Ok(flushed(s)),
        Err(e) => Err(e),
    }
}

/// Feeding one more byte is one more step.
pub proof fn feed_push(key: Seq<u8>, base: Seq<char>, s: Scan, input: Seq<u8>, b: u8)
    ensures
        feed(key, base, s, input.push(b)) == match feed(key, base, s, input) {
            Ok(before) => step(key, base, before, b),
            Err(e) => Err(e),
        },
{
    assert(input.push(b).drop_last() =~= input);
}

/// Feeding two runs one after the other is feeding them joined.
pub proof fn feed_concat(key: Seq<u8>, base: Seq<char>, s: Scan, first: Seq<u8>, second: Seq<u8>)
    ensures
        feed(key, base, s, first + second) == match feed(key, base, s, first) {
            Ok(middle) => feed(key, base, middle, second),
            Err(e) => Err(e),
        },
    decreases second.len(),
{
    if second.len() == 0 {
        assert(first + second =~= first);
    } else {
        feed_concat(key, base, s, first, second.drop_last());
        assert((first + second).drop_last() =~= first + second.drop_last());
    }
}

/// A run of bytes never fails for want of more bytes.
pub proof fn feed_never_incomplete(key: Seq<u8>, base: Seq<char>, s: Scan, input: Seq<u8>)
    ensures
        feed(key, base, s, input) != Err::<Scan, RewriteCssError>(RewriteCssError::Incomplete),
    decreases input.len(),
{
    if input.len() > 0 {
        feed_never_incomplete(key, base, s, input.drop_last());
    }
}

/// The scanner after the longest run of bytes, from the first, that it
/// reads without failure.
pub open spec fn last_good(key: Seq<u8>, base: Seq<char>, s: Scan, input: Seq<u8>) -> Scan
    decreases input.len(),
{
    if input.len() == 0 {
        s
    } else {
        match feed(key, base, s, input) {
            Ok(after) => after,
            Err(_) => last_good(key, base, s, input.drop_last()),
        }
    }
}

/// The scanner after a failure: it is outside any token, and has written what
/// it wrote before the token that failed came to its end.
pub open spec fn given_up(key: Seq<u8>, base: Seq<char>, s: Scan, input: Seq<u8>) -> Scan {
    Scan { state: MatchState::Idle, payload: Seq::empty(), output: last_good(key, base, s, input).output }
}

/// The longest run that is read without failure ends before the byte on
/// which the scanner fails.
pub proof fn last_good_stops(key: Seq<u8>, base: Seq<char>, s: Scan, input: Seq<u8>, k: int)
    requires
        0 <= k < input.len(),
        feed(key, base, s, input.take(k)) is Ok,
        feed(key, base, s, input.take(k + 1)) is Err,
    ensures
        feed(key, base, s, input) is Err,
        Ok::<Scan, RewriteCssError>(last_good(key, base, s, input)) == feed(key, base, s, input.take(k)),
    decreases input.len() - k,
{
    feed_concat(key, base, s, input.take(k + 1), input.skip(k + 1));
    assert(input.take(k + 1) + input.skip(k + 1) =~= input);
    assert(last_good(key, base, s, input) == last_good(key, base, s, input.drop_last()));
    if input.len() == k + 1 {
        assert(input.drop_last() =~= input.take(k));
        if k == 0 {
            assert(input.take(k) =~= Seq::<u8>::empty());
        }
    } else {
        let shorter = input.drop_last();
        assert(shorter.take(k) =~= input.take(k));
        assert(shorter.take(k + 1) =~= input.take(k + 1));
        last_good_stops(key, base, s, shorter, k);
    }
}

/// A streaming rewriter for the `url(...)` tokens of one stylesheet.
pub struct CssRewrite {
    key: Vec<u8>,
    base_url: Rc<url::Url>,
    buffer: Vec<u8>,
    last_index: usize,
    match_start: usize,
    match_state: MatchState,
    output: Vec<u8>,
    url_start: usize,
}

impl View for CssRewrite {
    type V = Scan;

    /// The scanner that this rewriter stands for.
    closed spec fn view(&self) -> Scan {
        Scan {
            state: self.match_state,
            payload: if self.match_state.collecting() {
                self.buffer@.subrange(self.url_start as int, self.last_index as int)
            } else {
                Seq::empty()
            },
            output: self.output@,
        }
    }
}

impl CssRewrite {
    /// The key that signs the rewritten URLs.
    pub closed spec fn key(&self) -> Seq<u8> {
        self.key@
    }

    /// The text of the URL against which the stylesheet's references resolve.
    pub closed spec fn base(&self) -> Seq<char> {
        serialization(*self.base_url)
    }

    /// The offsets point into the buffer, in their order.
    spec fn inv(&self) -> bool {
        &&& self.last_index <= self.buffer.len()
        &&& self.match_start <= self.last_index
        &&& self.match_state.collecting() ==> self.match_start <= self.url_start <= self.last_index
    }

    /// Every byte handed in so far has been read.
    pub closed spec fn wf(&self) -> bool {
        &&& self.inv()
        &&& self.last_index == self.buffer.len()
    }

    /// Whether every byte handed in so far has been read: this holds of every
    /// rewriter between two calls.
    pub fn is_settled(&self) -> (settled: bool)
        ensures
            settled == self.wf(),
    {
        let collecting = self.match_state.inside_brackets() && !matches!(self.match_state, MatchState::ClosingBracket);
        self.last_index == self.buffer.len() && self.match_start <= self.last_index && (!collecting || (
            self.match_start <= self.url_start && self.url_start <= self.last_index))
    }

    /// A rewriter for a stylesheet found at `base_url`, signing with `key`.
    pub fn new(key: Vec<u8>, base_url: Rc<url::Url>) -> (rewriter: Self)
        ensures
            rewriter.wf(),
            rewriter@ == initial(),
            rewriter.key() == key@,
            rewriter.base() == serialization(*base_url),
    {
        Self {
            key,
            base_url,
            buffer: Vec::new(),
            last_index: 0,
            match_start: 0,
            match_state: MatchState::Idle,
            output: Vec::new(),
            url_start: 0,
        }
    }

    /// Reads one more chunk of the stylesheet. A chunk may end anywhere, also
    /// inside a token. Fails on the first token whose URL cannot be rewritten;
    /// the rewriter is then outside any token, and has written what it wrote
    /// before that token came to its end.
    pub fn write(&mut self, chunk: &[u8]) -> (res: Result<(), RewriteCssError>)
        requires
            old(self).wf(),
        ensures
            final(self).wf(),
            final(self).key() == old(self).key(),
            final(self).base() == old(self).base(),
            match feed(old(self).key(), old(self).base(), old(self)@, chunk@) {
                Ok(s) => res is Ok && final(self)@ == s,
                Err(e) => res == Err::<(), RewriteCssError>(e) && final(self)@ == given_up(
                    old(self).key(),
                    old(self).base(),
                    old(self)@,
                    chunk@,
                ),
            },
    {
        proof {
            assert(self.buffer@.subrange(self.last_index as int, self.buffer@.len() as int) =~= Seq::<u8>::empty());
        }
        let ghost before = self.buffer@;
        self.buffer.extend_from_slice(chunk);
        proof {
            assert(self.buffer@.subrange(self.last_index as int, self.buffer@.len() as int) =~= chunk@);
            if self.match_state.collecting() {
                assert(self.buffer@.subrange(self.url_start as int, self.last_index as int) =~= before.subrange(
                    self.url_start as int,
                    self.last_index as int,
                ));
            }
        }
        proof {
            feed_never_incomplete(self.key(), self.base(), self@, chunk@);
        }
        match self.parse_buffer() {
            Err(RewriteCssError::DecodeFailed) => Err(RewriteCssError::DecodeFailed),
            Err(RewriteCssError::UrlRewrite(e)) => Err(RewriteCssError::UrlRewrite(e)),
            _ => Ok(()),
        }
    }

    /// Ends the stylesheet and returns its rewritten form. A token that the
    /// input leaves unfinished stays as it was read.
    pub fn end(self) -> (res: Result<Vec<u8>, RewriteCssError>)
        requires
            self.wf(),
        ensures
            res matches Ok(bytes) && bytes@ == flushed(self@),
    {
        let mut output = self.output;
        if self.match_state.inside_brackets() && !matches!(self.match_state, MatchState::ClosingBracket) {
            let rest = slice_subrange(self.buffer.as_slice(), self.url_start, self.last_index);
            output.extend_from_slice(rest);
        } else {
            proof {
                assert(output@ + Seq::<u8>::empty() =~= output@);
            }
        }
        Ok(output)
    }

    /// Reads the bytes of the buffer that have not been read yet, then drops
    /// from the buffer what no unfinished token needs. `Incomplete` says that
    /// the buffer ends inside a token.
    fn parse_buffer(&mut self) -> (res: Result<(), RewriteCssError>)
        requires
            old(self).inv(),
        ensures
            final(self).wf(),
            final(self).key() == old(self).key(),
            final(self).base() == old(self).base(),
            match feed(
                old(self).key(),
                old(self).base(),
                old(self)@,
                old(self).buffer@.subrange(old(self).last_index as int, old(self).buffer@.len() as int),
            ) {
                Ok(s) => final(self)@ == s && res == (if s.state is Idle {
                    Ok::<(), RewriteCssError>(())
                } else {
                    Err::<(), RewriteCssError>(RewriteCssError::Incomplete)
                }),
                Err(e) => res == Err::<(), RewriteCssError>(e) && final(self)@ == given_up(
                    old(self).key(),
                    old(self).base(),
                    old(self)@,
                    old(self).buffer@.subrange(old(self).last_index as int, old(self).buffer@.len() as int),
                ),
            },
    {
        let ghost key = self.key@;
        let ghost base = self.base();
        let ghost start = self@;
        let ghost offset = self.last_index as int;
        let ghost input = self.buffer@;
        proof {
            assert(input.subrange(offset, offset) =~= Seq::<u8>::empty());
        }
        while self.last_index < self.buffer.len()
            invariant
                self.inv(),
                self.key@ == key,
                self.base() == base,
                self.buffer@ == input,
                0 <= offset <= self.last_index,
                key == old(self).key(),
                base == old(self).base(),
                start == old(self)@,
                offset == old(self).last_index,
                input == old(self).buffer@,
                feed(key, base, start, input.subrange(offset, self.last_index as int)) == Ok::<Scan, RewriteCssError>(self@),
            decreases self.buffer.len() - self.last_index,
        {
            let index: usize = self.last_index;
            let byte: u8 = self.buffer[index];
            let ghost current = self@;
            proof {
                feed_push(key, base, start, input.subrange(offset, index as int), byte);
                assert(input.subrange(offset, index as int).push(byte) =~= input.subrange(offset, index + 1));
                if self.match_state.collecting() {
                    assert(input.subrange(self.url_start as int, index as int).push(byte) =~= input.subrange(
                        self.url_start as int,
                        index + 1,
                    ));
                }
            }
            let closes: bool = match self.match_state {
                MatchState::OpeningBracket => byte == 0x29,
                MatchState::Quote(q) => byte == q || byte == 0x29,
                _ => false,
            };
            if closes {
                let quoted: bool = match self.match_state {
                    MatchState::Quote(q) => byte == q,
                    _ => false,
                };
                match self.rewrite_url(self.url_start, index) {
                    Ok(url) => {
                        self.output.extend_from_slice(url.as_str().as_bytes());
                        self.output.push(byte);
                        if quoted {
                            self.match_state.next();
                        } else {
                            self.match_state.reset();
                        }
                        self.last_index = index + 1;
                    },
                    Err(e) => {
                        proof {
                            feed_concat(
                                key,
                                base,
                                start,
                                input.subrange(offset, index + 1),
                                input.subrange(index + 1, input.len() as int),
                            );
                            assert(input.subrange(offset, index + 1) + input.subrange(index + 1, input.len() as int)
                                =~= input.subrange(offset, input.len() as int));
                            let unread = input.subrange(offset, input.len() as int);
                            assert(unread.take(index - offset) =~= input.subrange(offset, index as int));
                            assert(unread.take(index - offset + 1) =~= input.subrange(offset, index + 1));
                            last_good_stops(key, base, start, unread, index - offset);
                        }
                        self.buffer.clear();
                        self.last_index = 0;
                        self.match_start = 0;
                        self.match_state.reset();
                        proof {
                            assert(self@.payload =~= Seq::<u8>::empty());
                            assert(self@.output =~= current.output);
                        }
                        return Err(e);
                    },
                }
            } else {
                match self.match_state {
                    MatchState::Idle => {
                        self.output.push(byte);
                        if byte == 0x75 {
                            self.match_start = index;
                            self.match_state.next();
                        }
                    },
                    MatchState::U => {
                        self.output.push(byte);
                        if byte == 0x72 {
                            self.match_state.next();
                        } else {
                            self.match_state.reset();
                        }
                    },
                    MatchState::R => {
                        self.output.push(byte);
                        if byte == 0x6C {
                            self.match_state.next();
                        } else {
                            self.match_state.reset();
                        }
                    },
                    MatchState::L => {
                        if byte == 0x28 {
                            self.output.push(byte);
                            self.url_start = index + 1;
                            self.last_index = index + 1;
                            self.match_state.next();
                        } else if !(byte == 0x20 || byte == 0x0A || byte == 0x0D || byte == 0x09) {
                            self.output.push(byte);
                            self.match_state.reset();
                        }
                    },
                    MatchState::OpeningBracket => {
                        if byte == 0x22 || byte == 0x27 {
                            self.output.push(byte);
                            self.url_start = index + 1;
                            self.last_index = index + 1;
                            self.match_state = MatchState::Quote(byte);
                        }
                    },
                    MatchState::Quote(_) => {},
                    MatchState::ClosingBracket => {
                        if byte == 0x29 {
                            self.output.push(byte);
                            self.match_state.reset();
                        }
                    },
                }
                self.last_index = index + 1;
            }
            proof {
                let after = step(key, base, current, byte);
                assert(after is Ok);
                assert(after.unwrap().state == self@.state);
                assert(after.unwrap().payload =~= self@.payload);
                assert(after.unwrap().output =~= self@.output);
            }
        }
        proof {
            assert(input.subrange(offset, self.last_index as int) =~= input.subrange(offset, input.len() as int));
        }
        let ghost scanned = self@;
        if self.match_start != 0 {
            let kept = self.buffer.split_off(self.match_start);
            self.buffer = kept;
            self.last_index = self.last_index - self.match_start;
            self.url_start = self.url_start.saturating_sub(self.match_start);
            proof {
                if self.match_state.collecting() {
                    assert(self.buffer@.subrange(self.url_start as int, self.last_index as int) =~= input.subrange(
                        self.url_start + self.match_start,
                        self.last_index + self.match_start,
                    ));
                }
            }
            self.match_start = 0;
        } else if matches!(self.match_state, MatchState::Idle) {
            self.buffer.clear();
            self.last_index = 0;
        }
        assert(self@ == scanned);
        if !matches!(self.match_state, MatchState::Idle) {
            Err(RewriteCssError::Incomplete)
        } else {
            Ok(())
        }
    }

    /// The proxy URL for the bytes of the buffer from `start` up to `end`.
    fn rewrite_url(&self, start: usize, end: usize) -> (res: Result<String, RewriteCssError>)
        requires
            start <= end <= self.buffer.len(),
        ensures
            match rewritten_payload(self.key(), self.base(), self.buffer@.subrange(start as int, end as int)) {
                Ok(url) => res matches Ok(s) && encode_utf8(s@) == url,
                Err(e) => res == Err::<String, RewriteCssError>(e),
            },
    {
        let payload = slice_subrange(self.buffer.as_slice(), start, end);
        match from_utf8(payload) {
            None => Err(RewriteCssError::DecodeFailed),
            Some(text) => {
                proof {
                    encode_utf8_decode_utf8(text@);
                }
                match rewrite_url(self.key.as_slice(), &self.base_url, text) {
                    Ok(url) => Ok(url),
                    Err(e) => Err(RewriteCssError::UrlRewrite(e)),
                }
            },
        }
    }
}

} // verus!
