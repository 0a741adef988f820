//! The XML tokens of a raw feed, as `quick_xml` reads them.

use quick_xml::events::Event;
use vstd::prelude::*;
use vstd::string::StringSliceAdditionalSpecFns;

verus! {

/// One step of reading an XML text, reduced to what a feed needs.
#[derive(Debug)]
pub enum XmlToken {
    /// An opening tag, with its name as written.
    Start(Vec<u8>),
    /// A closing tag, with its name as written.
    End(Vec<u8>),
    /// Character data or a CDATA section; `None` where its escapes or its
    /// encoding could not be read.
    Text(Option<String>),
    /// The end of the input.
    Eof,
    /// The input is no XML from here on.
    Malformed,
    /// Anything else: comments, declarations, self-closing tags.
    Other,
}

/// What an `XmlToken` holds, as plain values.
pub enum TokenView {
    Start(Seq<u8>),
    End(Seq<u8>),
    Text(Option<Seq<char>>),
    Eof,
    Malformed,
    Other,
}

impl TokenView {
    /// The reader stops after this token.
    pub open spec fn is_final(self) -> bool {
        self is Eof || self is Malformed
    }
}

impl View for XmlToken {
    type V = TokenView;

    open spec fn view(&self) -> TokenView {
        match *self {
            XmlToken::Start(name) => TokenView::Start(name@),
            XmlToken::End(name) => TokenView::End(name@),
            XmlToken::Text(Some(text)) => TokenView::Text(Some(text@)),
            XmlToken::Text(None) => TokenView::Text(None),
            XmlToken::Eof => TokenView::Eof,
            XmlToken::Malformed => TokenView::Malformed,
            XmlToken::Other => TokenView::Other,
        }
    }
}

/// The views of a sequence of tokens, in order.
pub open spec fn token_views(tokens: Seq<XmlToken>) -> Seq<TokenView> {
    Seq::new(tokens.len(), |i: int| tokens[i]@)
}

/// A `quick_xml::Reader` over a string, with whatever it has read so far.
/// Opaque but for the three things named below.
#[verifier::external_body]
pub struct XmlReader<'a> {
    inner: quick_xml::Reader<&'a [u8]>,
}

/// The token that `quick_xml` yields at the `n`-th reading (from 0) of a
/// text, with or without trimming of text set before the first reading;
/// `Eof` at every reading after the one that ended the text.
pub uninterp spec fn xml_token(raw: Seq<char>, trim: bool, n: nat) -> TokenView;

/// The text that a reader was opened on.
pub uninterp spec fn reader_text(reader: XmlReader) -> Seq<char>;

/// Whether a reader trims text.
pub uninterp spec fn reader_trims(reader: XmlReader) -> bool;

/// The number of readings made of a reader.
pub uninterp spec fn reader_count(reader: XmlReader) -> nat;

/// Calls `quick_xml::Reader::from_str` on the text. Trusted: the reader is
/// one over that text of which no reading has been made.
#[verifier::external_body]
fn open_reader<'a>(raw: &'a str) -> (r: XmlReader<'a>)
    ensures
        reader_text(r) == raw@,
        reader_count(r) == 0,
{
    XmlReader { inner: quick_xml::Reader::from_str(raw) }
}

/// Calls `quick_xml::Reader::trim_text` before the first reading: with
/// `true`, text that is only whitespace is skipped and other text loses the
/// whitespace round it. Trusted: the reader trims as told, and is otherwise
/// the reader it was.
#[verifier::external_body]
fn set_trim_text<'a>(reader: &mut XmlReader<'a>, trim: bool)
    requires
        reader_count(*old(reader)) == 0,
    ensures
        reader_text(*final(reader)) == reader_text(*old(reader)),
        reader_count(*final(reader)) == 0,
        reader_trims(*final(reader)) == trim,
{
    reader.inner.trim_text(trim);
}

/// Calls `quick_xml::Reader::read_event` once, on a fresh buffer, and hands
/// the event out as plain values: a tag's `name()` copied, a text run
/// through `BytesText::unescape_and_decode`. Trusted: the token is the one
/// named for the reader's text, its trimming and the number of readings made
/// before, and the reader has one reading more behind it.
#[verifier::external_body]
fn next_token<'a>(reader: &mut XmlReader<'a>) -> (t: XmlToken)
    ensures
        t@ == xml_token(
            reader_text(*old(reader)),
            reader_trims(*old(reader)),
            reader_count(*old(reader)),
        ),
        reader_text(*final(reader)) == reader_text(*old(reader)),
        reader_trims(*final(reader)) == reader_trims(*old(reader)),
        reader_count(*final(reader)) == reader_count(*old(reader)) + 1,
{
    let mut buf = Vec::new();
    match reader.inner.read_event(&mut buf) {
        Ok(Event::Start(e)) => XmlToken::Start(e.name().to_vec()),
        Ok(Event::End(e)) => XmlToken::End(e.name().to_vec()),
        Ok(Event::Text(e)) => XmlToken::Text(e.unescape_and_decode(&reader.inner).ok()),
        Ok(Event::CData(e)) => XmlToken::Text(e.unescape_and_decode(&reader.inner).ok()),
        Ok(Event::Eof) => XmlToken::Eof,
        Ok(_) => XmlToken::Other,
        Err(_) => XmlToken::Malformed,
    }
}

/// The token at the `n`-th reading of a text, read as a feed is read: with
/// trimming.
pub open spec fn feed_token(raw: Seq<char>, n: nat) -> TokenView {
    xml_token(raw, true, n)
}

/// None of the first `n` tokens of the text ends the reading.
pub open spec fn goes_on(raw: Seq<char>, n: nat) -> bool {
    forall|i: nat| i < n ==> !(#[trigger] feed_token(raw, i)).is_final()
}

/// The first `n + 1` tokens of the text, in order.
pub open spec fn tokens_to(raw: Seq<char>, n: nat) -> Seq<TokenView> {
    Seq::new(n + 1, |i: int| feed_token(raw, i as nat))
}

/// The text ends well at its `n`-th token: that token is `Eof`, and none
/// before it ends the reading.
pub open spec fn ends_at(raw: Seq<char>, n: nat) -> bool {
    goes_on(raw, n) && feed_token(raw, n) is Eof
}

/// `tokens` are what reading the text to its end gives, with at most
/// `limit` tokens before the last: they are the text's tokens from the first
/// on, the last is `Eof`, and none before it ends the reading.
pub open spec fn read_from(raw: Seq<char>, tokens: Seq<TokenView>, limit: nat) -> bool {
    &&& tokens.len() > 0
    &&& tokens.len() - 1 <= limit
    &&& ends_at(raw, (tokens.len() - 1) as nat)
    &&& tokens == tokens_to(raw, (tokens.len() - 1) as nat)
}

/// The text cannot be read to its end with at most `limit` tokens before
/// the last: the first token that ends the reading is `Malformed`, or
/// `limit` tokens come without any that ends it and the next is not `Eof`.
pub open spec fn unreadable(raw: Seq<char>, limit: nat) -> bool {
    exists|n: nat|
        n <= limit && #[trigger] goes_on(raw, n) && !(feed_token(raw, n) is Eof) && (feed_token(
            raw,
            n,
        ) is Malformed || n == limit)
}

/// A text has one reading: two sequences of tokens that are both what
/// reading the text to its end gives are the same sequence.
pub proof fn lemma_one_reading(
    raw: Seq<char>,
    a: Seq<TokenView>,
    b: Seq<TokenView>,
    limit_a: nat,
    limit_b: nat,
)
    requires
        read_from(raw, a, limit_a),
        read_from(raw, b, limit_b),
    ensures
        a == b,
{
    let n = (a.len() - 1) as nat;
    let m = (b.len() - 1) as nat;
    if n < m {
        assert(!feed_token(raw, n).is_final());
    }
    if m < n {
        assert(!feed_token(raw, m).is_final());
    }
}

/// A text that can be read to its end is not one that cannot: whether a
/// text is readable within a limit depends on the text and the limit alone.
pub proof fn lemma_readable_or_not(raw: Seq<char>, tokens: Seq<TokenView>, limit: nat)
    requires
        read_from(raw, tokens, limit),
    ensures
        !unreadable(raw, limit),
{
    let last = (tokens.len() - 1) as nat;
    assert forall|n: nat|
        n <= limit && #[trigger] goes_on(raw, n) && !(feed_token(raw, n) is Eof) implies !(
    feed_token(raw, n) is Malformed || n == limit) by {
        if n < last {
            assert(!feed_token(raw, n).is_final());
        } else if n > last {
            assert(!feed_token(raw, last).is_final());
        }
    }
}

/// How the reading of a text stands after a token.
#[derive(Clone, Copy, Debug, PartialEq, Eq, Structural)]
pub enum Reading {
    /// The token is kept and another is to be read.
    More,
    /// The token is kept and it is the last: the text is read to its end.
    Done,
    /// The text is given up; the token is not kept.
    Failed,
}

/// How the reading stands after `token` came, with `count` tokens kept so
/// far and `limit` as the most that may be kept before the last:
/// `Malformed` gives the text up, `Eof` ends it, and any other token goes on
/// unless the limit is reached, which gives the text up too.
pub open spec fn reading_after(count: nat, token: TokenView, limit: nat) -> Reading {
    match token {
        TokenView::Malformed => Reading::Failed,
        TokenView::Eof => Reading::Done,
        _ => if count >= limit {
            Reading::Failed
        } else {
            Reading::More
        },
    }
}

/// The tokens kept after `token` came: the token joins them unless the text
/// is given up.
pub open spec fn kept_after(tokens: Seq<TokenView>, token: TokenView, limit: nat) -> Seq<
    TokenView,
> {
    if reading_after(tokens.len(), token, limit) == Reading::Failed {
        tokens
    } else {
        tokens.push(token)
    }
}

/// Takes the token that the reader yielded: keeps it or gives the text up,
/// and tells how the reading stands.
pub fn take_token(tokens: &mut Vec<XmlToken>, token: XmlToken, limit: usize) -> (r: Reading)
    ensures
        r == reading_after(old(tokens)@.len(), token@, limit as nat),
        token_views(final(tokens)@) == kept_after(token_views(old(tokens)@), token@, limit as nat),
{
    let ghost before = token_views(tokens@);
    match token {
        XmlToken::Malformed => Reading::Failed,
        XmlToken::Eof => {
            tokens.push(token);
            assert(token_views(tokens@) =~= before.push(token@));
            Reading::Done
        },
        _ => {
            if tokens.len() >= limit {
                Reading::Failed
            } else {
                tokens.push(token);
                assert(token_views(tokens@) =~= before.push(token@));
                Reading::More
            }
        },
    }
}

/// Reads the tokens of a raw XML text up to its end. `None` where the
/// reader reports malformed input, or yields more tokens before the end than
/// the text has bytes (each token but the last consumes at least one).
pub fn read_tokens(raw: &str) -> (r: Option<Vec<XmlToken>>)
    ensures
        match r {
            Some(tokens) => read_from(raw@, token_views(tokens@), raw.spec_bytes().len()),
            None => unreadable(raw@, raw.spec_bytes().len()),
        },
{
    let mut reader = open_reader(raw);
    set_trim_text(&mut reader, true);
    let mut tokens: Vec<XmlToken> = Vec::new();
    let limit: usize = raw.as_bytes().len();
    loop
        invariant
            limit == raw.spec_bytes().len(),
            tokens.len() <= limit,
            reader_text(reader) == raw@,
            reader_trims(reader),
            reader_count(reader) == tokens.len(),
            forall|i: int|
                0 <= i < tokens.len() ==> #[trigger] token_views(tokens@)[i] == feed_token(
                    raw@,
                    i as nat,
                ),
            goes_on(raw@, tokens.len() as nat),
        decreases limit - tokens.len(),
    {
        let ghost before = token_views(tokens@);
        let ghost n = tokens.len() as nat;
        let token = next_token(&mut reader);
        assert(token@ == feed_token(raw@, n));
        match take_token(&mut tokens, token, limit) {
            Reading::Failed => {
                assert(goes_on(raw@, n));
                return None;
            },
            Reading::Done => {
                assert(token_views(tokens@) == before.push(token@));
                assert(before.len() == n);
                assert(token_views(tokens@) =~= tokens_to(raw@, n));
                return Some(tokens);
            },
            Reading::More => {
                assert(token_views(tokens@) == before.push(token@));
                assert(token_views(tokens@).len() == tokens@.len());
                assert(before.len() == n);
                assert forall|i: nat| i < n + 1 implies !(#[trigger] feed_token(
                    raw@,
                    i,
                )).is_final() by {
                    if i < n {
                        assert(goes_on(raw@, n));
                    }
                }
            },
        }
    }
}

} // verus!
