//! A fetched feed and its items, and how they are read from raw XML.

use vstd::prelude::*;
use crate::clock::{parse_publication_date, publication_seconds};
use crate::text::{decimal, push_decimal, spelled_by, spells};
use vstd::string::StringSliceAdditionalSpecFns;
use crate::xml::{
    lemma_one_reading, lemma_readable_or_not, read_from, read_tokens, token_views, unreadable,
    TokenView, XmlToken,
};

verus! {

/// One entry of a feed.
#[derive(Debug)]
pub struct FeedItem {
    pub title: String,
    pub url: String,
    /// Seconds since the Unix epoch.
    pub publication_date: i64,
}

/// What a `FeedItem` holds, as plain values.
pub struct ItemView {
    pub title: Seq<char>,
    pub url: Seq<char>,
    pub publication_date: i64,
}

impl View for FeedItem {
    type V = ItemView;

    open spec fn view(&self) -> ItemView {
        ItemView {
            title: self.title@,
            url: self.url@,
            publication_date: self.publication_date,
        }
    }
}

/// The item that a parser starts from: no title, no URL, published at the
/// epoch.
pub open spec fn blank_item() -> ItemView {
    ItemView { title: Seq::empty(), url: Seq::empty(), publication_date: 0 }
}

impl Default for FeedItem {
    fn default() -> (r: Self)
        ensures
            r@ == blank_item(),
    {
        FeedItem { title: String::new(), url: String::new(), publication_date: 0 }
    }
}

/// What tells one item of a feed from another: when it was published and,
/// between items published at the same time, where it points. Within one
/// feed two items with the same key are the same item.
#[derive(Debug)]
pub struct ItemKey {
    pub feed_url: String,
    pub publication_date: i64,
    pub item_url: String,
}

/// What an `ItemKey` holds, as plain values.
pub struct KeyView {
    pub feed_url: Seq<char>,
    pub publication_date: i64,
    pub item_url: Seq<char>,
}

impl View for ItemKey {
    type V = KeyView;

    open spec fn view(&self) -> KeyView {
        KeyView {
            feed_url: self.feed_url@,
            publication_date: self.publication_date,
            item_url: self.item_url@,
        }
    }
}

/// The key of an item of the feed with this URL.
pub open spec fn key_of(feed_url: Seq<char>, item: ItemView) -> KeyView {
    KeyView { feed_url, publication_date: item.publication_date, item_url: item.url }
}

/// Two items of one feed are the same item. The feed they are from plays
/// no part, being the same for both.
pub open spec fn same_item(a: ItemView, b: ItemView) -> bool {
    a.publication_date == b.publication_date && a.url == b.url
}

/// An item of `items` before position `at` is the same item as `item`.
pub open spec fn seen_before(items: Seq<ItemView>, at: int, item: ItemView) -> bool {
    exists|k: int| 0 <= k < at && k < items.len() && same_item(#[trigger] items[k], item)
}

/// The items without their repeats: of the items that are the same item,
/// the first stays.
pub open spec fn without_repeats(items: Seq<ItemView>) -> Seq<ItemView>
    decreases items.len(),
{
    if items.len() == 0 {
        Seq::empty()
    } else {
        let rest = without_repeats(items.drop_last());
        if seen_before(items, items.len() - 1, items.last()) {
            rest
        } else {
            rest.push(items.last())
        }
    }
}

impl ItemKey {
    /// Tells whether two keys are the same.
    pub fn same(&self, other: &ItemKey) -> (r: bool)
        ensures
            r == (self@ == other@),
    {
        self.publication_date == other.publication_date && self.feed_url == other.feed_url
            && self.item_url == other.item_url
    }
}

impl FeedItem {
    /// The key of this item as an item of the feed with this URL.
    pub fn key(&self, feed_url: &str) -> (r: ItemKey)
        ensures
            r@ == key_of(feed_url@, self@),
    {
        ItemKey {
            feed_url: feed_url.to_owned(),
            publication_date: self.publication_date,
            item_url: self.url.clone(),
        }
    }

    /// Tells whether this item and another of the same feed are the same
    /// item.
    pub fn same_as(&self, other: &FeedItem) -> (r: bool)
        ensures
            r == same_item(self@, other@),
    {
        self.publication_date == other.publication_date && self.url == other.url
    }

    /// A copy of this item.
    pub fn copy(&self) -> (r: FeedItem)
        ensures
            r@ == self@,
    {
        FeedItem {
            title: self.title.clone(),
            url: self.url.clone(),
            publication_date: self.publication_date,
        }
    }
}

/// Every item of `items` is the same item as one that stays without the
/// repeats, and each that stays is an item of `items`.
pub proof fn lemma_without_repeats(items: Seq<ItemView>)
    ensures
        forall|k: int|
            0 <= k < items.len() ==> seen_before(
                without_repeats(items),
                without_repeats(items).len() as int,
                #[trigger] items[k],
            ),
        forall|m: int|
            0 <= m < without_repeats(items).len() ==> items.contains(
                #[trigger] without_repeats(items)[m],
            ),
        forall|a: int, b: int|
            0 <= a < b < without_repeats(items).len() ==> !same_item(
                without_repeats(items)[a],
                without_repeats(items)[b],
            ),
    decreases items.len(),
{
    if items.len() > 0 {
        let front = items.drop_last();
        lemma_without_repeats(front);
        let rest = without_repeats(front);
        let all = without_repeats(items);
        assert forall|k: int| 0 <= k < items.len() implies seen_before(
            all,
            all.len() as int,
            #[trigger] items[k],
        ) by {
            if k < items.len() - 1 {
                assert(front[k] == items[k]);
                let m = choose|m: int|
                    0 <= m < rest.len() && m < rest.len() && same_item(#[trigger] rest[m], front[k]);
                assert(same_item(all[m], items[k]));
            } else if seen_before(items, items.len() - 1, items.last()) {
                let j = choose|j: int|
                    0 <= j < items.len() - 1 && j < items.len() && same_item(
                        #[trigger] items[j],
                        items.last(),
                    );
                assert(front[j] == items[j]);
                let m = choose|m: int|
                    0 <= m < rest.len() && m < rest.len() && same_item(#[trigger] rest[m], front[j]);
                assert(same_item(all[m], items[k]));
            } else {
                assert(same_item(all[all.len() - 1], items[k]));
            }
        }
        assert forall|m: int| 0 <= m < all.len() implies items.contains(#[trigger] all[m]) by {
            if m < rest.len() {
                assert(front.contains(rest[m]));
                let j = choose|j: int| 0 <= j < front.len() && front[j] == rest[m];
                assert(items[j] == all[m]);
            } else {
                assert(items[items.len() - 1] == all[m]);
            }
        }
        assert forall|a: int, b: int| 0 <= a < b < all.len() implies !same_item(all[a], all[b]) by {
            if b >= rest.len() {
                assert(front.contains(rest[a]));
                let j = choose|j: int| 0 <= j < front.len() && front[j] == rest[a];
                assert(items[j] == rest[a]);
            }
        }
    }
}

/// Drops the repeats from the items of one feed: of the items that are
/// the same item, the first stays.
pub fn unique_items(items: &Vec<FeedItem>) -> (r: Vec<FeedItem>)
    ensures
        item_views(r@) == without_repeats(item_views(items@)),
{
    let ghost all = item_views(items@);
    let mut r: Vec<FeedItem> = Vec::new();
    let mut i: usize = 0;
    assert(all.take(0) =~= Seq::<ItemView>::empty());
    assert(item_views(r@) =~= Seq::<ItemView>::empty());
    while i < items.len()
        invariant
            i <= items.len(),
            all == item_views(items@),
            item_views(r@) == without_repeats(all.take(i as int)),
        decreases items.len() - i,
    {
        let ghost front = all.take(i as int);
        let ghost next = all.take(i + 1);
        proof {
            assert(next.drop_last() =~= front);
            assert(next.last() == items@[i as int]@);
            lemma_without_repeats(front);
        }
        let mut repeated = false;
        let mut m: usize = 0;
        while m < r.len()
            invariant
                m <= r.len(),
                i < items.len(),
                repeated == seen_before(item_views(r@), m as int, items@[i as int]@),
            decreases r.len() - m,
        {
            if r[m].same_as(&items[i]) {
                repeated = true;
                assert(same_item(item_views(r@)[m as int], items@[i as int]@));
            }
            m = m + 1;
        }
        proof {
            let kept = item_views(r@);
            let item = items@[i as int]@;
            if repeated {
                let a = choose|a: int|
                    0 <= a < kept.len() && a < kept.len() && same_item(#[trigger] kept[a], item);
                assert(front.contains(kept[a]));
                let j = choose|j: int| 0 <= j < front.len() && front[j] == kept[a];
                assert(next[j] == front[j]);
                assert(same_item(next[j], item));
                assert(seen_before(next, next.len() - 1, next.last()));
            } else {
                assert(!seen_before(next, next.len() - 1, next.last())) by {
                    if seen_before(next, next.len() - 1, next.last()) {
                        let j = choose|j: int|
                            0 <= j < next.len() - 1 && j < next.len() && same_item(
                                #[trigger] next[j],
                                next.last(),
                            );
                        assert(front[j] == next[j]);
                        assert(seen_before(kept, kept.len() as int, front[j]));
                        let a = choose|a: int|
                            0 <= a < kept.len() && a < kept.len() && same_item(
                                #[trigger] kept[a],
                                front[j],
                            );
                        assert(same_item(kept[a], item));
                    }
                }
            }
        }
        if !repeated {
            let ghost before = item_views(r@);
            r.push(items[i].copy());
            assert(item_views(r@) =~= before.push(items@[i as int]@));
        }
        i = i + 1;
    }
    assert(all.take(i as int) =~= all);
    r
}

/// Two items of one feed are the same item exactly when they have the
/// same key.
pub proof fn lemma_same_item_same_key(feed_url: Seq<char>, a: ItemView, b: ItemView)
    ensures
        same_item(a, b) <==> key_of(feed_url, a) == key_of(feed_url, b),
{
}

/// The name of the file that holds the `n`-th of a list of feeds.
pub open spec fn file_name_of(n: nat) -> Seq<char> {
    "feed"@ + decimal(n) + ".xml"@
}

/// Names the file that holds the `n`-th of a list of feeds: `feed0.xml`,
/// `feed1.xml` and so on.
pub fn feed_file_name(n: usize) -> (r: String)
    ensures
        r@ == file_name_of(n as nat),
{
    let mut name = String::from_str("feed");
    push_decimal(&mut name, n);
    name.append(".xml");
    name
}

/// The views of a sequence of items, in order.
pub open spec fn item_views(items: Seq<FeedItem>) -> Seq<ItemView> {
    Seq::new(items.len(), |i: int| items[i]@)
}

/// A feed as fetched: where it came from and what it held.
#[derive(Debug)]
pub struct Feed {
    pub url: String,
    pub items: Vec<FeedItem>,
}

impl Default for Feed {
    fn default() -> (r: Self)
        ensures
            r.url@ == Seq::<char>::empty(),
            r.items@ == Seq::<FeedItem>::empty(),
    {
        Feed { url: String::new(), items: Vec::new() }
    }
}

/// Why a fetch gave no items.
#[derive(Clone, Copy, Debug, PartialEq, Eq, Structural)]
pub enum FetchError {
    /// The source could not be reached; worth another try.
    NetworkError,
    /// The source answered with something that is no feed.
    ParseError,
}

/// The field of an item that the text being read belongs to.
#[derive(Clone, Copy, Debug, PartialEq, Eq, Structural)]
pub enum FeedItemField {
    Title,
    URL,
    PublicationDate,
    Invalid,
}

/// What a tag means to the parser.
#[derive(Clone, Copy, Debug, PartialEq, Eq, Structural)]
pub enum TagKind {
    /// `item` (RSS) or `entry` (Atom): the bounds of one item.
    Item,
    /// A tag that opens a field of an item.
    Field(FeedItemField),
}

/// The meaning of a tag name, compared byte for byte: `item` and `entry`
/// bound an item, `title` and `link` open those fields, `pubDate`,
/// `updated` and `published` open the date, and every other name opens
/// nothing of interest.
pub open spec fn tag_kind(name: Seq<u8>) -> TagKind {
    if spelled_by(name, "item"@) || spelled_by(name, "entry"@) {
        TagKind::Item
    } else if spelled_by(name, "title"@) {
        TagKind::Field(FeedItemField::Title)
    } else if spelled_by(name, "link"@) {
        TagKind::Field(FeedItemField::URL)
    } else if spelled_by(name, "pubDate"@) || spelled_by(name, "updated"@) || spelled_by(
        name,
        "published"@,
    ) {
        TagKind::Field(FeedItemField::PublicationDate)
    } else {
        TagKind::Field(FeedItemField::Invalid)
    }
}

/// Tells what a tag name means to the parser.
pub fn classify_tag(name: &[u8]) -> (r: TagKind)
    ensures
        r == tag_kind(name@),
{
    if spells(name, "item") || spells(name, "entry") {
        TagKind::Item
    } else if spells(name, "title") {
        TagKind::Field(FeedItemField::Title)
    } else if spells(name, "link") {
        TagKind::Field(FeedItemField::URL)
    } else if spells(name, "pubDate") || spells(name, "updated") || spells(name, "published") {
        TagKind::Field(FeedItemField::PublicationDate)
    } else {
        TagKind::Field(FeedItemField::Invalid)
    }
}

/// Where a parser stands, as plain values.
pub struct ParserView {
    /// The items completed so far, in the order in which they closed.
    pub items: Seq<ItemView>,
    /// The item being read, if one is open.
    pub current: Option<ItemView>,
    /// No field of the open item was unreadable so far.
    pub sound: bool,
    /// The field that the next text belongs to.
    pub field: FeedItemField,
}

/// A parser before its first token.
pub open spec fn initial_parser() -> ParserView {
    ParserView { items: Seq::empty(), current: None, sound: true, field: FeedItemField::Invalid }
}

/// The parser after an opening tag: `item` or `entry` opens a blank item and
/// leaves the field alone; any other tag selects the field it names.
pub open spec fn after_start(st: ParserView, kind: TagKind) -> ParserView {
    match kind {
        TagKind::Item => ParserView { current: Some(blank_item()), sound: true, ..st },
        TagKind::Field(field) => ParserView { field, ..st },
    }
}

/// The parser after a text that was read for the title or the URL of the
/// open item: the text replaces the field, an unreadable text (`None`)
/// spoils the item. With no item open, or in another field, nothing changes.
pub open spec fn after_text(st: ParserView, text: Option<Seq<char>>) -> ParserView {
    match st.current {
        None => st,
        Some(item) => match st.field {
            FeedItemField::Title => match text {
                Some(t) => ParserView { current: Some(ItemView { title: t, ..item }), ..st },
                None => ParserView { sound: false, ..st },
            },
            FeedItemField::URL => match text {
                Some(t) => ParserView { current: Some(ItemView { url: t, ..item }), ..st },
                None => ParserView { sound: false, ..st },
            },
            _ => st,
        },
    }
}

/// The parser after the date of the open item was read: a date replaces the
/// item's, a text that is no date (`None`) spoils the item. With no item
/// open, or in another field, nothing changes.
pub open spec fn after_date(st: ParserView, date: Option<i64>) -> ParserView {
    match st.current {
        None => st,
        Some(item) => if st.field == FeedItemField::PublicationDate {
            match date {
                Some(d) => ParserView {
                    current: Some(ItemView { publication_date: d, ..item }),
                    ..st
                },
                None => ParserView { sound: false, ..st },
            }
        } else {
            st
        },
    }
}

/// The parser after a closing tag: `item` or `entry` closes the open item,
/// which joins the completed ones unless it was spoiled. Any other tag, or one
/// with no item open, changes nothing.
pub open spec fn after_end(st: ParserView, kind: TagKind) -> ParserView {
    match (kind, st.current) {
        (TagKind::Item, Some(item)) => ParserView {
            items: if st.sound {
                st.items.push(item)
            } else {
                st.items
            },
            current: None,
            ..st
        },
        _ => st,
    }
}

/// The parser after one token.
pub open spec fn after_token(st: ParserView, token: TokenView) -> ParserView {
    match token {
        TokenView::Start(name) => after_start(st, tag_kind(name)),
        TokenView::End(name) => after_end(st, tag_kind(name)),
        TokenView::Text(text) => if st.field == FeedItemField::PublicationDate {
            match text {
                Some(t) => after_date(st, publication_seconds(t)),
                None => after_date(st, None),
            }
        } else {
            after_text(st, text)
        },
        _ => st,
    }
}

/// The parser after a sequence of tokens, taken from the left.
pub open spec fn after_tokens(tokens: Seq<TokenView>) -> ParserView
    decreases tokens.len(),
{
    if tokens.len() == 0 {
        initial_parser()
    } else {
        after_token(after_tokens(tokens.drop_last()), tokens.last())
    }
}

/// The items that a sequence of tokens describes.
pub open spec fn items_of(tokens: Seq<TokenView>) -> Seq<ItemView> {
    after_tokens(tokens).items
}

/// The name of the first opening tag among the tokens: the document's
/// root, if it has one.
pub open spec fn root_of(tokens: Seq<TokenView>) -> Option<Seq<u8>>
    decreases tokens.len(),
{
    if tokens.len() == 0 {
        None
    } else {
        match root_of(tokens.drop_last()) {
            Some(name) => Some(name),
            None => match tokens.last() {
                TokenView::Start(name) => Some(name),
                _ => None,
            },
        }
    }
}

/// A root found among the first `n` tokens is the root of them all.
proof fn lemma_root_stays(tokens: Seq<TokenView>, n: int)
    requires
        0 <= n <= tokens.len(),
        root_of(tokens.take(n)) is Some,
    ensures
        root_of(tokens) == root_of(tokens.take(n)),
    decreases tokens.len() - n,
{
    if n < tokens.len() {
        let next = tokens.take(n + 1);
        assert(next.drop_last() =~= tokens.take(n));
        lemma_root_stays(tokens, n + 1);
    } else {
        assert(tokens.take(n) =~= tokens);
    }
}

/// The name is that of a feed's root: `rss`, `feed` (Atom) or `rdf:RDF`
/// (RSS 1.0), compared byte for byte.
pub open spec fn names_feed(name: Seq<u8>) -> bool {
    spelled_by(name, "rss"@) || spelled_by(name, "feed"@) || spelled_by(name, "rdf:RDF"@)
}

/// The tokens are those of a feed: the document has a root, and it is a
/// feed's.
pub open spec fn has_feed_root(tokens: Seq<TokenView>) -> bool {
    root_of(tokens) matches Some(name) && names_feed(name)
}

/// The text is a feed with these items: it can be read to its end with at
/// most `limit` tokens before the last, its root is a feed's, and the items
/// are those that its tokens describe.
pub open spec fn parses_to(raw: Seq<char>, limit: nat, items: Seq<ItemView>) -> bool {
    exists|tokens: Seq<TokenView>| #[trigger]
        read_from(raw, tokens, limit) && has_feed_root(tokens) && items == items_of(tokens)
}

/// The text is no feed: it cannot be read to its end with at most `limit`
/// tokens before the last, or it can and its root is not a feed's (or it
/// has none).
pub open spec fn not_a_feed(raw: Seq<char>, limit: nat) -> bool {
    unreadable(raw, limit) || exists|tokens: Seq<TokenView>| #[trigger]
        read_from(raw, tokens, limit) && !has_feed_root(tokens)
}

/// What a text parses to depends on the text alone: it is a feed with
/// one sequence of items at most, and then it is not no feed.
pub proof fn lemma_one_parse(raw: Seq<char>, limit: nat, a: Seq<ItemView>, b: Seq<ItemView>)
    requires
        parses_to(raw, limit, a),
    ensures
        parses_to(raw, limit, b) ==> a == b,
        !not_a_feed(raw, limit),
{
    let ours = choose|tokens: Seq<TokenView>| #[trigger]
        read_from(raw, tokens, limit) && has_feed_root(tokens) && a == items_of(tokens);
    lemma_readable_or_not(raw, ours, limit);
    if parses_to(raw, limit, b) {
        let theirs = choose|tokens: Seq<TokenView>| #[trigger]
            read_from(raw, tokens, limit) && has_feed_root(tokens) && b == items_of(tokens);
        lemma_one_reading(raw, ours, theirs, limit, limit);
    }
    assert forall|tokens: Seq<TokenView>| #[trigger]
        read_from(raw, tokens, limit) implies has_feed_root(tokens) by {
        lemma_one_reading(raw, ours, tokens, limit, limit);
    }
}

/// Builds items from XML tokens, one token at a time.
pub struct FeedParser {
    items: Vec<FeedItem>,
    current: Option<FeedItem>,
    sound: bool,
    field: FeedItemField,
}

impl View for FeedParser {
    type V = ParserView;

    closed spec fn view(&self) -> ParserView {
        ParserView {
            items: item_views(self.items@),
            current: match self.current {
                Some(item) => Some(item@),
                None => None,
            },
            sound: self.sound,
            field: self.field,
        }
    }
}

impl FeedParser {
    /// A parser that has seen nothing.
    pub fn new() -> (r: Self)
        ensures
            r@ == initial_parser(),
    {
        let r = FeedParser {
            items: Vec::new(),
            current: None,
            sound: true,
            field: FeedItemField::Invalid,
        };
        assert(r@.items =~= Seq::<ItemView>::empty());
        r
    }

    /// Takes an opening tag of the given kind.
    pub fn start(&mut self, kind: TagKind)
        ensures
            final(self)@ == after_start(old(self)@, kind),
    {
        match kind {
            TagKind::Item => {
                self.current = Some(FeedItem::default());
                self.sound = true;
            },
            TagKind::Field(field) => {
                self.field = field;
            },
        }
    }

    /// Takes a text for the title or the URL; `None` is a text that could
    /// not be read.
    pub fn text(&mut self, text: Option<String>)
        ensures
            final(self)@ == after_text(
                old(self)@,
                match text {
                    Some(t) => Some(t@),
                    None => None,
                },
            ),
    {
        let field = self.field;
        match &mut self.current {
            None => {},
            Some(item) => match field {
                FeedItemField::Title => match text {
                    Some(t) => {
                        item.title = t;
                    },
                    None => {
                        self.sound = false;
                    },
                },
                FeedItemField::URL => match text {
                    Some(t) => {
                        item.url = t;
                    },
                    None => {
                        self.sound = false;
                    },
                },
                _ => {},
            },
        }
    }

    /// Takes the date that was read for the open item; `None` is a text
    /// that was no date.
    pub fn date(&mut self, date: Option<i64>)
        ensures
            final(self)@ == after_date(old(self)@, date),
    {
        let field = self.field;
        match &mut self.current {
            None => {},
            Some(item) => if field == FeedItemField::PublicationDate {
                match date {
                    Some(d) => {
                        item.publication_date = d;
                    },
                    None => {
                        self.sound = false;
                    },
                }
            },
        }
    }

    /// Takes a closing tag of the given kind.
    pub fn end(&mut self, kind: TagKind)
        ensures
            final(self)@ == after_end(old(self)@, kind),
    {
        match kind {
            TagKind::Item => {
                let closed = self.current.take();
                match closed {
                    Some(item) => {
                        if self.sound {
                            let ghost before = self.items@;
                            self.items.push(item);
                            assert(item_views(self.items@) =~= item_views(before).push(item@));
                        }
                    },
                    None => {},
                }
            },
            _ => {},
        }
    }

    /// Takes one token.
    pub fn token(&mut self, token: &XmlToken)
        ensures
            final(self)@ == after_token(old(self)@, token@),
    {
        match token {
            XmlToken::Start(name) => {
                self.start(classify_tag(name.as_slice()));
            },
            XmlToken::End(name) => {
                self.end(classify_tag(name.as_slice()));
            },
            XmlToken::Text(text) => {
                if self.field == FeedItemField::PublicationDate {
                    match text {
                        Some(t) => {
                            self.date(parse_publication_date(t.as_str()));
                        },
                        None => {
                            self.date(None);
                        },
                    }
                } else {
                    match text {
                        Some(t) => {
                            self.text(Some(t.clone()));
                        },
                        None => {
                            self.text(None);
                        },
                    }
                }
            },
            _ => {},
        }
    }

    /// The items completed so far; an item still open is dropped.
    pub fn finish(self) -> (items: Vec<FeedItem>)
        ensures
            item_views(items@) == self@.items,
    {
        self.items
    }
}

/// Builds the items that a sequence of tokens describes.
pub fn assemble_items(tokens: &Vec<XmlToken>) -> (items: Vec<FeedItem>)
    ensures
        item_views(items@) == items_of(token_views(tokens@)),
{
    let ghost all = token_views(tokens@);
    let mut parser = FeedParser::new();
    let mut i: usize = 0;
    assert(all.take(0) =~= Seq::<TokenView>::empty());
    while i < tokens.len()
        invariant
            i <= tokens.len(),
            all == token_views(tokens@),
            parser@ == after_tokens(all.take(i as int)),
        decreases tokens.len() - i,
    {
        parser.token(&tokens[i]);
        proof {
            let next = all.take(i + 1);
            assert(next.drop_last() =~= all.take(i as int));
            assert(next.last() == tokens@[i as int]@);
        }
        i = i + 1;
    }
    assert(all.take(i as int) =~= all);
    parser.finish()
}

/// Tells whether a name is that of a feed's root.
pub fn is_feed_root(name: &[u8]) -> (r: bool)
    ensures
        r == names_feed(name@),
{
    spells(name, "rss") || spells(name, "feed") || spells(name, "rdf:RDF")
}

/// Tells whether the tokens are those of a feed: whether the first opening
/// tag among them is a feed's root.
pub fn opens_feed(tokens: &Vec<XmlToken>) -> (r: bool)
    ensures
        r == has_feed_root(token_views(tokens@)),
{
    let ghost all = token_views(tokens@);
    let mut i: usize = 0;
    assert(all.take(0) =~= Seq::<TokenView>::empty());
    while i < tokens.len()
        invariant
            i <= tokens.len(),
            all == token_views(tokens@),
            root_of(all.take(i as int)) is None,
        decreases tokens.len() - i,
    {
        proof {
            let next = all.take(i + 1);
            assert(next.drop_last() =~= all.take(i as int));
            assert(next.last() == tokens@[i as int]@);
        }
        match &tokens[i] {
            XmlToken::Start(name) => {
                let r = is_feed_root(name.as_slice());
                proof {
                    lemma_root_stays(all, i + 1);
                }
                return r;
            },
            _ => {},
        }
        i = i + 1;
    }
    assert(all.take(i as int) =~= all);
    false
}

/// Reads a raw feed. The items come out in the order in which the text
/// closes them; an item with an unreadable title, URL or date is left out.
/// The feed's own URL is left empty: the text does not say where it came
/// from. A text that the reader cannot read to its end, or whose first
/// opening tag is not a feed's root, is a `ParseError`.
pub fn parse_feed(raw_feed: &str) -> (r: Result<Feed, FetchError>)
    ensures
        match r {
            Ok(feed) => feed.url@.len() == 0 && parses_to(
                raw_feed@,
                raw_feed.spec_bytes().len(),
                item_views(feed.items@),
            ),
            Err(e) => e == FetchError::ParseError && not_a_feed(
                raw_feed@,
                raw_feed.spec_bytes().len(),
            ),
        },
{
    match read_tokens(raw_feed) {
        Some(tokens) => {
            if opens_feed(&tokens) {
                let items = assemble_items(&tokens);
                Ok(Feed { url: String::new(), items })
            } else {
                Err(FetchError::ParseError)
            }
        },
        None => Err(FetchError::ParseError),
    }
}

} // verus!
