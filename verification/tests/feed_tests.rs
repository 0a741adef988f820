use feed_notifier::clock::{choose_reading, parse_publication_date};
use feed_notifier::feed::{
    assemble_items, classify_tag, is_feed_root, opens_feed, parse_feed, FeedItem, FeedItemField,
    FeedParser, FetchError, TagKind,
};
use feed_notifier::xml::{read_tokens, take_token, Reading, XmlToken};

const RSS: &str = "<?xml version=\"1.0\" encoding=\"UTF-8\"?>\n<rss version=\"2.0\">\n<channel>\n  <title>Example channel</title>\n  <link>http://example.org/</link>\n  <item>\n    <title>First &amp; foremost</title>\n    <link>http://example.org/1</link>\n    <pubDate>Wed, 18 Feb 2015 23:16:09 GMT</pubDate>\n  </item>\n  <item>\n    <title><![CDATA[Second]]></title>\n    <link>http://example.org/2</link>\n    <pubDate>Thu, 19 Feb 2015 00:00:00 +0100</pubDate>\n    <description>ignored</description>\n  </item>\n</channel>\n</rss>\n";

const ATOM: &str = "<feed xmlns=\"http://www.w3.org/2005/Atom\">\n  <title>Example feed</title>\n  <entry>\n    <title>Atom entry</title>\n    <link href=\"http://example.org/a\"/>\n    <updated>1996-12-19T16:39:57-08:00</updated>\n  </entry>\n</feed>\n";

#[test]
fn feed_parsing_test() {
    let rss = parse_feed(RSS).expect("an RSS feed parses");
    assert_eq!(rss.items.len(), 2);
    let atom = parse_feed(ATOM).expect("an Atom feed parses");
    assert_eq!(atom.items.len(), 1);
}

#[test]
fn rss_items_carry_title_link_and_date() {
    let feed = parse_feed(RSS).unwrap();
    assert_eq!(feed.url, "");
    assert_eq!(feed.items[0].title, "First & foremost");
    assert_eq!(feed.items[0].url, "http://example.org/1");
    assert_eq!(feed.items[0].publication_date, 1424301369);
    assert_eq!(feed.items[1].title, "Second");
    assert_eq!(feed.items[1].url, "http://example.org/2");
    assert_eq!(feed.items[1].publication_date, 1424300400);
}

#[test]
fn atom_entry_takes_rfc3339_date_and_no_link_text() {
    let feed = parse_feed(ATOM).unwrap();
    assert_eq!(feed.items[0].title, "Atom entry");
    assert_eq!(feed.items[0].url, "");
    assert_eq!(feed.items[0].publication_date, 851042397);
}

#[test]
fn item_with_malformed_date_is_skipped_and_the_rest_kept() {
    let raw = "<rss><channel><item><title>bad</title><pubDate>yesterday</pubDate></item><item><title>good</title><pubDate>Wed, 18 Feb 2015 23:16:09 GMT</pubDate></item></channel></rss>";
    let feed = parse_feed(raw).unwrap();
    assert_eq!(feed.items.len(), 1);
    assert_eq!(feed.items[0].title, "good");
}

#[test]
fn item_with_unreadable_title_is_skipped() {
    let raw = "<rss><item><title>a &bogus; b</title></item><item><title>fine</title></item></rss>";
    let feed = parse_feed(raw).unwrap();
    assert_eq!(feed.items.len(), 1);
    assert_eq!(feed.items[0].title, "fine");
}

#[test]
fn item_without_date_is_published_at_the_epoch() {
    let feed = parse_feed("<rss><item><title>t</title></item></rss>").unwrap();
    assert_eq!(feed.items.len(), 1);
    assert_eq!(feed.items[0].publication_date, 0);
}

#[test]
fn malformed_xml_is_a_parse_error() {
    assert_eq!(parse_feed("<rss><item></channel>").err(), Some(FetchError::ParseError));
    assert_eq!(parse_feed("<rss><!-- never closed").err(), Some(FetchError::ParseError));
}

#[test]
fn text_without_a_feed_root_is_a_parse_error() {
    assert_eq!(parse_feed("").err(), Some(FetchError::ParseError));
    assert_eq!(parse_feed("just some words").err(), Some(FetchError::ParseError));
    assert_eq!(parse_feed("<!-- only a comment -->").err(), Some(FetchError::ParseError));
    assert_eq!(
        parse_feed("<html><body><item><title>t</title></item></body></html>").err(),
        Some(FetchError::ParseError)
    );
    assert_eq!(parse_feed("<RSS><item></item></RSS>").err(), Some(FetchError::ParseError));
    assert_eq!(parse_feed("<rss/>").err(), Some(FetchError::ParseError));
    assert_eq!(parse_feed("<channel><rss></rss></channel>").err(), Some(FetchError::ParseError));
}

#[test]
fn feed_without_items_is_an_empty_feed() {
    assert_eq!(parse_feed("<rss></rss>").unwrap().items.len(), 0);
    assert_eq!(parse_feed("<?xml version=\"1.0\"?>\n<feed></feed>").unwrap().items.len(), 0);
    let rdf = "<rdf:RDF><item><title>one</title></item></rdf:RDF>";
    assert_eq!(parse_feed(rdf).unwrap().items.len(), 1);
}

#[test]
fn the_same_text_parses_the_same_way_each_time() {
    let first = parse_feed(RSS).unwrap();
    let second = parse_feed(RSS).unwrap();
    assert_eq!(first.items.len(), second.items.len());
    for (a, b) in first.items.iter().zip(second.items.iter()) {
        assert!(a.same_as(b));
        assert_eq!(a.title, b.title);
    }
    assert_eq!(parse_feed("<rss><item>").err(), parse_feed("<rss><item>").err());
}

#[test]
fn first_opening_tag_decides_whether_the_tokens_are_a_feed() {
    assert!(is_feed_root(b"rss"));
    assert!(is_feed_root(b"feed"));
    assert!(is_feed_root(b"rdf:RDF"));
    assert!(!is_feed_root(b"Rss"));
    assert!(!is_feed_root(b"feeds"));
    assert!(!is_feed_root(b""));
    assert!(opens_feed(&vec![XmlToken::Other, XmlToken::Start(b"rss".to_vec()), XmlToken::Eof]));
    assert!(!opens_feed(&vec![
        XmlToken::Start(b"html".to_vec()),
        XmlToken::Start(b"rss".to_vec()),
        XmlToken::Eof
    ]));
    assert!(!opens_feed(&vec![XmlToken::End(b"rss".to_vec()), XmlToken::Eof]));
    assert!(!opens_feed(&Vec::new()));
}

#[test]
fn unclosed_item_is_dropped() {
    let tokens = vec![
        XmlToken::Start(b"item".to_vec()),
        XmlToken::Start(b"title".to_vec()),
        XmlToken::Text(Some("open".to_string())),
        XmlToken::Eof,
    ];
    assert_eq!(assemble_items(&tokens).len(), 0);
}

#[test]
fn closing_tag_without_item_changes_nothing() {
    let tokens = vec![XmlToken::End(b"item".to_vec()), XmlToken::Eof];
    assert_eq!(assemble_items(&tokens).len(), 0);
}

#[test]
fn text_outside_an_item_is_ignored() {
    let tokens = vec![
        XmlToken::Start(b"title".to_vec()),
        XmlToken::Text(Some("channel".to_string())),
        XmlToken::End(b"title".to_vec()),
        XmlToken::Start(b"entry".to_vec()),
        XmlToken::End(b"entry".to_vec()),
    ];
    let items = assemble_items(&tokens);
    assert_eq!(items.len(), 1);
    assert_eq!(items[0].title, "");
}

#[test]
fn tokens_build_items_in_closing_order() {
    let tokens = vec![
        XmlToken::Start(b"item".to_vec()),
        XmlToken::Start(b"title".to_vec()),
        XmlToken::Text(Some("one".to_string())),
        XmlToken::End(b"title".to_vec()),
        XmlToken::Start(b"link".to_vec()),
        XmlToken::Text(Some("http://x/1".to_string())),
        XmlToken::End(b"link".to_vec()),
        XmlToken::Start(b"published".to_vec()),
        XmlToken::Text(Some("2015-02-18T23:16:09Z".to_string())),
        XmlToken::End(b"published".to_vec()),
        XmlToken::Start(b"guid".to_vec()),
        XmlToken::Text(Some("ignored".to_string())),
        XmlToken::End(b"guid".to_vec()),
        XmlToken::End(b"item".to_vec()),
        XmlToken::Other,
        XmlToken::Start(b"item".to_vec()),
        XmlToken::Start(b"title".to_vec()),
        XmlToken::Text(None),
        XmlToken::End(b"item".to_vec()),
        XmlToken::Start(b"item".to_vec()),
        XmlToken::Start(b"title".to_vec()),
        XmlToken::Text(Some("three".to_string())),
        XmlToken::End(b"item".to_vec()),
        XmlToken::Eof,
    ];
    let items = assemble_items(&tokens);
    assert_eq!(items.len(), 2);
    assert_eq!(items[0].title, "one");
    assert_eq!(items[0].url, "http://x/1");
    assert_eq!(items[0].publication_date, 1424301369);
    assert_eq!(items[1].title, "three");
}

#[test]
fn parser_steps_one_token_at_a_time() {
    let mut parser = FeedParser::new();
    parser.start(TagKind::Item);
    parser.start(TagKind::Field(FeedItemField::PublicationDate));
    parser.date(Some(42));
    parser.start(TagKind::Field(FeedItemField::Title));
    parser.text(Some("t".to_string()));
    parser.date(Some(7));
    parser.end(TagKind::Field(FeedItemField::Title));
    parser.end(TagKind::Item);
    parser.start(TagKind::Item);
    parser.start(TagKind::Field(FeedItemField::PublicationDate));
    parser.date(None);
    parser.end(TagKind::Item);
    let items = parser.finish();
    assert_eq!(items.len(), 1);
    assert_eq!(items[0].title, "t");
    assert_eq!(items[0].publication_date, 42);
}

#[test]
fn tag_names_are_compared_exactly() {
    assert_eq!(classify_tag(b"item"), TagKind::Item);
    assert_eq!(classify_tag(b"entry"), TagKind::Item);
    assert_eq!(classify_tag(b"title"), TagKind::Field(FeedItemField::Title));
    assert_eq!(classify_tag(b"link"), TagKind::Field(FeedItemField::URL));
    assert_eq!(classify_tag(b"pubDate"), TagKind::Field(FeedItemField::PublicationDate));
    assert_eq!(classify_tag(b"updated"), TagKind::Field(FeedItemField::PublicationDate));
    assert_eq!(classify_tag(b"published"), TagKind::Field(FeedItemField::PublicationDate));
    assert_eq!(classify_tag(b"Item"), TagKind::Field(FeedItemField::Invalid));
    assert_eq!(classify_tag(b"items"), TagKind::Field(FeedItemField::Invalid));
    assert_eq!(classify_tag(b"pubdate"), TagKind::Field(FeedItemField::Invalid));
    assert_eq!(classify_tag(b""), TagKind::Field(FeedItemField::Invalid));
    assert_eq!(classify_tag(&[0xc3, 0xa9]), TagKind::Field(FeedItemField::Invalid));
}

#[test]
fn default_item_is_blank_and_published_at_the_epoch() {
    let item = FeedItem::default();
    assert_eq!(item.title, "");
    assert_eq!(item.url, "");
    assert_eq!(item.publication_date, 0);
}

#[test]
fn dates_are_read_as_rfc2822_then_rfc3339() {
    assert_eq!(parse_publication_date("Wed, 18 Feb 2015 23:16:09 GMT"), Some(1424301369));
    assert_eq!(parse_publication_date("2015-02-18T23:16:09Z"), Some(1424301369));
    assert_eq!(parse_publication_date("1970-01-01T00:00:00+00:00"), Some(0));
    assert_eq!(parse_publication_date("1969-12-31T23:59:59Z"), Some(-1));
    assert_eq!(parse_publication_date("18 Feb 2015"), None);
    assert_eq!(parse_publication_date(""), None);
}

#[test]
fn first_reading_wins() {
    assert_eq!(choose_reading(Some(1), Some(2)), Some(1));
    assert_eq!(choose_reading(None, Some(2)), Some(2));
    assert_eq!(choose_reading(Some(1), None), Some(1));
    assert_eq!(choose_reading(None, None), None);
}

#[test]
fn tokens_end_with_eof() {
    let tokens = read_tokens("<a>x</a>").unwrap();
    assert_eq!(tokens.len(), 4);
    assert!(matches!(tokens[0], XmlToken::Start(ref n) if n == b"a"));
    assert!(matches!(tokens[1], XmlToken::Text(Some(ref t)) if t == "x"));
    assert!(matches!(tokens[2], XmlToken::End(ref n) if n == b"a"));
    assert!(matches!(tokens[3], XmlToken::Eof));
    assert!(read_tokens("<a></b>").is_none());
}

#[test]
fn repeated_items_are_dropped_and_the_first_stays() {
    let item = |title: &str, url: &str, published: i64| FeedItem {
        title: title.to_string(),
        url: url.to_string(),
        publication_date: published,
    };
    let items = vec![
        item("first", "http://x/1", 10),
        item("other url", "http://x/2", 10),
        item("again", "http://x/1", 10),
        item("republished", "http://x/1", 11),
        item("third time", "http://x/1", 10),
    ];
    let unique = feed_notifier::feed::unique_items(&items);
    let titles: Vec<&str> = unique.iter().map(|i| i.title.as_str()).collect();
    assert_eq!(titles, vec!["first", "other url", "republished"]);
    assert!(items[0].same_as(&items[2]));
    assert!(!items[0].same_as(&items[1]));
    assert!(!items[0].same_as(&items[3]));
    assert!(feed_notifier::feed::unique_items(&Vec::new()).is_empty());
}

#[test]
fn item_key_is_feed_time_and_url() {
    let item = FeedItem { title: "t".to_string(), url: "http://x/1".to_string(), publication_date: 10 };
    let key = item.key("http://feed/");
    assert_eq!(key.feed_url, "http://feed/");
    assert_eq!(key.publication_date, 10);
    assert_eq!(key.item_url, "http://x/1");
    let retitled = FeedItem { title: "u".to_string(), ..item.copy() };
    assert!(key.same(&retitled.key("http://feed/")));
    assert!(!key.same(&item.key("http://other/")));
    let moved = FeedItem { url: "http://x/2".to_string(), ..item.copy() };
    assert!(!key.same(&moved.key("http://feed/")));
    let later = FeedItem { publication_date: 11, ..item.copy() };
    assert!(!key.same(&later.key("http://feed/")));
    let copy = item.copy();
    assert_eq!((copy.title, copy.url, copy.publication_date), ("t".to_string(), "http://x/1".to_string(), 10));
}

#[test]
fn feed_files_are_numbered() {
    assert_eq!(feed_notifier::feed::feed_file_name(0), "feed0.xml");
    assert_eq!(feed_notifier::feed::feed_file_name(7), "feed7.xml");
    assert_eq!(feed_notifier::feed::feed_file_name(120), "feed120.xml");
}

#[test]
fn each_token_is_kept_or_ends_the_reading() {
    let mut tokens = Vec::new();
    assert_eq!(take_token(&mut tokens, XmlToken::Start(b"a".to_vec()), 2), Reading::More);
    assert_eq!(take_token(&mut tokens, XmlToken::Other, 2), Reading::More);
    assert_eq!(tokens.len(), 2);
    assert_eq!(take_token(&mut tokens, XmlToken::Text(None), 2), Reading::Failed);
    assert_eq!(tokens.len(), 2);
    assert_eq!(take_token(&mut tokens, XmlToken::Malformed, 9), Reading::Failed);
    assert_eq!(tokens.len(), 2);
    assert_eq!(take_token(&mut tokens, XmlToken::Eof, 2), Reading::Done);
    assert_eq!(tokens.len(), 3);
    assert!(matches!(tokens[2], XmlToken::Eof));

    let mut none = Vec::new();
    assert_eq!(take_token(&mut none, XmlToken::Eof, 0), Reading::Done);
    assert_eq!(none.len(), 1);
    let mut none = Vec::new();
    assert_eq!(take_token(&mut none, XmlToken::Other, 0), Reading::Failed);
    assert!(none.is_empty());
}
