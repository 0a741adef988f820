use feed_notifier::rss_bot::{
    clip, extract_url, extract_urls, parse_command, Command, Message, MessageEntity,
    MessageEntityKind, ParseMode, RssBot, HELP_TEXT,
};
use feed_notifier::text::push_decimal;

const T0: i64 = 1_700_000_000;

fn text(from: i64, body: &str) -> Message {
    Message { from, text: Some(body.to_string()), entities: Vec::new() }
}

fn url_at(offset: i64, length: i64) -> MessageEntity {
    MessageEntity { kind: MessageEntityKind::Url, offset, length }
}

fn add(from: i64, body: &str, urls: &[&str]) -> Message {
    let entities = urls
        .iter()
        .map(|u| url_at(body.find(u).unwrap() as i64, u.len() as i64))
        .collect();
    Message { from, text: Some(body.to_string()), entities }
}

#[test]
fn commands_are_read_from_the_text() {
    assert_eq!(parse_command("/start"), Command::Start);
    assert_eq!(parse_command("/stop"), Command::Stop);
    assert_eq!(parse_command("/add"), Command::Add);
    assert_eq!(parse_command("/add http://example.org/feed"), Command::Add);
    assert_eq!(parse_command("/address"), Command::Add);
    assert_eq!(parse_command("/start now"), Command::Help);
    assert_eq!(parse_command(" /start"), Command::Help);
    assert_eq!(parse_command("/Stop"), Command::Help);
    assert_eq!(parse_command("/help"), Command::Help);
    assert_eq!(parse_command("/ad"), Command::Help);
    assert_eq!(parse_command(""), Command::Help);
    assert_eq!(RssBot::command(&text(1, "/stop")), Command::Stop);
    let photo = Message { from: 1, text: None, entities: Vec::new() };
    assert_eq!(RssBot::command(&photo), Command::Help);
}

#[test]
fn help_lists_the_commands() {
    let mut bot = RssBot::new();
    let reply = bot.dispatch(&text(1, "what?"), T0);
    assert_eq!(reply.text, HELP_TEXT);
    assert_eq!(reply.parse_mode, ParseMode::Markdown);
    assert!(reply.text.starts_with("Hey there!\nYou can use one of the following commands:\n`/start`"));
    assert!(reply.text.ends_with("`/del <feed IDs>` - _unsubscribe from feeds using their IDs_\n    "));
    assert_eq!(bot.show_help().text, HELP_TEXT);
    assert_eq!(bot.state.len(), 0);
}

#[test]
fn start_registers_once() {
    let mut bot = RssBot::new();
    let reply = bot.dispatch(&text(7, "/start"), T0);
    assert_eq!(
        reply.text,
        "Successfully registered! Now you can add new feeds with `/add <atom/feed URLs>`"
    );
    assert_eq!(reply.parse_mode, ParseMode::Markdown);
    assert!(bot.state.is_registered(7));
    let again = bot.dispatch(&text(7, "/start"), T0);
    assert_eq!(again.text, "You're already registered!");
    assert_eq!(again.parse_mode, ParseMode::Markdown);
    assert_eq!(bot.state.len(), 1);
}

#[test]
fn stop_unregisters_and_forgets_everything() {
    let mut bot = RssBot::new();
    let stranger = bot.dispatch(&text(7, "/stop"), T0);
    assert_eq!(stranger.text, "We haven't started anything yet \u{1f61c}");
    assert_eq!(stranger.parse_mode, ParseMode::Plain);
    bot.dispatch(&text(7, "/start"), T0);
    bot.dispatch(&add(7, "/add http://example.org/feed", &["http://example.org/feed"]), T0);
    let reply = bot.dispatch(&text(7, "/stop"), T0);
    assert_eq!(reply.text, "It's painful to see you go. Godspeed you, though!");
    assert_eq!(reply.parse_mode, ParseMode::Plain);
    assert!(!bot.state.is_registered(7));
    assert!(bot.state.feed_urls().is_empty());
}

#[test]
fn add_needs_a_registered_sender() {
    let mut bot = RssBot::new();
    let message = add(7, "/add http://example.org/feed", &["http://example.org/feed"]);
    let reply = bot.dispatch(&message, T0);
    assert_eq!(reply.text, "Please authorize before sending this command!");
    assert_eq!(reply.parse_mode, ParseMode::Plain);
    assert_eq!(bot.state.len(), 0);
    assert!(bot.authorized(&message).is_some());
    bot.register_user(&message);
    assert!(bot.authorized(&message).is_none());
}

#[test]
fn add_counts_the_feeds_it_added() {
    let mut bot = RssBot::new();
    bot.dispatch(&text(7, "/start"), T0);
    let body = "/add http://example.org/a https://example.org/b mailto:x@example.org http://example.org/a";
    let mut message = add(7, body, &["http://example.org/a", "https://example.org/b", "mailto:x@example.org"]);
    message.entities.push(url_at(body.rfind("http://example.org/a").unwrap() as i64, 20));
    message.entities.push(MessageEntity { kind: MessageEntityKind::Other, offset: 0, length: 4 });
    let reply = bot.dispatch(&message, T0 + 3);
    assert_eq!(reply.text, "Successfully added 2 feed URLs!");
    assert_eq!(reply.parse_mode, ParseMode::Markdown);
    let user = bot.state.user(7).unwrap();
    assert_eq!(user.feeds.len(), 2);
    assert_eq!(user.feeds[0].feed.url, "http://example.org/a");
    assert_eq!(user.feeds[1].feed.url, "https://example.org/b");
    assert_eq!(user.feeds[1].last_item_sent, Some(T0 + 3));

    let again = bot.dispatch(&message, T0 + 9);
    assert_eq!(again.text, "Couldn't parse any feed URLs!");
    assert_eq!(again.parse_mode, ParseMode::Markdown);
    assert_eq!(bot.state.user(7).unwrap().feeds[0].last_item_sent, Some(T0 + 3));
}

#[test]
fn add_without_urls_adds_nothing() {
    let mut bot = RssBot::new();
    bot.dispatch(&text(7, "/start"), T0);
    assert_eq!(bot.dispatch(&text(7, "/add"), T0).text, "Couldn't parse any feed URLs!");
    assert_eq!(bot.dispatch(&text(7, "/add http://example.org/unmarked"), T0).text, "Couldn't parse any feed URLs!");
    let no_text = Message { from: 7, text: None, entities: vec![url_at(0, 3)] };
    assert_eq!(bot.add_feed(&no_text, T0).text, "Couldn't parse any feed URLs!");
    assert!(bot.state.user(7).unwrap().feeds.is_empty());
}

#[test]
fn add_reports_counts_above_nine_in_decimal() {
    let mut bot = RssBot::new();
    bot.dispatch(&text(7, "/start"), T0);
    let mut body = String::from("/add");
    let mut entities = Vec::new();
    for n in 0..12 {
        let url = format!("http://example.org/feed{}", n);
        body.push(' ');
        entities.push(url_at(body.len() as i64, url.len() as i64));
        body.push_str(&url);
    }
    let reply = bot.dispatch(&Message { from: 7, text: Some(body), entities }, T0);
    assert_eq!(reply.text, "Successfully added 12 feed URLs!");
    assert_eq!(bot.state.user(7).unwrap().feeds.len(), 12);
}

#[test]
fn numbers_are_written_in_decimal() {
    for (n, want) in [(0usize, "0"), (7, "7"), (10, "10"), (99, "99"), (100, "100"), (4096, "4096"), (1_000_000_007, "1000000007")] {
        let mut s = String::from("n=");
        push_decimal(&mut s, n);
        assert_eq!(s, format!("n={}", want));
    }
    let mut s = String::new();
    push_decimal(&mut s, usize::MAX);
    assert_eq!(s, format!("{}", usize::MAX));
}

#[test]
fn entities_mark_urls_by_byte_ranges() {
    let body = "see http://example.org/x now";
    assert_eq!(extract_url(body, &url_at(4, 20)), Some("http://example.org/x".to_string()));
    assert_eq!(extract_url(body, &url_at(0, 0)), Some(String::new()));
    assert_eq!(extract_url(body, &url_at(28, 0)), Some(String::new()));
    assert_eq!(extract_url(body, &url_at(4, 25)), None);
    assert_eq!(extract_url(body, &url_at(29, 0)), None);
    assert_eq!(extract_url(body, &url_at(-1, 5)), None);
    assert_eq!(extract_url(body, &url_at(4, -1)), None);
    assert_eq!(extract_url(body, &url_at(i64::MAX, i64::MAX)), None);
    assert_eq!(extract_url(body, &MessageEntity { kind: MessageEntityKind::Other, offset: 4, length: 20 }), None);
    let list = vec![url_at(4, 4), url_at(100, 1), url_at(8, 3)];
    assert_eq!(extract_urls(body, &list), vec!["http".to_string(), "://".to_string()]);
}

#[test]
fn ranges_that_split_a_character_are_passed_over() {
    let body = "caf\u{e9} http://x.example/";
    assert_eq!(clip(body, 0, 3), Some("caf".to_string()));
    assert_eq!(clip(body, 0, 5), Some("caf\u{e9}".to_string()));
    assert_eq!(clip(body, 0, 4), None);
    assert_eq!(clip(body, 4, 5), None);
    assert_eq!(clip(body, 3, 5), Some("\u{e9}".to_string()));
    assert_eq!(clip(body, 5, 4), None);
    assert_eq!(clip(body, 6, 23), Some("http://x.example/".to_string()));
    assert_eq!(clip(body, 6, 24), None);
    assert_eq!(extract_url(body, &url_at(4, 19)), None);
    assert_eq!(extract_url(body, &url_at(6, 17)), Some("http://x.example/".to_string()));
}

#[test]
fn answers_to_the_sender_quote_the_message() {
    let mut bot = RssBot::new();
    assert!(!bot.dispatch(&text(7, "/help"), T0).quotes);
    assert!(bot.dispatch(&text(7, "/stop"), T0).quotes);
    assert!(bot.dispatch(&text(7, "/add"), T0).quotes);
    assert!(bot.dispatch(&text(7, "/start"), T0).quotes);
    assert!(bot.dispatch(&text(7, "/start"), T0).quotes);
    assert!(!bot.dispatch(&text(7, "/add"), T0).quotes);
    assert!(bot.dispatch(&text(7, "/stop"), T0).quotes);
}
