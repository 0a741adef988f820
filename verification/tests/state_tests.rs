use feed_notifier::domain_types::{FeedData, User};
use feed_notifier::feed_url::{accepts, validate_feed_url, Error};
use feed_notifier::state::{clone_words, has_word, State};

const T0: i64 = 1_700_000_000;
const FEED: &str = "http://example.org/feed.xml";
const OTHER: &str = "https://example.com/atom";

fn words(list: &[&str]) -> Vec<String> {
    list.iter().map(|w| w.to_string()).collect()
}

#[test]
fn new_index_is_empty() {
    let state = State::new();
    assert_eq!(state.len(), 0);
    assert!(!state.is_registered(1));
    assert!(state.user(1).is_none());
    assert_eq!(state.find_user(1), None);
    assert!(state.feed_urls().is_empty());
    assert!(state.subscribers_of(FEED).is_empty());
}

#[test]
fn default_user_is_blank() {
    let user = User::default();
    assert_eq!(user.telegram_user_id, 0);
    assert!(user.feeds.is_empty());
    assert!(user.categories.is_empty());
    assert!(user.whitelisted_words.is_empty());
    assert_eq!(user.cooldown, 0);
}

#[test]
fn registering_twice_changes_nothing() {
    let mut state = State::new();
    assert!(state.register_user(5));
    assert!(state.register_user(-3));
    assert!(!state.register_user(5));
    assert_eq!(state.len(), 2);
    assert_eq!(state.find_user(5), Some(0));
    assert_eq!(state.find_user(-3), Some(1));
    assert_eq!(state.user(5).unwrap().telegram_user_id, 5);
    assert!(state.user(5).unwrap().feeds.is_empty());
}

#[test]
fn unregistering_removes_the_subscriber_with_all_state() {
    let mut state = State::new();
    state.register_user(1);
    state.register_user(2);
    state.register_user(3);
    assert_eq!(state.add_feed(2, FEED, T0), Ok(1));
    assert!(state.unregister_user(2));
    assert!(!state.unregister_user(2));
    assert_eq!(state.len(), 2);
    assert_eq!(state.find_user(1), Some(0));
    assert_eq!(state.find_user(3), Some(1));
    assert!(state.feed_urls().is_empty());
    assert!(state.subscribers_of(FEED).is_empty());
    assert!(state.register_user(2));
    assert!(state.user(2).unwrap().feeds.is_empty());
}

#[test]
fn add_feed_seeds_the_delivery_state_with_now() {
    let mut state = State::new();
    state.register_user(1);
    assert_eq!(state.add_feed(1, FEED, T0), Ok(1));
    let user = state.user(1).unwrap();
    assert_eq!(user.feeds.len(), 1);
    assert_eq!(user.feeds[0].feed.url, FEED);
    assert_eq!(user.feeds[0].category_id, None);
    assert_eq!(user.feeds[0].last_item_sent, Some(T0));
}

#[test]
fn add_feed_deduplicates_per_subscriber() {
    let mut state = State::new();
    state.register_user(1);
    state.register_user(2);
    assert_eq!(state.add_feed(1, FEED, T0), Ok(1));
    assert_eq!(state.add_feed(1, FEED, T0 + 50), Ok(0));
    assert_eq!(state.add_feed(1, OTHER, T0 + 60), Ok(1));
    assert_eq!(state.add_feed(2, FEED, T0 + 70), Ok(1));
    assert_eq!(state.user(1).unwrap().feeds.len(), 2);
    assert_eq!(state.user(1).unwrap().feeds[0].last_item_sent, Some(T0));
    assert_eq!(state.user(2).unwrap().feeds[0].last_item_sent, Some(T0 + 70));
    assert_eq!(state.feed_urls(), vec![FEED.to_string(), OTHER.to_string()]);
}

#[test]
fn add_feed_rejects_what_is_no_hierarchical_url() {
    let mut state = State::new();
    state.register_user(1);
    assert_eq!(state.add_feed(1, "not a url", T0), Err(Error::InvalidFeedUrl));
    assert_eq!(state.add_feed(1, "", T0), Err(Error::InvalidFeedUrl));
    assert_eq!(state.add_feed(1, "mailto:someone@example.org", T0), Err(Error::InvalidFeedUrl));
    assert_eq!(state.add_feed(1, "data:text/plain,Stuff", T0), Err(Error::InvalidFeedUrl));
    assert_eq!(state.add_feed(1, "//example.org/relative", T0), Err(Error::InvalidFeedUrl));
    assert_eq!(state.add_feed(99, "not a url", T0), Err(Error::InvalidFeedUrl));
    assert!(state.user(1).unwrap().feeds.is_empty());
    assert_eq!(state.add_feed(1, "ftp://example.org/feed", T0), Ok(1));
    assert_eq!(state.add_feed(1, "unix:/run/foo.socket", T0), Ok(1));
}

#[test]
fn url_validation_goes_by_the_parsed_reading() {
    assert_eq!(validate_feed_url(FEED), Ok(()));
    assert_eq!(validate_feed_url("mailto:a@b.c"), Err(Error::InvalidFeedUrl));
    assert_eq!(validate_feed_url("feed.xml"), Err(Error::InvalidFeedUrl));
    assert!(accepts(Some(false)));
    assert!(!accepts(Some(true)));
    assert!(!accepts(None));
}

#[test]
fn add_feed_for_an_unknown_subscriber_adds_nothing() {
    let mut state = State::new();
    assert_eq!(state.add_feed(1, FEED, T0), Ok(0));
    assert_eq!(state.subscribe(1, FEED.to_string(), T0), 0);
    assert_eq!(state.len(), 0);
}

#[test]
fn subscribe_does_not_look_at_the_url() {
    let mut state = State::new();
    state.register_user(1);
    assert_eq!(state.subscribe(1, "whatever".to_string(), T0), 1);
    assert_eq!(state.subscribe(1, "whatever".to_string(), T0), 0);
    assert_eq!(state.user(1).unwrap().find_feed(&"whatever".to_string()), Some(0));
    assert_eq!(state.user(1).unwrap().find_feed(&"Whatever".to_string()), None);
}

#[test]
fn remove_feed_drops_its_delivery_state() {
    let mut state = State::new();
    state.register_user(1);
    state.add_feed(1, FEED, T0).unwrap();
    state.add_feed(1, OTHER, T0).unwrap();
    assert!(state.record_delivery(1, FEED, T0 + 500));
    assert!(state.remove_feed(1, FEED));
    assert!(!state.remove_feed(1, FEED));
    assert!(!state.remove_feed(2, OTHER));
    assert_eq!(state.user(1).unwrap().feeds.len(), 1);
    assert_eq!(state.user(1).unwrap().feeds[0].feed.url, OTHER);
    assert_eq!(state.feed_urls(), vec![OTHER.to_string()]);
    assert_eq!(state.add_feed(1, FEED, T0 + 900), Ok(1));
    assert_eq!(state.user(1).unwrap().feeds[1].last_item_sent, Some(T0 + 900));
}

#[test]
fn record_delivery_never_moves_backward() {
    let mut state = State::new();
    state.register_user(1);
    state.add_feed(1, FEED, T0).unwrap();
    assert!(state.record_delivery(1, FEED, T0 + 10));
    assert_eq!(state.user(1).unwrap().feeds[0].last_item_sent, Some(T0 + 10));
    assert!(state.record_delivery(1, FEED, T0 + 5));
    assert_eq!(state.user(1).unwrap().feeds[0].last_item_sent, Some(T0 + 10));
    assert!(state.record_delivery(1, FEED, T0 - 5));
    assert_eq!(state.user(1).unwrap().feeds[0].last_item_sent, Some(T0 + 10));
    assert!(!state.record_delivery(1, OTHER, T0 + 99));
    assert!(!state.record_delivery(2, FEED, T0 + 99));
    assert_eq!(state.user(1).unwrap().feeds[0].last_item_sent, Some(T0 + 10));
}

#[test]
fn scopes_resolve_subscriber_defaults() {
    let mut state = State::new();
    state.register_user(1);
    assert!(state.set_preferences(1, 3600, words(&["rust"])));
    assert!(!state.set_preferences(2, 1, words(&[])));
    state.add_feed(1, FEED, T0).unwrap();
    let scopes = state.subscribers_of(FEED);
    assert_eq!(scopes.len(), 1);
    assert_eq!(scopes[0].whitelist, words(&["rust"]));
    assert_eq!(
        scopes[0].data,
        FeedData { user_id: 1, category_id: None, last_item_sent: Some(T0), cooldown: 3600 }
    );
}

#[test]
fn category_cooldown_overrides_the_subscribers() {
    let mut state = State::new();
    state.register_user(1);
    state.set_preferences(1, 60 * 60, words(&["default"]));
    state.add_feed(1, FEED, T0).unwrap();
    state.add_feed(1, OTHER, T0).unwrap();
    let news = state.add_category(1, "news".to_string(), words(&["breaking"]), 5 * 60);
    assert_eq!(news, Some(0));
    assert!(state.assign_category(1, FEED, news));

    let scopes = state.subscribers_of(FEED);
    assert_eq!(scopes[0].data.cooldown, 5 * 60);
    assert_eq!(scopes[0].data.category_id, Some(0));
    assert_eq!(scopes[0].whitelist, words(&["breaking"]));
    assert!(!scopes[0].data.eligible(T0 + 1, T0 + 5 * 60 - 1));
    assert!(scopes[0].data.eligible(T0 + 1, T0 + 5 * 60));

    let outside = state.subscribers_of(OTHER);
    assert_eq!(outside[0].data.cooldown, 60 * 60);
    assert_eq!(outside[0].whitelist, words(&["default"]));
    assert!(!outside[0].data.eligible(T0 + 1, T0 + 5 * 60));
    assert!(outside[0].data.eligible(T0 + 1, T0 + 60 * 60));

    assert!(state.assign_category(1, FEED, None));
    assert_eq!(state.subscribers_of(FEED)[0].data.cooldown, 60 * 60);
}

#[test]
fn categories_are_numbered_by_position() {
    let mut state = State::new();
    state.register_user(1);
    assert_eq!(state.add_category(2, "x".to_string(), words(&[]), 1), None);
    assert_eq!(state.add_category(1, "a".to_string(), words(&[]), 1), Some(0));
    assert_eq!(state.add_category(1, "b".to_string(), words(&["w"]), 2), Some(1));
    let user = state.user(1).unwrap();
    assert_eq!(user.categories.len(), 2);
    assert_eq!(user.categories[1].category_id, 1);
    assert_eq!(user.categories[1].user_id, 1);
    assert_eq!(user.categories[1].name, "b");
    assert_eq!(user.categories[1].cooldown, 2);
    assert_eq!(user.categories[1].whitelisted_words, words(&["w"]));
}

#[test]
fn assign_category_needs_a_feed_and_a_category() {
    let mut state = State::new();
    state.register_user(1);
    state.add_feed(1, FEED, T0).unwrap();
    assert!(!state.assign_category(1, FEED, Some(0)));
    state.add_category(1, "a".to_string(), words(&[]), 1);
    assert!(!state.assign_category(1, OTHER, Some(0)));
    assert!(!state.assign_category(2, FEED, Some(0)));
    assert!(!state.assign_category(1, FEED, Some(1)));
    assert!(state.assign_category(1, FEED, Some(0)));
    assert_eq!(state.user(1).unwrap().feeds[0].category_id, Some(0));
    assert_eq!(state.user(1).unwrap().feeds[0].last_item_sent, Some(T0));
}

#[test]
fn subscribers_of_lists_every_follower_in_index_order() {
    let mut state = State::new();
    for id in [10, 20, 30] {
        state.register_user(id);
    }
    state.add_feed(30, FEED, T0 + 3).unwrap();
    state.add_feed(10, OTHER, T0 + 1).unwrap();
    state.add_feed(10, FEED, T0 + 2).unwrap();
    let scopes = state.subscribers_of(FEED);
    assert_eq!(scopes.len(), 2);
    assert_eq!(scopes[0].data.user_id, 10);
    assert_eq!(scopes[0].data.last_item_sent, Some(T0 + 2));
    assert_eq!(scopes[1].data.user_id, 30);
    assert_eq!(scopes[1].data.last_item_sent, Some(T0 + 3));
    assert_eq!(state.feed_urls(), vec![OTHER.to_string(), FEED.to_string()]);
}

#[test]
fn snapshot_does_not_follow_later_changes() {
    let mut state = State::new();
    state.register_user(1);
    state.add_feed(1, FEED, T0).unwrap();
    let before = state.subscribers_of(FEED);
    state.record_delivery(1, FEED, T0 + 100);
    state.remove_feed(1, FEED);
    assert_eq!(before.len(), 1);
    assert_eq!(before[0].data.last_item_sent, Some(T0));
    assert!(state.subscribers_of(FEED).is_empty());
}

#[test]
fn word_helpers_compare_whole_words() {
    let list = words(&["a", "bc"]);
    assert!(has_word(&list, &"bc".to_string()));
    assert!(!has_word(&list, &"b".to_string()));
    assert!(!has_word(&words(&[]), &"".to_string()));
    assert_eq!(clone_words(&list), list);
}

fn stored_user(id: i64, urls: &[&str]) -> User {
    let mut user = User::default();
    user.telegram_user_id = id;
    for url in urls {
        user.feeds.push(feed_notifier::domain_types::Subscription {
            feed: feed_notifier::domain_types::Feed { url: url.to_string() },
            category_id: None,
            last_item_sent: Some(T0),
        });
    }
    user
}

fn category(owner: i64, number: u32) -> feed_notifier::domain_types::Category {
    feed_notifier::domain_types::Category {
        user_id: owner,
        category_id: number,
        whitelisted_words: Vec::new(),
        name: format!("c{}", number),
        cooldown: 9,
    }
}

#[test]
fn stored_subscribers_load_when_they_fit_together() {
    let mut second = stored_user(2, &[FEED, OTHER]);
    second.categories.push(category(2, 0));
    second.feeds[1].category_id = Some(0);
    let state = State::load(vec![stored_user(1, &[FEED]), second]).unwrap();
    assert_eq!(state.len(), 2);
    assert_eq!(state.users().len(), 2);
    assert_eq!(state.users()[1].telegram_user_id, 2);
    assert_eq!(state.subscribers_of(OTHER)[0].data.cooldown, 9);
    assert_eq!(state.subscribers_of(FEED).len(), 2);
    assert!(State::load(Vec::new()).is_some());
}

#[test]
fn stored_subscribers_that_do_not_fit_are_turned_down() {
    assert!(State::load(vec![stored_user(1, &[]), stored_user(1, &[])]).is_none());
    assert!(State::load(vec![stored_user(1, &[FEED, OTHER, FEED])]).is_none());
    assert!(!stored_user(1, &[FEED, FEED]).is_valid());
    assert!(stored_user(1, &[FEED, OTHER]).is_valid());

    let mut misnumbered = stored_user(1, &[]);
    misnumbered.categories.push(category(1, 1));
    assert!(!misnumbered.is_valid());
    assert!(State::load(vec![misnumbered]).is_none());

    let mut foreign = stored_user(1, &[]);
    foreign.categories.push(category(2, 0));
    assert!(!foreign.is_valid());

    let mut dangling = stored_user(1, &[FEED]);
    dangling.feeds[0].category_id = Some(0);
    assert!(!dangling.is_valid());
    dangling.categories.push(category(1, 0));
    assert!(dangling.is_valid());
}

#[test]
fn loaded_index_works_like_any_other() {
    let mut state = State::load(vec![stored_user(1, &[FEED])]).unwrap();
    assert_eq!(state.add_feed(1, FEED, T0 + 5), Ok(0));
    assert_eq!(state.add_feed(1, OTHER, T0 + 5), Ok(1));
    assert!(state.record_delivery(1, FEED, T0 + 9));
    assert_eq!(state.users()[0].feeds[0].last_item_sent, Some(T0 + 9));
    assert!(!state.register_user(1));
}

#[test]
fn scope_of_a_position_without_a_feed_is_none() {
    let user = stored_user(1, &[FEED]);
    assert_eq!(user.scope(0).unwrap().data.last_item_sent, Some(T0));
    assert!(user.scope(1).is_none());
}
