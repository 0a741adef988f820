//! The records that the crate keeps about subscribers.

use vstd::prelude::*;

verus! {

/// The views of a sequence of strings, in order.
pub open spec fn texts(words: Seq<String>) -> Seq<Seq<char>> {
    Seq::new(words.len(), |i: int| words[i]@)
}

/// A feed, named by its URL: the unit of polling.
#[derive(Debug)]
pub struct Feed {
    pub url: String,
}

/// A group of a subscriber's feeds with a keyword whitelist and a cooldown
/// of its own, which replace the subscriber's for the feeds in it.
#[derive(Debug)]
pub struct Category {
    /// The subscriber who owns the category.
    pub user_id: i64,
    /// The category's number among its owner's categories.
    pub category_id: u32,
    pub whitelisted_words: Vec<String>,
    pub name: String,
    /// Seconds.
    pub cooldown: u64,
}

/// What a `Category` holds, as plain values.
pub struct CategoryView {
    pub user_id: i64,
    pub category_id: u32,
    pub whitelisted_words: Seq<Seq<char>>,
    pub name: Seq<char>,
    pub cooldown: u64,
}

impl View for Category {
    type V = CategoryView;

    open spec fn view(&self) -> CategoryView {
        CategoryView {
            user_id: self.user_id,
            category_id: self.category_id,
            whitelisted_words: texts(self.whitelisted_words@),
            name: self.name@,
            cooldown: self.cooldown,
        }
    }
}

/// The delivery state of one scope, that is of one subscriber and one feed,
/// seen through the feed's category if it has one: the newest item that
/// went out, and the cooldown that holds for the scope.
#[derive(Clone, Copy, Debug, PartialEq, Eq, Structural)]
pub struct FeedData {
    pub user_id: i64,
    pub category_id: Option<u32>,
    /// The publication time of the newest item delivered; `None` while the
    /// scope has never been evaluated.
    pub last_item_sent: Option<i64>,
    /// Seconds that must lie between `last_item_sent` and a new delivery.
    pub cooldown: u64,
}

/// A feed as one subscriber follows it.
#[derive(Debug)]
pub struct Subscription {
    pub feed: Feed,
    /// The category that the subscriber put the feed in, if any.
    pub category_id: Option<u32>,
    /// The publication time of the newest item delivered from this feed.
    pub last_item_sent: Option<i64>,
}

/// What a `Subscription` holds, as plain values.
pub struct SubscriptionView {
    pub url: Seq<char>,
    pub category_id: Option<u32>,
    pub last_item_sent: Option<i64>,
}

impl View for Subscription {
    type V = SubscriptionView;

    open spec fn view(&self) -> SubscriptionView {
        SubscriptionView {
            url: self.feed.url@,
            category_id: self.category_id,
            last_item_sent: self.last_item_sent,
        }
    }
}

/// A subscriber, with everything that belongs to them.
#[derive(Debug)]
pub struct User {
    /// The feeds followed, in the order in which they were added.
    pub feeds: Vec<Subscription>,
    /// The categories created, each at the position that is its number.
    pub categories: Vec<Category>,
    /// The identity that the messaging transport gives the subscriber.
    pub telegram_user_id: i64,
    /// The keywords for feeds outside any category; empty for no filter.
    pub whitelisted_words: Vec<String>,
    /// The cooldown for feeds outside any category, in seconds.
    pub cooldown: u64,
}

/// What a `User` holds, as plain values.
pub struct UserView {
    pub feeds: Seq<SubscriptionView>,
    pub categories: Seq<CategoryView>,
    pub telegram_user_id: i64,
    pub whitelisted_words: Seq<Seq<char>>,
    pub cooldown: u64,
}

/// The views of a sequence of subscriptions, in order.
pub open spec fn subscription_views(feeds: Seq<Subscription>) -> Seq<SubscriptionView> {
    Seq::new(feeds.len(), |i: int| feeds[i]@)
}

/// The views of a sequence of categories, in order.
pub open spec fn category_views(categories: Seq<Category>) -> Seq<CategoryView> {
    Seq::new(categories.len(), |i: int| categories[i]@)
}

impl View for User {
    type V = UserView;

    open spec fn view(&self) -> UserView {
        UserView {
            feeds: subscription_views(self.feeds@),
            categories: category_views(self.categories@),
            telegram_user_id: self.telegram_user_id,
            whitelisted_words: texts(self.whitelisted_words@),
            cooldown: self.cooldown,
        }
    }
}

/// A subscriber with the given identity who follows nothing, filters
/// nothing and waits for nothing.
pub open spec fn blank_user(id: i64) -> UserView {
    UserView {
        feeds: Seq::empty(),
        categories: Seq::empty(),
        telegram_user_id: id,
        whitelisted_words: Seq::empty(),
        cooldown: 0,
    }
}

impl Default for User {
    fn default() -> (r: User)
        ensures
            r@ == blank_user(0),
    {
        let r = User {
            telegram_user_id: 0,
            feeds: Vec::new(),
            categories: Vec::new(),
            whitelisted_words: Vec::new(),
            cooldown: 0,
        };
        assert(r@.feeds =~= Seq::<SubscriptionView>::empty());
        assert(r@.categories =~= Seq::<CategoryView>::empty());
        assert(r@.whitelisted_words =~= Seq::<Seq<char>>::empty());
        r
    }
}

} // verus!
