//! The subscription index: who follows which feed, through which category,
//! and where each delivery stands.

use vstd::prelude::*;
use crate::cooldown::later;
use crate::domain_types::{
    blank_user, category_views, subscription_views, texts, Category, CategoryView, Feed, FeedData,
    Subscription, SubscriptionView, User, UserView,
};
use crate::feed_url::{valid_feed_url, validate_feed_url, Error};
use crate::lookup::{
    distinct, first_index, lemma_first_index, lemma_first_index_is, lemma_first_index_none,
};

verus! {

/// The views of a sequence of subscribers, in order.
pub open spec fn user_views(users: Seq<User>) -> Seq<UserView> {
    Seq::new(users.len(), |i: int| users[i]@)
}

/// The identities of a sequence of subscribers, in order.
pub open spec fn ids(users: Seq<UserView>) -> Seq<i64> {
    Seq::new(users.len(), |i: int| users[i].telegram_user_id)
}

/// The URLs of a sequence of subscriptions, in order.
pub open spec fn urls(feeds: Seq<SubscriptionView>) -> Seq<Seq<char>> {
    Seq::new(feeds.len(), |j: int| feeds[j].url)
}

/// Where the subscriber with this identity stands in the index.
pub open spec fn user_position(users: Seq<UserView>, id: i64) -> Option<int> {
    first_index(ids(users), id)
}

/// Where this URL stands among a subscriber's feeds.
pub open spec fn feed_position(user: UserView, url: Seq<char>) -> Option<int> {
    first_index(urls(user.feeds), url)
}

/// One subscriber's records fit together: no URL is followed twice, the
/// categories are numbered by position and belong to the subscriber, and each
/// feed's category is one of them.
pub open spec fn valid_user(user: UserView) -> bool {
    &&& distinct(urls(user.feeds))
    &&& user.categories.len() <= u32::MAX
    &&& forall|c: int|
        0 <= c < user.categories.len() ==> (#[trigger] user.categories[c]).category_id == c
            && user.categories[c].user_id == user.telegram_user_id
    &&& forall|j: int|
        0 <= j < user.feeds.len() ==> ((#[trigger] user.feeds[j]).category_id matches Some(c)
            ==> c < user.categories.len())
}

/// The index fits together: no identity occurs twice, and every subscriber's
/// records fit together.
pub open spec fn valid_users(users: Seq<UserView>) -> bool {
    &&& distinct(ids(users))
    &&& forall|i: int| 0 <= i < users.len() ==> valid_user(#[trigger] users[i])
}

/// A subscriber after they began to follow `url` at `now`: the feed stands
/// last, in no category, and nothing published up to `now` will go out.
pub open spec fn with_feed(user: UserView, url: Seq<char>, now: i64) -> UserView {
    UserView {
        feeds: user.feeds.push(
            SubscriptionView { url, category_id: None, last_item_sent: Some(now) },
        ),
        ..user
    }
}

/// A subscriber after they stopped following the feed at position `j`.
pub open spec fn without_feed(user: UserView, j: int) -> UserView {
    UserView { feeds: user.feeds.remove(j), ..user }
}

/// A subscriber after a delivery, from the feed at position `j`, of an item
/// published at `item_timestamp`.
pub open spec fn with_delivery(user: UserView, j: int, item_timestamp: i64) -> UserView {
    UserView {
        feeds: user.feeds.update(
            j,
            SubscriptionView {
                last_item_sent: Some(later(user.feeds[j].last_item_sent, item_timestamp)),
                ..user.feeds[j]
            },
        ),
        ..user
    }
}

/// A subscriber after the feed at position `j` was put in a category, or
/// taken out of its category (`None`).
pub open spec fn with_assignment(user: UserView, j: int, category_id: Option<u32>) -> UserView {
    UserView {
        feeds: user.feeds.update(j, SubscriptionView { category_id, ..user.feeds[j] }),
        ..user
    }
}

/// A subscriber after they created a category, which takes the next
/// number.
pub open spec fn with_category(
    user: UserView,
    name: Seq<char>,
    whitelisted_words: Seq<Seq<char>>,
    cooldown: u64,
) -> UserView {
    UserView {
        categories: user.categories.push(
            CategoryView {
                user_id: user.telegram_user_id,
                category_id: user.categories.len() as u32,
                whitelisted_words,
                name,
                cooldown,
            },
        ),
        ..user
    }
}

/// The index after a delivery to a subscriber, from the feed with this URL,
/// of an item published at `item_timestamp`. Where the subscriber is not
/// registered, or does not follow the feed, the index is as before.
pub open spec fn after_delivery(
    users: Seq<UserView>,
    id: i64,
    url: Seq<char>,
    item_timestamp: i64,
) -> Seq<UserView> {
    match user_position(users, id) {
        Some(i) => match feed_position(users[i], url) {
            Some(j) => users.update(i, with_delivery(users[i], j, item_timestamp)),
            None => users,
        },
        None => users,
    }
}

/// The number of feeds that a subscriber gains by asking for this URL: one
/// if they are registered and do not follow it yet, else none.
pub open spec fn gain(users: Seq<UserView>, id: i64, url: Seq<char>) -> nat {
    match user_position(users, id) {
        Some(i) => if feed_position(users[i], url) is None {
            1
        } else {
            0
        },
        None => 0,
    }
}

/// The index after a subscriber asked at `now` to follow this URL: where
/// they gain a feed it stands last among theirs, else the index is as
/// before.
pub open spec fn after_subscribe(
    users: Seq<UserView>,
    id: i64,
    url: Seq<char>,
    now: i64,
) -> Seq<UserView> {
    match user_position(users, id) {
        Some(i) => if feed_position(users[i], url) is None {
            users.update(i, with_feed(users[i], url, now))
        } else {
            users
        },
        None => users,
    }
}

/// The subscriber follows the feed with this URL.
pub open spec fn follows(users: Seq<UserView>, id: i64, url: Seq<char>) -> bool {
    user_position(users, id) matches Some(i) && feed_position(users[i], url) is Some
}

/// The category that a subscriber's feed is in, if it is in one.
pub open spec fn category_of(user: UserView, sub: SubscriptionView) -> Option<CategoryView> {
    match sub.category_id {
        Some(c) => if c < user.categories.len() {
            Some(user.categories[c as int])
        } else {
            None
        },
        None => None,
    }
}

/// The cooldown that holds for a subscriber's feed: that of the feed's
/// category, or the subscriber's own where the feed is in none.
pub open spec fn effective_cooldown(user: UserView, sub: SubscriptionView) -> u64 {
    match category_of(user, sub) {
        Some(category) => category.cooldown,
        None => user.cooldown,
    }
}

/// The whitelist that holds for a subscriber's feed: that of the feed's
/// category, or the subscriber's own where the feed is in none.
pub open spec fn effective_whitelist(user: UserView, sub: SubscriptionView) -> Seq<Seq<char>> {
    match category_of(user, sub) {
        Some(category) => category.whitelisted_words,
        None => user.whitelisted_words,
    }
}

/// One subscriber's side of a feed: the whitelist and the delivery state
/// that hold for it.
#[derive(Debug)]
pub struct Scope {
    pub whitelist: Vec<String>,
    pub data: FeedData,
}

/// What a `Scope` holds, as plain values.
pub struct ScopeView {
    pub whitelist: Seq<Seq<char>>,
    pub data: FeedData,
}

impl View for Scope {
    type V = ScopeView;

    open spec fn view(&self) -> ScopeView {
        ScopeView { whitelist: texts(self.whitelist@), data: self.data }
    }
}

/// The views of a sequence of scopes, in order.
pub open spec fn scope_views(scopes: Seq<Scope>) -> Seq<ScopeView> {
    Seq::new(scopes.len(), |i: int| scopes[i]@)
}

/// The scope of a subscriber's feed.
pub open spec fn scope_for(user: UserView, sub: SubscriptionView) -> ScopeView {
    ScopeView {
        whitelist: effective_whitelist(user, sub),
        data: FeedData {
            user_id: user.telegram_user_id,
            category_id: sub.category_id,
            last_item_sent: sub.last_item_sent,
            cooldown: effective_cooldown(user, sub),
        },
    }
}

/// A subscriber's scope for the feed with this URL, if they follow it.
pub open spec fn scope_of(user: UserView, url: Seq<char>) -> Option<ScopeView> {
    match feed_position(user, url) {
        Some(j) => Some(scope_for(user, user.feeds[j])),
        None => None,
    }
}

/// The scopes of all who follow the feed with this URL, in the order of the
/// index.
pub open spec fn scopes_of(users: Seq<UserView>, url: Seq<char>) -> Seq<ScopeView>
    decreases users.len(),
{
    if users.len() == 0 {
        Seq::empty()
    } else {
        let rest = scopes_of(users.drop_last(), url);
        match scope_of(users.last(), url) {
            Some(scope) => rest.push(scope),
            None => rest,
        }
    }
}

/// Some subscriber follows the feed with this URL.
pub open spec fn followed(users: Seq<UserView>, url: Seq<char>) -> bool {
    exists|i: int, j: int|
        0 <= i < users.len() && 0 <= j < users[i].feeds.len() && (#[trigger] users[i].feeds[j]).url
            == url
}

/// Every URL that the subscribers follow, subscriber by subscriber in the
/// order of the index, and for each subscriber in the order of their feeds.
pub open spec fn all_urls(users: Seq<UserView>) -> Seq<Seq<char>>
    decreases users.len(),
{
    if users.len() == 0 {
        Seq::empty()
    } else {
        all_urls(users.drop_last()) + urls(users.last().feeds)
    }
}

/// The words each once, in the order in which they first occur.
pub open spec fn first_occurrences(words: Seq<Seq<char>>) -> Seq<Seq<char>>
    decreases words.len(),
{
    if words.len() == 0 {
        Seq::empty()
    } else {
        let rest = first_occurrences(words.drop_last());
        if rest.contains(words.last()) {
            rest
        } else {
            rest.push(words.last())
        }
    }
}

/// The URLs to poll: every URL that some subscriber follows, each once, in
/// the order in which the index first comes to it.
pub open spec fn polling_set(users: Seq<UserView>) -> Seq<Seq<char>> {
    first_occurrences(all_urls(users))
}

/// Taking first occurrences keeps every word, and keeps none twice.
pub proof fn lemma_first_occurrences(words: Seq<Seq<char>>)
    ensures
        distinct(first_occurrences(words)),
        forall|word: Seq<char>|
            #[trigger] first_occurrences(words).contains(word) <==> words.contains(word),
    decreases words.len(),
{
    if words.len() > 0 {
        let front = words.drop_last();
        let rest = first_occurrences(front);
        let all = first_occurrences(words);
        lemma_first_occurrences(front);
        assert forall|word: Seq<char>| #[trigger] all.contains(word) <==> words.contains(word) by {
            if all.contains(word) {
                let k = choose|k: int| 0 <= k < all.len() && all[k] == word;
                if k < rest.len() {
                    assert(rest[k] == word);
                    assert(rest.contains(word));
                    let m = choose|m: int| 0 <= m < front.len() && front[m] == word;
                    assert(words[m] == word);
                } else {
                    assert(words[words.len() - 1] == word);
                }
            }
            if words.contains(word) {
                let m = choose|m: int| 0 <= m < words.len() && words[m] == word;
                if m < front.len() {
                    assert(front[m] == word);
                    assert(front.contains(word));
                    assert(rest.contains(word));
                    let k = choose|k: int| 0 <= k < rest.len() && rest[k] == word;
                    assert(all[k] == word);
                } else if rest.contains(word) {
                } else {
                    assert(all[all.len() - 1] == word);
                }
            }
        }
    }
}

/// A word stands in two sequences in a row when it stands in one of them.
proof fn lemma_contains_in_either(a: Seq<Seq<char>>, b: Seq<Seq<char>>, word: Seq<char>)
    ensures
        (a + b).contains(word) <==> a.contains(word) || b.contains(word),
{
    if (a + b).contains(word) {
        let k = choose|k: int| 0 <= k < (a + b).len() && (a + b)[k] == word;
        if k < a.len() {
            assert(a[k] == word);
        } else {
            assert(b[k - a.len()] == word);
        }
    }
    if a.contains(word) {
        let m = choose|m: int| 0 <= m < a.len() && a[m] == word;
        assert((a + b)[m] == word);
    }
    if b.contains(word) {
        let m = choose|m: int| 0 <= m < b.len() && b[m] == word;
        assert((a + b)[a.len() + m] == word);
    }
}

/// A feed is followed by some subscriber when the last subscriber follows
/// it or one before them does.
proof fn lemma_followed_by_last_or_earlier(users: Seq<UserView>, url: Seq<char>)
    requires
        users.len() > 0,
    ensures
        followed(users, url) <==> followed(users.drop_last(), url) || urls(
            users.last().feeds,
        ).contains(url),
{
    let front = users.drop_last();
    let theirs = urls(users.last().feeds);
    if followed(users, url) {
        let (i, j) = choose|i: int, j: int|
            0 <= i < users.len() && 0 <= j < users[i].feeds.len() && (
            #[trigger] users[i].feeds[j]).url == url;
        if i < front.len() {
            assert(front[i].feeds[j].url == url);
        } else {
            assert(theirs[j] == url);
        }
    }
    if followed(front, url) {
        let (i, j) = choose|i: int, j: int|
            0 <= i < front.len() && 0 <= j < front[i].feeds.len() && (
            #[trigger] front[i].feeds[j]).url == url;
        assert(users[i].feeds[j].url == url);
    }
    if theirs.contains(url) {
        let j = choose|j: int| 0 <= j < theirs.len() && theirs[j] == url;
        assert(users[users.len() - 1].feeds[j].url == url);
    }
}

/// The URLs that the subscribers follow are those that some subscriber
/// follows.
pub proof fn lemma_all_urls(users: Seq<UserView>, url: Seq<char>)
    ensures
        all_urls(users).contains(url) <==> followed(users, url),
    decreases users.len(),
{
    if users.len() > 0 {
        lemma_all_urls(users.drop_last(), url);
        lemma_contains_in_either(all_urls(users.drop_last()), urls(users.last().feeds), url);
        lemma_followed_by_last_or_earlier(users, url);
    }
}

/// The polling set holds a URL exactly when some subscriber follows it, and
/// holds none twice: feeds are polled once however many follow them, and a
/// feed that nobody follows is not polled.
pub proof fn lemma_polling_set(users: Seq<UserView>)
    ensures
        distinct(polling_set(users)),
        forall|url: Seq<char>|
            #[trigger] polling_set(users).contains(url) <==> followed(users, url),
{
    lemma_first_occurrences(all_urls(users));
    assert forall|url: Seq<char>| #[trigger]
        polling_set(users).contains(url) <==> followed(users, url) by {
        lemma_all_urls(users, url);
        assert(first_occurrences(all_urls(users)).contains(url) <==> all_urls(users).contains(url));
    }
}

/// Category override: for a feed in a category, the category's cooldown and
/// whitelist hold, whatever the subscriber's own are, and eligibility goes
/// by the category's cooldown.
pub proof fn lemma_category_overrides(
    user: UserView,
    sub: SubscriptionView,
    item_timestamp: i64,
    now: i64,
)
    requires
        sub.category_id matches Some(c) && c < user.categories.len(),
    ensures
        effective_cooldown(user, sub) == user.categories[sub.category_id->0 as int].cooldown,
        effective_whitelist(user, sub) == user.categories[sub.category_id->0
            as int].whitelisted_words,
        scope_for(user, sub).data.is_eligible(item_timestamp, now) == match sub.last_item_sent {
            None => true,
            Some(last) => item_timestamp > last && now - last
                >= user.categories[sub.category_id->0 as int].cooldown,
        },
{
}

/// Tells whether a word stands in a list of words.
pub fn has_word(words: &Vec<String>, word: &String) -> (r: bool)
    ensures
        r == texts(words@).contains(word@),
{
    let mut k: usize = 0;
    while k < words.len()
        invariant
            k <= words.len(),
            forall|j: int| 0 <= j < k ==> texts(words@)[j] != word@,
        decreases words.len() - k,
    {
        if words[k] == *word {
            assert(texts(words@)[k as int] == word@);
            return true;
        }
        k = k + 1;
    }
    false
}

/// Copies a list of words.
pub fn clone_words(words: &Vec<String>) -> (r: Vec<String>)
    ensures
        texts(r@) == texts(words@),
{
    let mut r: Vec<String> = Vec::new();
    let mut k: usize = 0;
    while k < words.len()
        invariant
            k <= words.len(),
            r.len() == k,
            forall|j: int| 0 <= j < k ==> r@[j]@ == words@[j]@,
        decreases words.len() - k,
    {
        r.push(words[k].clone());
        k = k + 1;
    }
    assert(texts(r@) =~= texts(words@));
    r
}

impl User {
    /// Tells whether the subscriber's records fit together.
    pub fn is_valid(&self) -> (r: bool)
        ensures
            r == valid_user(self@),
    {
        if self.categories.len() > u32::MAX as usize {
            return false;
        }
        let mut c: usize = 0;
        while c < self.categories.len()
            invariant
                c <= self.categories.len(),
                self.categories.len() <= u32::MAX,
                forall|k: int|
                    0 <= k < c ==> (#[trigger] self@.categories[k]).category_id == k
                        && self@.categories[k].user_id == self@.telegram_user_id,
            decreases self.categories.len() - c,
        {
            let category = &self.categories[c];
            if category.category_id as usize != c || category.user_id != self.telegram_user_id {
                assert(!(self@.categories[c as int].category_id == c
                    && self@.categories[c as int].user_id == self@.telegram_user_id));
                return false;
            }
            c = c + 1;
        }
        let mut b: usize = 0;
        while b < self.feeds.len()
            invariant
                b <= self.feeds.len(),
                forall|x: int, y: int|
                    0 <= x < y < b ==> urls(self@.feeds)[x] != urls(self@.feeds)[y],
                forall|j: int|
                    0 <= j < b ==> ((#[trigger] self@.feeds[j]).category_id matches Some(n) ==> n
                        < self@.categories.len()),
            decreases self.feeds.len() - b,
        {
            match self.feeds[b].category_id {
                Some(n) => {
                    if n as usize >= self.categories.len() {
                        assert(self@.feeds[b as int].category_id == Some(n));
                        return false;
                    }
                },
                None => {},
            }
            let mut a: usize = 0;
            while a < b
                invariant
                    a <= b,
                    b < self.feeds.len(),
                    forall|x: int|
                        0 <= x < a ==> urls(self@.feeds)[x] != urls(self@.feeds)[b as int],
                decreases b - a,
            {
                if self.feeds[a].feed.url == self.feeds[b].feed.url {
                    assert(urls(self@.feeds)[a as int] == urls(self@.feeds)[b as int]);
                    return false;
                }
                a = a + 1;
            }
            b = b + 1;
        }
        true
    }

    /// The scope of the feed at position `j`; `None` where the subscriber
    /// has no feed at that position.
    pub fn scope(&self, j: usize) -> (r: Option<Scope>)
        ensures
            match r {
                Some(scope) => j < self@.feeds.len() && scope@ == scope_for(
                    self@,
                    self@.feeds[j as int],
                ),
                None => j >= self@.feeds.len(),
            },
    {
        if j >= self.feeds.len() {
            return None;
        }
        let sub = &self.feeds[j];
        let mut whitelist = clone_words(&self.whitelisted_words);
        let mut cooldown = self.cooldown;
        match sub.category_id {
            Some(c) => {
                if (c as usize) < self.categories.len() {
                    let category = &self.categories[c as usize];
                    whitelist = clone_words(&category.whitelisted_words);
                    cooldown = category.cooldown;
                }
            },
            None => {},
        }
        Some(
            Scope {
                whitelist,
                data: FeedData {
                    user_id: self.telegram_user_id,
                    category_id: sub.category_id,
                    last_item_sent: sub.last_item_sent,
                    cooldown,
                },
            },
        )
    }

    /// Finds the feed with this URL among the feeds followed.
    pub fn find_feed(&self, url: &String) -> (r: Option<usize>)
        ensures
            match r {
                Some(j) => j < self@.feeds.len() && self@.feeds[j as int].url == url@
                    && feed_position(self@, url@) == Some(j as int),
                None => feed_position(self@, url@) is None,
            },
    {
        let mut j: usize = 0;
        while j < self.feeds.len()
            invariant
                j <= self.feeds.len(),
                forall|k: int| 0 <= k < j ==> urls(self@.feeds)[k] != url@,
            decreases self.feeds.len() - j,
        {
            if self.feeds[j].feed.url == *url {
                proof {
                    lemma_first_index_is(urls(self@.feeds), url@, j as int);
                }
                return Some(j);
            }
            j = j + 1;
        }
        proof {
            lemma_first_index_none(urls(self@.feeds), url@);
        }
        None
    }
}

/// The subscribers, in the order in which they registered.
pub struct State {
    users: Vec<User>,
}

impl View for State {
    type V = Seq<UserView>;

    closed spec fn view(&self) -> Seq<UserView> {
        user_views(self.users@)
    }
}

impl State {
    /// The index fits together. This holds of every index: none can be made
    /// or changed but by the functions below.
    pub open spec fn wf(&self) -> bool {
        valid_users(self@)
    }

    /// What every index keeps: its records fit together.
    #[verifier::type_invariant]
    spec fn fits(&self) -> bool {
        valid_users(user_views(self.users@))
    }

    /// An index with no subscriber.
    pub fn new() -> (r: Self)
        ensures
            r@ == Seq::<UserView>::empty(),
            r.wf(),
    {
        let users: Vec<User> = Vec::new();
        assert(user_views(users@) =~= Seq::<UserView>::empty());
        State { users }
    }

    /// Does nothing when run. Tells a verified caller what holds of every
    /// index, wherever it came from: that it fits together.
    pub fn assure(&self)
        ensures
            self.wf(),
    {
        proof {
            use_type_invariant(self);
        }
    }

    /// Takes the subscribers out to change them, leaving an empty index
    /// until they are put back.
    fn take_users(&mut self) -> (users: Vec<User>)
        ensures
            users == old(self).users,
            valid_users(user_views(users@)),
            final(self).users@.len() == 0,
    {
        proof {
            use_type_invariant(&*self);
        }
        let mut users: Vec<User> = Vec::new();
        assert(user_views(users@) =~= Seq::<UserView>::empty());
        core::mem::swap(&mut users, &mut self.users);
        users
    }

    /// The number of subscribers.
    pub fn len(&self) -> (n: usize)
        ensures
            n == self@.len(),
    {
        self.users.len()
    }

    /// Finds the subscriber with this identity.
    pub fn find_user(&self, id: i64) -> (r: Option<usize>)
        ensures
            match r {
                Some(i) => i < self@.len() && self@[i as int].telegram_user_id == id
                    && user_position(self@, id) == Some(i as int),
                None => user_position(self@, id) is None,
            },
    {
        let mut i: usize = 0;
        while i < self.users.len()
            invariant
                i <= self.users.len(),
                forall|k: int| 0 <= k < i ==> ids(self@)[k] != id,
            decreases self.users.len() - i,
        {
            if self.users[i].telegram_user_id == id {
                proof {
                    lemma_first_index_is(ids(self@), id, i as int);
                }
                return Some(i);
            }
            i = i + 1;
        }
        proof {
            lemma_first_index_none(ids(self@), id);
        }
        None
    }

    /// Tells whether a subscriber with this identity is registered.
    pub fn is_registered(&self, id: i64) -> (r: bool)
        ensures
            r == user_position(self@, id) is Some,
    {
        self.find_user(id).is_some()
    }

    /// The subscriber with this identity, if registered.
    pub fn user(&self, id: i64) -> (r: Option<&User>)
        ensures
            match r {
                Some(user) => user_position(self@, id) matches Some(i) && user@ == self@[i],
                None => user_position(self@, id) is None,
            },
    {
        match self.find_user(id) {
            Some(i) => Some(&self.users[i]),
            None => None,
        }
    }

    /// Registers a subscriber who follows nothing yet. Returns `false`, and
    /// changes nothing, where the identity is registered already.
    pub fn register_user(&mut self, id: i64) -> (r: bool)
        ensures
            final(self).wf(),
            r == user_position(old(self)@, id) is None,
            r ==> final(self)@ == old(self)@.push(blank_user(id)),
            !r ==> final(self)@ == old(self)@,
    {
        proof {
            use_type_invariant(&*self);
        }
        if self.is_registered(id) {
            return false;
        }
        let mut user = User::default();
        user.telegram_user_id = id;
        let mut users = self.take_users();
        proof {
            lemma_first_index(ids(user_views(users@)), id);
        }
        users.push(user);
        assert(user_views(users@) =~= old(self)@.push(blank_user(id)));
        assert(ids(user_views(users@)) =~= ids(old(self)@).push(id));
        self.users = users;
        true
    }

    /// Removes a subscriber with everything that belongs to them. Returns
    /// `false`, and changes nothing, where the identity is not registered.
    pub fn unregister_user(&mut self, id: i64) -> (r: bool)
        ensures
            final(self).wf(),
            match user_position(old(self)@, id) {
                Some(i) => r && final(self)@ == old(self)@.remove(i),
                None => !r && final(self)@ == old(self)@,
            },
            user_position(final(self)@, id) is None,
    {
        proof {
            use_type_invariant(&*self);
        }
        match self.find_user(id) {
            Some(i) => {
                let mut users = self.take_users();
                proof {
                    lemma_first_index(ids(user_views(users@)), id);
                }
                users.remove(i);
                assert(user_views(users@) =~= old(self)@.remove(i as int));
                assert(ids(user_views(users@)) =~= ids(old(self)@).remove(i as int));
                proof {
                    lemma_first_index_none(ids(user_views(users@)), id);
                }
                self.users = users;
                true
            },
            None => false,
        }
    }

    /// Makes a subscriber follow a feed from `now` on, without looking at the
    /// URL. Returns the number of feeds added: 1, or 0 where the subscriber
    /// is not registered or follows the URL already, and then nothing changes.
    pub fn subscribe(&mut self, id: i64, url: String, now: i64) -> (added: usize)
        ensures
            final(self).wf(),
            added == gain(old(self)@, id, url@),
            final(self)@ == after_subscribe(old(self)@, id, url@, now),
    {
        proof {
            use_type_invariant(&*self);
        }
        match self.find_user(id) {
            None => 0,
            Some(i) => match self.users[i].find_feed(&url) {
                Some(_) => 0,
                None => {
                    let mut users = self.take_users();
                    let ghost before = users@[i as int];
                    proof {
                        lemma_first_index(urls(before@.feeds), url@);
                    }
                    users[i].feeds.push(
                        Subscription {
                            feed: Feed { url },
                            category_id: None,
                            last_item_sent: Some(now),
                        },
                    );
                    proof {
                        let after = users@[i as int];
                        let want = with_feed(before@, url@, now);
                        assert(after@.feeds =~= want.feeds);
                        assert(after@.categories =~= before@.categories);
                        assert(after@.whitelisted_words =~= before@.whitelisted_words);
                        assert(after@ == want);
                        assert(user_views(users@) =~= old(self)@.update(i as int, want));
                        assert(ids(user_views(users@)) =~= ids(old(self)@));
                        assert(urls(after@.feeds) =~= urls(before@.feeds).push(url@));
                    }
                    self.users = users;
                    1
                },
            },
        }
    }

    /// Makes a subscriber follow a feed from `now` on. A text that is no
    /// feed URL is turned down with `InvalidFeedUrl`, whoever asks. Otherwise
    /// returns the number of feeds added, as `subscribe` does.
    pub fn add_feed(&mut self, id: i64, url: &str, now: i64) -> (r: Result<usize, Error>)
        ensures
            final(self).wf(),
            r is Ok <==> valid_feed_url(url@),
            r is Err ==> r == Err::<usize, Error>(Error::InvalidFeedUrl) && final(self)@ == old(
                self,
            )@,
            r matches Ok(added) ==> added == gain(old(self)@, id, url@) && final(self)@
                == after_subscribe(old(self)@, id, url@, now),
    {
        proof {
            use_type_invariant(&*self);
        }
        match validate_feed_url(url) {
            Err(e) => Err(e),
            Ok(()) => Ok(self.subscribe(id, url.to_owned(), now)),
        }
    }

    /// Makes a subscriber stop following a feed; its delivery state goes
    /// with it. Returns `false`, and changes nothing, where the subscriber is
    /// not registered or does not follow the URL.
    pub fn remove_feed(&mut self, id: i64, url: &str) -> (r: bool)
        ensures
            final(self).wf(),
            match user_position(old(self)@, id) {
                Some(i) => match feed_position(old(self)@[i], url@) {
                    Some(j) => r && final(self)@ == old(self)@.update(
                        i,
                        without_feed(old(self)@[i], j),
                    ) && feed_position(final(self)@[i], url@) is None,
                    None => !r && final(self)@ == old(self)@,
                },
                None => !r && final(self)@ == old(self)@,
            },
    {
        proof {
            use_type_invariant(&*self);
        }
        let key = url.to_owned();
        match self.find_user(id) {
            None => false,
            Some(i) => match self.users[i].find_feed(&key) {
                None => false,
                Some(j) => {
                    let mut users = self.take_users();
                    let ghost before = users@[i as int];
                    proof {
                        lemma_first_index(urls(before@.feeds), url@);
                    }
                    users[i].feeds.remove(j);
                    proof {
                        let after = users@[i as int];
                        let want = without_feed(before@, j as int);
                        assert(after@.feeds =~= want.feeds);
                        assert(after@.categories =~= before@.categories);
                        assert(after@.whitelisted_words =~= before@.whitelisted_words);
                        assert(after@ == want);
                        assert(user_views(users@) =~= old(self)@.update(i as int, want));
                        assert(ids(user_views(users@)) =~= ids(old(self)@));
                        assert(urls(after@.feeds) =~= urls(before@.feeds).remove(j as int));
                        lemma_first_index_none(urls(after@.feeds), url@);
                    }
                    self.users = users;
                    true
                },
            },
        }
    }

    /// Sets the cooldown and the whitelist that hold for a subscriber's
    /// feeds outside any category. Returns `false`, and changes nothing,
    /// where the subscriber is not registered.
    pub fn set_preferences(&mut self, id: i64, cooldown: u64, whitelisted_words: Vec<String>) -> (r:
        bool)
        ensures
            final(self).wf(),
            match user_position(old(self)@, id) {
                Some(i) => r && final(self)@ == old(self)@.update(
                    i,
                    UserView {
                        cooldown,
                        whitelisted_words: texts(whitelisted_words@),
                        ..old(self)@[i]
                    },
                ),
                None => !r && final(self)@ == old(self)@,
            },
    {
        proof {
            use_type_invariant(&*self);
        }
        match self.find_user(id) {
            None => false,
            Some(i) => {
                let mut users = self.take_users();
                let ghost before = users@[i as int];
                users[i].cooldown = cooldown;
                users[i].whitelisted_words = whitelisted_words;
                proof {
                    let after = users@[i as int];
                    assert(after@.feeds =~= before@.feeds);
                    assert(after@.categories =~= before@.categories);
                    assert(user_views(users@) =~= old(self)@.update(
                        i as int,
                        UserView {
                            cooldown,
                            whitelisted_words: texts(whitelisted_words@),
                            ..old(self)@[i as int]
                        },
                    ));
                    assert(ids(user_views(users@)) =~= ids(old(self)@));
                }
                self.users = users;
                true
            },
        }
    }

    /// Creates a category for a subscriber and returns its number. Returns
    /// `None`, and changes nothing, where the subscriber is not registered
    /// or has as many categories as can be numbered.
    pub fn add_category(
        &mut self,
        id: i64,
        name: String,
        whitelisted_words: Vec<String>,
        cooldown: u64,
    ) -> (r: Option<u32>)
        ensures
            final(self).wf(),
            match user_position(old(self)@, id) {
                Some(i) => if old(self)@[i].categories.len() < u32::MAX {
                    r == Some(old(self)@[i].categories.len() as u32) && final(self)@ == old(
                        self,
                    )@.update(
                        i,
                        with_category(old(self)@[i], name@, texts(whitelisted_words@), cooldown),
                    )
                } else {
                    r is None && final(self)@ == old(self)@
                },
                None => r is None && final(self)@ == old(self)@,
            },
    {
        proof {
            use_type_invariant(&*self);
        }
        match self.find_user(id) {
            None => None,
            Some(i) => {
                let count = self.users[i].categories.len();
                if count >= u32::MAX as usize {
                    return None;
                }
                let number = count as u32;
                let mut users = self.take_users();
                let ghost before = users@[i as int];
                users[i].categories.push(
                    Category { user_id: id, category_id: number, whitelisted_words, name, cooldown },
                );
                proof {
                    let after = users@[i as int];
                    let want = with_category(before@, name@, texts(whitelisted_words@), cooldown);
                    assert(after@.feeds =~= before@.feeds);
                    assert(after@.whitelisted_words =~= before@.whitelisted_words);
                    assert(after@.categories =~= want.categories);
                    assert(after@ == want);
                    assert(user_views(users@) =~= old(self)@.update(i as int, want));
                    assert(ids(user_views(users@)) =~= ids(old(self)@));
                }
                self.users = users;
                Some(number)
            },
        }
    }

    /// Puts a subscriber's feed in one of their categories, or takes it out
    /// of its category (`None`). Returns `false`, and changes nothing, where
    /// the subscriber is not registered, does not follow the URL, or has no
    /// category of that number.
    pub fn assign_category(&mut self, id: i64, url: &str, category_id: Option<u32>) -> (r: bool)
        ensures
            final(self).wf(),
            match user_position(old(self)@, id) {
                Some(i) => match feed_position(old(self)@[i], url@) {
                    Some(j) => if category_id matches Some(c) ==> c
                        < old(self)@[i].categories.len() {
                        r && final(self)@ == old(self)@.update(
                            i,
                            with_assignment(old(self)@[i], j, category_id),
                        )
                    } else {
                        !r && final(self)@ == old(self)@
                    },
                    None => !r && final(self)@ == old(self)@,
                },
                None => !r && final(self)@ == old(self)@,
            },
    {
        proof {
            use_type_invariant(&*self);
        }
        let key = url.to_owned();
        match self.find_user(id) {
            None => false,
            Some(i) => match self.users[i].find_feed(&key) {
                None => false,
                Some(j) => {
                    match category_id {
                        Some(c) => {
                            if c as usize >= self.users[i].categories.len() {
                                return false;
                            }
                        },
                        None => {},
                    }
                    let mut users = self.take_users();
                    let ghost before = users@[i as int];
                    users[i].feeds[j].category_id = category_id;
                    proof {
                        let after = users@[i as int];
                        let want = with_assignment(before@, j as int, category_id);
                        assert(after@.feeds =~= want.feeds);
                        assert(after@.categories =~= before@.categories);
                        assert(after@.whitelisted_words =~= before@.whitelisted_words);
                        assert(after@ == want);
                        assert(user_views(users@) =~= old(self)@.update(i as int, want));
                        assert(ids(user_views(users@)) =~= ids(old(self)@));
                        assert(urls(after@.feeds) =~= urls(before@.feeds));
                    }
                    self.users = users;
                    true
                },
            },
        }
    }

    /// Records that an item published at `item_timestamp` went out to a
    /// subscriber from a feed: the feed's `last_item_sent` moves to the
    /// later of the two. Returns `false`, and changes nothing, where the
    /// subscriber is not registered or does not follow the URL (any more).
    pub fn record_delivery(&mut self, id: i64, url: &str, item_timestamp: i64) -> (r: bool)
        ensures
            final(self).wf(),
            r == follows(old(self)@, id, url@),
            final(self)@ == after_delivery(old(self)@, id, url@, item_timestamp),
    {
        proof {
            use_type_invariant(&*self);
        }
        let key = url.to_owned();
        match self.find_user(id) {
            None => false,
            Some(i) => match self.users[i].find_feed(&key) {
                None => false,
                Some(j) => {
                    let newest = match self.users[i].feeds[j].last_item_sent {
                        Some(last) => if last >= item_timestamp {
                            last
                        } else {
                            item_timestamp
                        },
                        None => item_timestamp,
                    };
                    let mut users = self.take_users();
                    let ghost before = users@[i as int];
                    users[i].feeds[j].last_item_sent = Some(newest);
                    proof {
                        let after = users@[i as int];
                        let want = with_delivery(before@, j as int, item_timestamp);
                        assert(after@.feeds =~= want.feeds);
                        assert(after@.categories =~= before@.categories);
                        assert(after@.whitelisted_words =~= before@.whitelisted_words);
                        assert(after@ == want);
                        assert(user_views(users@) =~= old(self)@.update(i as int, want));
                        assert(ids(user_views(users@)) =~= ids(old(self)@));
                        assert(urls(after@.feeds) =~= urls(before@.feeds));
                    }
                    self.users = users;
                    true
                },
            },
        }
    }

    /// The scopes of all who follow the feed with this URL now, in the order
    /// of the index. What is returned is a copy: later changes of the index
    /// do not reach it.
    pub fn subscribers_of(&self, url: &str) -> (r: Vec<Scope>)
        ensures
            scope_views(r@) == scopes_of(self@, url@),
    {
        let key = url.to_owned();
        let mut r: Vec<Scope> = Vec::new();
        let mut i: usize = 0;
        assert(self@.take(0) =~= Seq::<UserView>::empty());
        assert(scope_views(r@) =~= Seq::<ScopeView>::empty());
        while i < self.users.len()
            invariant
                i <= self.users.len(),
                key@ == url@,
                scope_views(r@) == scopes_of(self@.take(i as int), url@),
            decreases self.users.len() - i,
        {
            proof {
                let next = self@.take(i + 1);
                assert(next.drop_last() =~= self@.take(i as int));
                assert(next.last() == self@[i as int]);
            }
            match self.users[i].find_feed(&key) {
                Some(j) => match self.users[i].scope(j) {
                    Some(scope) => {
                        let ghost before = r@;
                        r.push(scope);
                        assert(scope_views(r@) =~= scope_views(before).push(scope@));
                    },
                    None => {},
                },
                None => {},
            }
            i = i + 1;
        }
        assert(self@.take(i as int) =~= self@);
        r
    }

    /// The polling set: the URL of every feed that some subscriber follows,
    /// each once, in the order in which the index first comes to it. A feed
    /// leaves the set when its last follower leaves it.
    pub fn feed_urls(&self) -> (r: Vec<String>)
        ensures
            texts(r@) == polling_set(self@),
    {
        let mut r: Vec<String> = Vec::new();
        let mut i: usize = 0;
        assert(self@.take(0) =~= Seq::<UserView>::empty());
        assert(texts(r@) =~= Seq::<Seq<char>>::empty());
        while i < self.users.len()
            invariant
                i <= self.users.len(),
                texts(r@) == polling_set(self@.take(i as int)),
            decreases self.users.len() - i,
        {
            let user = &self.users[i];
            let ghost before_user = all_urls(self@.take(i as int));
            let ghost theirs = urls(self@[i as int].feeds);
            let mut j: usize = 0;
            assert(before_user + theirs.take(0) =~= before_user);
            while j < user.feeds.len()
                invariant
                    i < self.users.len(),
                    user@ == self@[i as int],
                    j <= user.feeds.len(),
                    before_user == all_urls(self@.take(i as int)),
                    theirs == urls(self@[i as int].feeds),
                    texts(r@) == first_occurrences(before_user + theirs.take(j as int)),
                decreases user.feeds.len() - j,
            {
                let url = &user.feeds[j].feed.url;
                proof {
                    let next = before_user + theirs.take(j + 1);
                    assert(next.drop_last() =~= before_user + theirs.take(j as int));
                    assert(next.last() == url@);
                }
                if !has_word(&r, url) {
                    let ghost before = texts(r@);
                    r.push(url.clone());
                    assert(texts(r@) =~= before.push(url@));
                }
                j = j + 1;
            }
            proof {
                let next = self@.take(i + 1);
                assert(next.drop_last() =~= self@.take(i as int));
                assert(next.last() == self@[i as int]);
                assert(theirs.take(j as int) =~= theirs);
            }
            i = i + 1;
        }
        assert(self@.take(i as int) =~= self@);
        r
    }

    /// Makes an index of subscribers that were stored earlier. `None` where
    /// the records do not fit together: an identity or a URL occurs twice, a
    /// category is misnumbered or belongs to another subscriber, or a feed is
    /// in a category that its subscriber does not have.
    pub fn load(users: Vec<User>) -> (r: Option<State>)
        ensures
            match r {
                Some(state) => state.wf() && state@ == user_views(users@),
                None => !valid_users(user_views(users@)),
            },
    {
        let ghost all = user_views(users@);
        let mut b: usize = 0;
        while b < users.len()
            invariant
                b <= users.len(),
                all == user_views(users@),
                forall|x: int, y: int| 0 <= x < y < b ==> ids(all)[x] != ids(all)[y],
                forall|i: int| 0 <= i < b ==> valid_user(#[trigger] all[i]),
            decreases users.len() - b,
        {
            if !users[b].is_valid() {
                assert(!valid_user(all[b as int]));
                return None;
            }
            let mut a: usize = 0;
            while a < b
                invariant
                    a <= b,
                    b < users.len(),
                    all == user_views(users@),
                    forall|x: int| 0 <= x < a ==> ids(all)[x] != ids(all)[b as int],
                decreases b - a,
            {
                if users[a].telegram_user_id == users[b].telegram_user_id {
                    assert(ids(all)[a as int] == ids(all)[b as int]);
                    return None;
                }
                a = a + 1;
            }
            b = b + 1;
        }
        Some(State { users })
    }

    /// The subscribers with all that belongs to them, to store.
    pub fn users(&self) -> (r: &Vec<User>)
        ensures
            user_views(r@) == self@,
    {
        &self.users
    }
}

/// A subscription starts silent: right after a subscriber gained a feed at
/// `now`, their scope for it stands at `now`, so that nothing published up
/// to then is eligible, whenever it is asked.
pub proof fn lemma_subscription_starts_silent(
    users: Seq<UserView>,
    id: i64,
    url: Seq<char>,
    now: i64,
    item_timestamp: i64,
    asked_at: i64,
)
    requires
        valid_users(users),
        gain(users, id, url) == 1,
        item_timestamp <= now,
    ensures
        user_position(users, id) matches Some(i) && scope_of(
            after_subscribe(users, id, url, now)[i],
            url,
        ) matches Some(scope) && scope.data.last_item_sent == Some(now) && !scope.data.is_eligible(
            item_timestamp,
            asked_at,
        ),
{
    lemma_first_index(ids(users), id);
    let i = user_position(users, id)->0;
    let before = users[i];
    let after = with_feed(before, url, now);
    lemma_first_index(urls(before.feeds), url);
    assert(urls(after.feeds) =~= urls(before.feeds).push(url));
    lemma_first_index_is(urls(after.feeds), url, before.feeds.len() as int);
}

/// No redelivery: once a delivery to a subscriber from a feed is recorded
/// in the index, the subscriber's scope for the feed takes no item published
/// up to the recorded time, whenever it is asked. Every later cycle begins
/// from that scope.
pub proof fn lemma_recorded_is_not_eligible_again(
    users: Seq<UserView>,
    id: i64,
    url: Seq<char>,
    recorded: i64,
    item_timestamp: i64,
    now: i64,
)
    requires
        follows(users, id, url),
        item_timestamp <= recorded,
    ensures
        user_position(users, id) matches Some(i) && scope_of(
            after_delivery(users, id, url, recorded)[i],
            url,
        ) matches Some(scope) && !scope.data.is_eligible(item_timestamp, now),
{
    lemma_first_index(ids(users), id);
    let i = user_position(users, id)->0;
    let before = users[i];
    lemma_first_index(urls(before.feeds), url);
    let j = feed_position(before, url)->0;
    let after = with_delivery(before, j, recorded);
    assert(urls(after.feeds) =~= urls(before.feeds));
}

/// Recording a delivery in the index moves no `last_item_sent` backward and
/// changes nothing else: every subscriber keeps their feeds, each with its
/// URL and its category.
pub proof fn lemma_delivery_only_advances(
    users: Seq<UserView>,
    id: i64,
    url: Seq<char>,
    item_timestamp: i64,
    i: int,
    j: int,
)
    requires
        0 <= i < users.len(),
        0 <= j < users[i].feeds.len(),
    ensures
        after_delivery(users, id, url, item_timestamp).len() == users.len(),
        after_delivery(users, id, url, item_timestamp)[i].feeds.len() == users[i].feeds.len(),
        after_delivery(users, id, url, item_timestamp)[i].feeds[j].url == users[i].feeds[j].url,
        after_delivery(users, id, url, item_timestamp)[i].feeds[j].category_id
            == users[i].feeds[j].category_id,
        crate::cooldown::rank(
            after_delivery(users, id, url, item_timestamp)[i].feeds[j].last_item_sent,
        ) >= crate::cooldown::rank(users[i].feeds[j].last_item_sent),
{
    lemma_first_index(ids(users), id);
    match user_position(users, id) {
        Some(u) => {
            lemma_first_index(urls(users[u].feeds), url);
        },
        None => {},
    }
}

} // verus!