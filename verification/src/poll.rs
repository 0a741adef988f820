//! One pass over a fetched feed: which item goes to which subscriber, in
//! which order, and what each outcome leaves behind.

use vstd::prelude::*;
use crate::domain_types::{texts, FeedData};
use crate::feed::{item_views, unique_items, without_repeats, FeedItem, ItemView};
use crate::filter::title_matches;
use crate::state::{after_delivery, scope_views, scopes_of, Scope, ScopeView, State};

verus! {

/// No item stands before an older one.
pub open spec fn chronological(items: Seq<ItemView>) -> bool {
    forall|a: int, b: int|
        0 <= a < b < items.len() ==> items[a].publication_date <= items[b].publication_date
}

/// The items published at `date`, in their order.
pub open spec fn published_at(items: Seq<ItemView>, date: i64) -> Seq<ItemView>
    decreases items.len(),
{
    if items.len() == 0 {
        Seq::empty()
    } else {
        let rest = published_at(items.drop_last(), date);
        if items.last().publication_date == date {
            rest.push(items.last())
        } else {
            rest
        }
    }
}

/// `sorted` holds the items of `items` oldest first, and items published at
/// the same time in the order that they have in `items`.
pub open spec fn sorted_from(sorted: Seq<ItemView>, items: Seq<ItemView>) -> bool {
    &&& chronological(sorted)
    &&& forall|date: i64| #[trigger] published_at(sorted, date) == published_at(items, date)
}

/// The items published at a date, taken from two sequences in a row, are
/// those of the first followed by those of the second.
proof fn lemma_published_at_concat(a: Seq<ItemView>, b: Seq<ItemView>, date: i64)
    ensures
        published_at(a + b, date) == published_at(a, date) + published_at(b, date),
    decreases b.len(),
{
    if b.len() == 0 {
        assert(a + b =~= a);
        assert(published_at(a, date) + published_at(b, date) =~= published_at(a, date));
    } else {
        lemma_published_at_concat(a, b.drop_last(), date);
        assert((a + b).drop_last() =~= a + b.drop_last());
        assert((a + b).last() == b.last());
        assert(published_at(a + b, date) =~= published_at(a, date) + published_at(b, date));
    }
}

/// Where no item was published at a date, there are no items published at
/// that date.
proof fn lemma_published_at_none(items: Seq<ItemView>, date: i64)
    requires
        forall|k: int| 0 <= k < items.len() ==> items[k].publication_date != date,
    ensures
        published_at(items, date) == Seq::<ItemView>::empty(),
    decreases items.len(),
{
    if items.len() > 0 {
        assert forall|k: int| 0 <= k < items.len() - 1 implies items.drop_last()[k].publication_date
            != date by {
            assert(items.drop_last()[k] == items[k]);
        }
        lemma_published_at_none(items.drop_last(), date);
    }
}

/// An item put in behind nothing of its own date stands first among the
/// items of its date, and leaves the items of every other date as they
/// were.
proof fn lemma_published_at_insert(sorted: Seq<ItemView>, at: int, item: ItemView, date: i64)
    requires
        0 <= at <= sorted.len(),
        forall|k: int| 0 <= k < at ==> sorted[k].publication_date != item.publication_date,
    ensures
        published_at(sorted.insert(at, item), date) == if item.publication_date == date {
            seq![item] + published_at(sorted, date)
        } else {
            published_at(sorted, date)
        },
{
    let head = sorted.take(at);
    let tail = sorted.skip(at);
    let one = seq![item];
    assert(sorted =~= head + tail);
    assert(sorted.insert(at, item) =~= (head + one) + tail);
    lemma_published_at_concat(head, tail, date);
    lemma_published_at_concat(head + one, tail, date);
    lemma_published_at_concat(head, one, date);
    assert(published_at(one, date) =~= if item.publication_date == date {
        one
    } else {
        Seq::<ItemView>::empty()
    }) by {
        reveal_with_fuel(published_at, 2);
        assert(one.drop_last() =~= Seq::<ItemView>::empty());
    }
    if item.publication_date == date {
        lemma_published_at_none(head, date);
        assert(published_at(sorted.insert(at, item), date) =~= one + published_at(sorted, date));
    } else {
        assert(published_at(sorted.insert(at, item), date) =~= published_at(sorted, date));
    }
}

/// Where items were published at a date, one of them stands somewhere.
proof fn lemma_published_at_some(items: Seq<ItemView>, date: i64) -> (k: int)
    requires
        published_at(items, date).len() > 0,
    ensures
        0 <= k < items.len(),
        items[k].publication_date == date,
{
    if forall|k: int| 0 <= k < items.len() ==> items[k].publication_date != date {
        lemma_published_at_none(items, date);
    }
    choose|k: int| 0 <= k < items.len() && items[k].publication_date == date
}

/// The order that `sorted_from` asks for is one order: two sequences that
/// both hold the items of `items` as it asks are the same sequence.
pub proof fn lemma_sorted_from_is_one(a: Seq<ItemView>, b: Seq<ItemView>, items: Seq<ItemView>)
    requires
        sorted_from(a, items),
        sorted_from(b, items),
    ensures
        a == b,
    decreases a.len(),
{
    assert forall|date: i64| published_at(a, date) == published_at(b, date) by {
        assert(published_at(a, date) == published_at(items, date));
        assert(published_at(b, date) == published_at(items, date));
    }
    if a.len() == 0 {
        if b.len() > 0 {
            let e = b.last().publication_date;
            assert(published_at(b, e).len() > 0);
            assert(published_at(a, e).len() == 0);
        }
        assert(a =~= b);
    } else {
        let d = a.last().publication_date;
        assert(published_at(a, d) == published_at(a.drop_last(), d).push(a.last()));
        assert(published_at(b, d).len() > 0);
        let kb = lemma_published_at_some(b, d);
        let e = b.last().publication_date;
        assert(published_at(b, e) == published_at(b.drop_last(), e).push(b.last()));
        assert(published_at(a, e).len() > 0);
        let ka = lemma_published_at_some(a, e);
        assert(e == d);
        let pa = published_at(a.drop_last(), d);
        let pb = published_at(b.drop_last(), d);
        assert(pa.push(a.last()) == pb.push(b.last()));
        assert(pa =~= pa.push(a.last()).drop_last());
        assert(pb =~= pb.push(b.last()).drop_last());
        assert(a.last() == pa.push(a.last()).last());
        assert(b.last() == pb.push(b.last()).last());
        let shorter = a.drop_last();
        assert forall|date: i64| #[trigger]
            published_at(b.drop_last(), date) == published_at(shorter, date) by {
            assert(published_at(a, date) == published_at(b, date));
        }
        assert(chronological(a.drop_last())) by {
            assert forall|x: int, y: int| 0 <= x < y < a.drop_last().len() implies
                a.drop_last()[x].publication_date <= a.drop_last()[y].publication_date by {
                assert(a[x].publication_date <= a[y].publication_date);
            }
        }
        assert(chronological(b.drop_last())) by {
            assert forall|x: int, y: int| 0 <= x < y < b.drop_last().len() implies
                b.drop_last()[x].publication_date <= b.drop_last()[y].publication_date by {
                assert(b[x].publication_date <= b[y].publication_date);
            }
        }
        lemma_sorted_from_is_one(a.drop_last(), b.drop_last(), shorter);
        assert(a =~= a.drop_last().push(a.last()));
        assert(b =~= b.drop_last().push(b.last()));
    }
}

/// Puts items in the order of their publication, oldest first. Items
/// published at the same time keep their order.
pub fn sort_chronologically(items: Vec<FeedItem>) -> (sorted: Vec<FeedItem>)
    ensures
        sorted_from(item_views(sorted@), item_views(items@)),
{
    let ghost all = item_views(items@);
    let mut rest = items;
    let mut sorted: Vec<FeedItem> = Vec::new();
    assert(item_views(sorted@) =~= Seq::<ItemView>::empty());
    assert forall|date: i64|
        published_at(item_views(rest@), date) + published_at(item_views(sorted@), date)
            == #[trigger] published_at(all, date) by {
        assert(published_at(item_views(rest@), date) + Seq::<ItemView>::empty() =~= published_at(
            all,
            date,
        ));
    }
    while rest.len() > 0
        invariant
            chronological(item_views(sorted@)),
            forall|date: i64|
                published_at(item_views(rest@), date) + published_at(item_views(sorted@), date)
                    == #[trigger] published_at(all, date),
        decreases rest.len(),
    {
        let ghost rest_before = item_views(rest@);
        let ghost sorted_before = item_views(sorted@);
        let item = rest.pop().unwrap();
        let mut at: usize = 0;
        while at < sorted.len() && sorted[at].publication_date < item.publication_date
            invariant
                at <= sorted.len(),
                forall|k: int| 0 <= k < at ==> sorted@[k].publication_date < item.publication_date,
            decreases sorted.len() - at,
        {
            at = at + 1;
        }
        proof {
            assert forall|k: int| 0 <= k < sorted_before.len() implies (if k < at {
                sorted_before[k].publication_date < item.publication_date
            } else {
                sorted_before[k].publication_date >= item.publication_date
            }) by {
                if k < at {
                    assert(sorted_before[k] == sorted@[k]@);
                } else {
                    assert(sorted_before[at as int] == sorted@[at as int]@);
                    assert(sorted_before[k] == sorted@[k]@);
                }
            }
        }
        sorted.insert(at, item);
        proof {
            let now_rest = item_views(rest@);
            let now_sorted = item_views(sorted@);
            assert(now_sorted =~= sorted_before.insert(at as int, item@));
            assert(rest_before =~= now_rest.push(item@));
            assert(rest_before.drop_last() =~= now_rest);
            assert forall|date: i64|
                published_at(now_rest, date) + published_at(now_sorted, date)
                    == #[trigger] published_at(all, date) by {
                lemma_published_at_insert(sorted_before, at as int, item@, date);
                let before = published_at(rest_before, date) + published_at(sorted_before, date);
                assert(before == published_at(all, date));
                assert(published_at(now_rest, date) + published_at(now_sorted, date) =~= before);
            }
            assert forall|a: int, b: int| 0 <= a < b < now_sorted.len() implies
                now_sorted[a].publication_date <= now_sorted[b].publication_date by {
                if a < at && b > at {
                    assert(now_sorted[a] == sorted_before[a]);
                    assert(now_sorted[b] == sorted_before[b - 1]);
                } else if a < at && b == at {
                    assert(now_sorted[a] == sorted_before[a]);
                } else if a == at {
                    assert(now_sorted[b] == sorted_before[b - 1]);
                } else if a > at {
                    assert(now_sorted[a] == sorted_before[a - 1]);
                    assert(now_sorted[b] == sorted_before[b - 1]);
                } else {
                    assert(now_sorted[a] == sorted_before[a]);
                    assert(now_sorted[b] == sorted_before[b]);
                }
            }
        }
    }
    assert forall|date: i64| #[trigger]
        published_at(item_views(sorted@), date) == published_at(all, date) by {
        assert(item_views(rest@) =~= Seq::<ItemView>::empty());
        assert(Seq::<ItemView>::empty() + published_at(item_views(sorted@), date) =~= published_at(
            item_views(sorted@),
            date,
        ));
        assert(published_at(item_views(rest@), date) + published_at(item_views(sorted@), date)
            == published_at(all, date));
    }
    sorted
}

/// Why a notification did not reach its subscriber.
#[derive(Clone, Copy, Debug, PartialEq, Eq, Structural)]
pub enum DeliveryError {
    /// The transport did not take the message.
    Transport,
}

/// One notification to send: an item of the cycle for a scope of the cycle.
#[derive(Clone, Copy, Debug, PartialEq, Eq, Structural)]
pub struct Delivery {
    /// The subscriber to notify.
    pub subscriber: i64,
    /// The position of the item among the cycle's items.
    pub item: usize,
    /// The position of the scope among the cycle's scopes.
    pub scope: usize,
    /// When the item was published.
    pub item_timestamp: i64,
}

/// Where a cycle stands, as plain values.
pub struct CycleView {
    /// The feed that the cycle is about.
    pub url: Seq<char>,
    /// The items fetched, oldest first.
    pub items: Seq<ItemView>,
    /// The scopes of those who followed the feed when the cycle began, each
    /// with the deliveries of this cycle recorded.
    pub scopes: Seq<ScopeView>,
    /// For each scope, whether a delivery to it failed in this cycle.
    pub blocked: Seq<bool>,
    /// The item of the pair to look at next.
    pub item: int,
    /// The scope of the pair to look at next.
    pub scope: int,
}

impl CycleView {
    /// The parts of the cycle fit together.
    pub open spec fn wf(self) -> bool {
        &&& chronological(self.items)
        &&& self.blocked.len() == self.scopes.len()
        &&& 0 <= self.item <= self.items.len()
        &&& 0 <= self.scope <= self.scopes.len()
    }

    /// `(item, scope)` is a pair of the cycle.
    pub open spec fn has_pair(self, item: int, scope: int) -> bool {
        0 <= item < self.items.len() && 0 <= scope < self.scopes.len()
    }

    /// The pair `(item, scope)` is still to be looked at. Pairs are taken
    /// item by item, and for each item scope by scope.
    pub open spec fn ahead(self, item: int, scope: int) -> bool {
        item > self.item || (item == self.item && scope >= self.scope)
    }

    /// The item of the pair may go out to the scope of the pair at `now`:
    /// no delivery to the scope failed in this cycle, the cooldown gate lets
    /// the item through, and the item passes the scope's whitelist.
    pub open spec fn deliverable(self, item: int, scope: int, now: i64) -> bool {
        &&& !self.blocked[scope]
        &&& self.scopes[scope].data.is_eligible(self.items[item].publication_date, now)
        &&& title_matches(self.scopes[scope].whitelist, self.items[item].title)
    }

    /// The cycle after its look-at position moved.
    pub open spec fn moved_to(self, item: int, scope: int) -> CycleView {
        CycleView { item, scope, ..self }
    }

    /// The cycle after the delivery of the pair `(item, scope)` succeeded:
    /// the scope has the item recorded.
    pub open spec fn delivered(self, item: int, scope: int) -> CycleView {
        CycleView {
            scopes: self.scopes.update(
                scope,
                ScopeView {
                    data: self.scopes[scope].data.recorded(self.items[item].publication_date),
                    ..self.scopes[scope]
                },
            ),
            ..self
        }
    }

    /// The cycle after a delivery to the scope failed: the scope takes
    /// nothing more in this cycle.
    pub open spec fn failed(self, scope: int) -> CycleView {
        CycleView { blocked: self.blocked.update(scope, true), ..self }
    }
}

/// Within a cycle, an item that went out to a scope is not due for that
/// scope again, nor is any item published up to then, whenever it is asked.
pub proof fn lemma_delivered_is_not_due_again(
    cycle: CycleView,
    item: int,
    scope: int,
    again: int,
    now: i64,
)
    requires
        cycle.has_pair(item, scope),
        cycle.has_pair(again, scope),
        cycle.items[again].publication_date <= cycle.items[item].publication_date,
    ensures
        !cycle.delivered(item, scope).deliverable(again, scope, now),
{
}

/// Within a cycle, nothing is due for a scope after a delivery to it
/// failed, while every other scope is as it was.
pub proof fn lemma_failure_blocks_one_scope(
    cycle: CycleView,
    scope: int,
    item: int,
    other: int,
    now: i64,
)
    requires
        cycle.wf(),
        cycle.has_pair(item, scope),
        cycle.has_pair(item, other),
        other != scope,
    ensures
        !cycle.failed(scope).deliverable(item, scope, now),
        cycle.failed(scope).deliverable(item, other, now) == cycle.deliverable(item, other, now),
        cycle.failed(scope).scopes == cycle.scopes,
{
}

/// `(a_item, a_scope)` comes before `(b_item, b_scope)`.
pub open spec fn pair_before(a_item: int, a_scope: int, b_item: int, b_scope: int) -> bool {
    a_item < b_item || (a_item == b_item && a_scope < b_scope)
}

/// One pass over a fetched feed.
pub struct Cycle {
    url: String,
    items: Vec<FeedItem>,
    scopes: Vec<Scope>,
    blocked: Vec<bool>,
    item: usize,
    scope: usize,
}

impl View for Cycle {
    type V = CycleView;

    closed spec fn view(&self) -> CycleView {
        CycleView {
            url: self.url@,
            items: item_views(self.items@),
            scopes: scope_views(self.scopes@),
            blocked: self.blocked@,
            item: self.item as int,
            scope: self.scope as int,
        }
    }
}

impl Cycle {
    /// The parts of the cycle fit together.
    #[verifier::type_invariant]
    spec fn fits(&self) -> bool {
        self@.wf()
    }

    /// Begins a cycle for a fetched feed: drops the items that repeat an
    /// earlier one, puts the rest in the order of their publication, and
    /// takes the scopes of those who follow the feed now. Who joins or
    /// leaves later is not seen by this cycle.
    pub fn begin(index: &State, feed: crate::feed::Feed) -> (r: Cycle)
        ensures
            r@.wf(),
            r@.url == feed.url@,
            sorted_from(r@.items, without_repeats(item_views(feed.items@))),
            r@.scopes == scopes_of(index@, feed.url@),
            forall|s: int| 0 <= s < r@.blocked.len() ==> !r@.blocked[s],
            r@.item == 0,
            r@.scope == 0,
    {
        let scopes = index.subscribers_of(feed.url.as_str());
        let items = sort_chronologically(unique_items(&feed.items));
        let mut blocked: Vec<bool> = Vec::new();
        while blocked.len() < scopes.len()
            invariant
                blocked.len() <= scopes.len(),
                forall|s: int| 0 <= s < blocked.len() ==> !blocked@[s],
            decreases scopes.len() - blocked.len(),
        {
            blocked.push(false);
        }
        Cycle { url: feed.url, items, scopes, blocked, item: 0, scope: 0 }
    }

    /// The item at this position of the cycle.
    pub fn item(&self, at: usize) -> (r: Option<&FeedItem>)
        ensures
            match r {
                Some(item) => at < self@.items.len() && item@ == self@.items[at as int],
                None => at >= self@.items.len(),
            },
    {
        if at < self.items.len() {
            Some(&self.items[at])
        } else {
            None
        }
    }

    /// The scope at this position of the cycle.
    pub fn scope(&self, at: usize) -> (r: Option<&Scope>)
        ensures
            match r {
                Some(scope) => at < self@.scopes.len() && scope@ == self@.scopes[at as int],
                None => at >= self@.scopes.len(),
            },
    {
        if at < self.scopes.len() {
            Some(&self.scopes[at])
        } else {
            None
        }
    }

    /// Finds the next notification to send at `now`: the first pair still
    /// to be looked at whose item may go out to its scope. The cycle moves
    /// past that pair. `None` when no such pair is left; the cycle is then
    /// at its end.
    pub fn next(&mut self, now: i64) -> (r: Option<Delivery>)
        ensures
            old(self)@.wf(),
            final(self)@.wf(),
            match r {
                Some(d) => {
                    &&& old(self)@.has_pair(d.item as int, d.scope as int)
                    &&& old(self)@.ahead(d.item as int, d.scope as int)
                    &&& old(self)@.deliverable(d.item as int, d.scope as int, now)
                    &&& forall|i: int, s: int|
                        old(self)@.has_pair(i, s) && old(self)@.ahead(i, s) && pair_before(
                            i,
                            s,
                            d.item as int,
                            d.scope as int,
                        ) ==> !#[trigger] old(self)@.deliverable(i, s, now)
                    &&& d.subscriber == old(self)@.scopes[d.scope as int].data.user_id
                    &&& d.item_timestamp == old(self)@.items[d.item as int].publication_date
                    &&& final(self)@ == old(self)@.moved_to(d.item as int, d.scope + 1)
                },
                None => {
                    &&& forall|i: int, s: int|
                        old(self)@.has_pair(i, s) && old(self)@.ahead(i, s) ==> !#[trigger] old(
                            self,
                        )@.deliverable(i, s, now)
                    &&& final(self)@ == old(self)@.moved_to(old(self)@.items.len() as int, 0)
                },
            },
    {
        proof {
            use_type_invariant(&*self);
        }
        let mut i: usize = self.item;
        let mut s: usize = self.scope;
        while i < self.items.len()
            invariant
                self@ == old(self)@,
                self@.wf(),
                i <= self.items.len(),
                s <= self.scopes.len(),
                self@.ahead(i as int, s as int) || i == self.items.len(),
                forall|a: int, b: int|
                    self@.has_pair(a, b) && self@.ahead(a, b) && pair_before(
                        a,
                        b,
                        i as int,
                        s as int,
                    ) ==> !#[trigger] self@.deliverable(a, b, now),
            decreases self.items.len() - i, self.scopes.len() - s,
        {
            if s < self.scopes.len() {
                if !self.blocked[s] && self.scopes[s].data.eligible(
                    self.items[i].publication_date,
                    now,
                ) && crate::filter::matches(&self.scopes[s].whitelist, &self.items[i]) {
                    let found = Delivery {
                        subscriber: self.scopes[s].data.user_id,
                        item: i,
                        scope: s,
                        item_timestamp: self.items[i].publication_date,
                    };
                    self.item = i;
                    self.scope = s + 1;
                    return Some(found);
                }
                s = s + 1;
            } else {
                i = i + 1;
                s = 0;
            }
        }
        self.item = i;
        self.scope = 0;
        None
    }

    /// Takes the outcome of a notification that `next` handed out. On
    /// success the item is recorded once for the scope, in the cycle and, if
    /// the subscriber still follows the feed, in the index. On failure
    /// nothing is recorded, so the item is due again in the next cycle, and
    /// the scope takes nothing more in this one, so that no later item
    /// overtakes the one that failed. A delivery that names no pair of the
    /// cycle changes nothing.
    pub fn settle(
        &mut self,
        index: &mut State,
        delivery: &Delivery,
        outcome: Result<(), DeliveryError>,
    )
        ensures
            final(self)@.wf(),
            final(index).wf(),
            if old(self)@.has_pair(delivery.item as int, delivery.scope as int) {
                match outcome {
                    Ok(_) => {
                        &&& final(self)@ == old(self)@.delivered(
                            delivery.item as int,
                            delivery.scope as int,
                        )
                        &&& final(index)@ == after_delivery(
                            old(index)@,
                            old(self)@.scopes[delivery.scope as int].data.user_id,
                            old(self)@.url,
                            old(self)@.items[delivery.item as int].publication_date,
                        )
                    },
                    Err(_) => {
                        &&& final(self)@ == old(self)@.failed(delivery.scope as int)
                        &&& final(index)@ == old(index)@
                    },
                }
            } else {
                final(self)@ == old(self)@ && final(index)@ == old(index)@
            },
    {
        proof {
            use_type_invariant(&*self);
        }
        index.assure();
        if delivery.item >= self.items.len() || delivery.scope >= self.scopes.len() {
            return ;
        }
        let s = delivery.scope;
        match outcome {
            Ok(_) => {
                let published = self.items[delivery.item].publication_date;
                let subscriber = self.scopes[s].data.user_id;
                self.scopes[s].data.record_delivery(published);
                index.record_delivery(subscriber, self.url.as_str(), published);
                assert(self@.scopes =~= old(self)@.delivered(
                    delivery.item as int,
                    delivery.scope as int,
                ).scopes);
            },
            Err(_) => {
                self.blocked[s] = true;
            },
        }
    }
}

} // verus!
