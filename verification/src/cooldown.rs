//! The cooldown gate: may an item go out to a scope now, and what a
//! delivery leaves behind.

use vstd::prelude::*;
use crate::domain_types::FeedData;

verus! {

/// The newest delivery after one of an item published at `item_timestamp`:
/// the later of the two, so that it never moves backward.
pub open spec fn later(last: Option<i64>, item_timestamp: i64) -> i64 {
    match last {
        Some(l) => if l >= item_timestamp {
            l
        } else {
            item_timestamp
        },
        None => item_timestamp,
    }
}

/// Where a `last_item_sent` stands in time; one that is absent stands
/// before every timestamp.
pub open spec fn rank(last: Option<i64>) -> int {
    match last {
        Some(l) => l as int,
        None => i64::MIN - 1,
    }
}

impl FeedData {
    /// An item published at `item_timestamp` may go out at `now`: it is newer
    /// than the newest delivered, and the cooldown since that one has passed.
    /// A scope that has never been evaluated takes any item.
    pub open spec fn is_eligible(self, item_timestamp: i64, now: i64) -> bool {
        match self.last_item_sent {
            None => true,
            Some(last) => item_timestamp > last && now - last >= self.cooldown,
        }
    }

    /// The scope after a delivery of an item published at `item_timestamp`.
    pub open spec fn recorded(self, item_timestamp: i64) -> FeedData {
        FeedData { last_item_sent: Some(later(self.last_item_sent, item_timestamp)), ..self }
    }

    /// The scope after deliveries of items published at `timestamps`, in
    /// that order.
    pub open spec fn recorded_all(self, timestamps: Seq<i64>) -> FeedData
        decreases timestamps.len(),
    {
        if timestamps.len() == 0 {
            self
        } else {
            self.recorded_all(timestamps.drop_last()).recorded(timestamps.last())
        }
    }

    /// The state of a scope that was never evaluated.
    pub fn new(user_id: i64, category_id: Option<u32>, cooldown: u64) -> (r: FeedData)
        ensures
            r == (FeedData { user_id, category_id, last_item_sent: None, cooldown }),
    {
        FeedData { user_id, category_id, last_item_sent: None, cooldown }
    }

    /// The state of a scope created at `now`: nothing published up to then
    /// will go out.
    pub fn seeded(user_id: i64, category_id: Option<u32>, cooldown: u64, now: i64) -> (r: FeedData)
        ensures
            r == (FeedData { user_id, category_id, last_item_sent: Some(now), cooldown }),
    {
        FeedData { user_id, category_id, last_item_sent: Some(now), cooldown }
    }

    /// Tells whether an item published at `item_timestamp` may go out to
    /// this scope at `now`.
    pub fn eligible(&self, item_timestamp: i64, now: i64) -> (r: bool)
        ensures
            r == self.is_eligible(item_timestamp, now),
    {
        match self.last_item_sent {
            None => true,
            Some(last) => {
                let waited: i128 = now as i128 - last as i128;
                item_timestamp > last && waited >= self.cooldown as i128
            },
        }
    }

    /// Records that an item published at `item_timestamp` went out.
    pub fn record_delivery(&mut self, item_timestamp: i64)
        ensures
            *final(self) == old(self).recorded(item_timestamp),
            rank(final(self).last_item_sent) >= rank(old(self).last_item_sent),
            rank(final(self).last_item_sent) >= item_timestamp,
    {
        let newest = match self.last_item_sent {
            Some(last) => if last >= item_timestamp {
                last
            } else {
                item_timestamp
            },
            None => item_timestamp,
        };
        self.last_item_sent = Some(newest);
    }
}

/// Recording deliveries changes nothing but `last_item_sent`, and leaves it
/// at or after both where it stood and every timestamp recorded.
pub proof fn lemma_recorded_all(scope: FeedData, timestamps: Seq<i64>)
    ensures
        scope.recorded_all(timestamps).user_id == scope.user_id,
        scope.recorded_all(timestamps).category_id == scope.category_id,
        scope.recorded_all(timestamps).cooldown == scope.cooldown,
        rank(scope.recorded_all(timestamps).last_item_sent) >= rank(scope.last_item_sent),
        forall|k: int|
            0 <= k < timestamps.len() ==> rank(scope.recorded_all(timestamps).last_item_sent)
                >= #[trigger] timestamps[k],
    decreases timestamps.len(),
{
    if timestamps.len() > 0 {
        lemma_recorded_all(scope, timestamps.drop_last());
        let before = scope.recorded_all(timestamps.drop_last());
        assert forall|k: int| 0 <= k < timestamps.len() implies rank(
            scope.recorded_all(timestamps).last_item_sent,
        ) >= #[trigger] timestamps[k] by {
            if k < timestamps.len() - 1 {
                assert(timestamps.drop_last()[k] == timestamps[k]);
            }
        }
    }
}

/// Cooldown monotonicity: over any sequence of recorded deliveries,
/// `last_item_sent` never moves backward. After the first `i` deliveries it
/// stands no later than after the first `j`, for every `i <= j`.
pub proof fn lemma_last_item_sent_never_decreases(
    scope: FeedData,
    timestamps: Seq<i64>,
    i: int,
    j: int,
)
    requires
        0 <= i <= j <= timestamps.len(),
    ensures
        rank(scope.recorded_all(timestamps.take(i)).last_item_sent) <= rank(
            scope.recorded_all(timestamps.take(j)).last_item_sent,
        ),
    decreases j - i,
{
    if i < j {
        lemma_last_item_sent_never_decreases(scope, timestamps, i, j - 1);
        assert(timestamps.take(j).drop_last() =~= timestamps.take(j - 1));
    }
}

/// Idempotence: once a delivery has been recorded for a timestamp at or
/// after an item's, the item is never eligible for that scope again,
/// whatever is recorded afterwards and whenever it is asked.
pub proof fn lemma_no_redelivery(
    scope: FeedData,
    timestamps: Seq<i64>,
    k: int,
    item_timestamp: i64,
    now: i64,
)
    requires
        0 <= k < timestamps.len(),
        timestamps[k] >= item_timestamp,
    ensures
        !scope.recorded_all(timestamps).is_eligible(item_timestamp, now),
{
    lemma_recorded_all(scope, timestamps);
}

/// First-subscribe silence: a scope seeded at `subscribed_at` never takes
/// an item published before then (nor one published at that very second),
/// whatever deliveries are recorded in between and whenever it is asked.
pub proof fn lemma_first_subscribe_silence(
    scope: FeedData,
    subscribed_at: i64,
    timestamps: Seq<i64>,
    item_timestamp: i64,
    now: i64,
)
    requires
        scope.last_item_sent == Some(subscribed_at),
        item_timestamp <= subscribed_at,
    ensures
        !scope.recorded_all(timestamps).is_eligible(item_timestamp, now),
{
    lemma_recorded_all(scope, timestamps);
}

} // verus!
