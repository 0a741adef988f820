//! When each feed is fetched: one slot per feed URL, each with a small state
//! machine of its own, so that no feed waits for another and no feed is
//! fetched twice at once.

use vstd::prelude::*;
use crate::domain_types::texts;
use crate::feed::FetchError;
use crate::lookup::{distinct, first_index, lemma_first_index_is, lemma_first_index_none};
use crate::state::has_word;

verus! {

/// Where a feed stands in its cycle.
#[derive(Clone, Copy, Debug, PartialEq, Eq, Structural)]
pub enum FeedStatus {
    /// Waiting for its next fetch.
    Idle,
    /// A fetch is under way.
    Fetching,
    /// The fetch gave items, which are being delivered.
    Processing,
    /// The fetch failed.
    FetchFailed,
    /// Too many fetches failed in a row; left alone until it is resumed or
    /// its suspension is over.
    Suspended,
}

/// What happened to a feed.
#[derive(Clone, Copy, Debug, PartialEq, Eq, Structural)]
pub enum PollEvent {
    /// The scheduler came by.
    Tick,
    /// The fetch gave items.
    Fetched,
    /// The fetch failed.
    Failed(FetchError),
    /// The cycle is over: every delivery has its outcome, or the failure
    /// has been reported.
    Settled,
    /// Someone asked to try a suspended feed again.
    Resume,
}

/// What to do for a feed next.
#[derive(Clone, Copy, Debug, PartialEq, Eq, Structural)]
pub enum PollAction {
    Nothing,
    /// Fetch the feed and report `Fetched` or `Failed`.
    Fetch,
    /// Deliver the items and report `Settled`.
    Process,
}

/// How feeds are polled.
#[derive(Clone, Copy, Debug, PartialEq, Eq, Structural)]
pub struct PollConfig {
    /// Seconds between the end of one cycle and the next fetch.
    pub interval: u64,
    /// The number of failed fetches in a row that a feed is allowed.
    pub failure_threshold: u32,
    /// Seconds for which a feed that exceeded the threshold is left alone
    /// before the scheduler tries it again.
    pub suspension: u64,
}

/// The state of one feed's polling.
#[derive(Clone, Copy, Debug, PartialEq, Eq, Structural)]
pub struct Poll {
    pub status: FeedStatus,
    /// The fetches that failed since the last one that gave items.
    pub failures: u32,
    /// The time from which the feed may be fetched again.
    pub next_due: i64,
}

/// The time `interval` seconds after `now`, or the last time there is.
pub open spec fn due_after(now: i64, interval: u64) -> i64 {
    if now + interval > i64::MAX {
        i64::MAX
    } else {
        (now + interval) as i64
    }
}

/// One failure more, as far as the counter counts.
pub open spec fn one_more(failures: u32) -> u32 {
    if failures == u32::MAX {
        failures
    } else {
        (failures + 1) as u32
    }
}

/// A feed in this status has a cycle under way.
pub open spec fn in_flight(status: FeedStatus) -> bool {
    status == FeedStatus::Fetching || status == FeedStatus::Processing || status
        == FeedStatus::FetchFailed
}

impl Poll {
    /// The feed after an event at `now`, and what to do next.
    ///
    /// An idle feed that is due starts a fetch. A fetch ends in processing,
    /// or in failure with one failure more on the counter. A cycle that
    /// processed ends idle with the counter cleared, and one that failed ends
    /// idle with the counter kept; the next fetch is due one interval later.
    /// Once the failures in a row exceed the threshold, the cycle that failed
    /// ends suspended instead, for as long as the suspension lasts: then the
    /// scheduler tries the feed again, with the counter kept. A suspended feed
    /// that is resumed is idle at once, with the counter cleared. Every other
    /// event changes nothing.
    pub open spec fn step(self, event: PollEvent, now: i64, config: PollConfig) -> (
        Poll,
        PollAction,
    ) {
        match (self.status, event) {
            (FeedStatus::Idle, PollEvent::Tick) | (FeedStatus::Suspended, PollEvent::Tick) => if now
                >= self.next_due {
                (Poll { status: FeedStatus::Fetching, ..self }, PollAction::Fetch)
            } else {
                (self, PollAction::Nothing)
            },
            (FeedStatus::Fetching, PollEvent::Fetched) => (
                Poll { status: FeedStatus::Processing, ..self },
                PollAction::Process,
            ),
            (FeedStatus::Fetching, PollEvent::Failed(_)) => (
                Poll { status: FeedStatus::FetchFailed, failures: one_more(self.failures), ..self },
                PollAction::Nothing,
            ),
            (FeedStatus::Processing, PollEvent::Settled) => (
                Poll {
                    status: FeedStatus::Idle,
                    failures: 0,
                    next_due: due_after(now, config.interval),
                },
                PollAction::Nothing,
            ),
            (FeedStatus::FetchFailed, PollEvent::Settled) => if self.failures
                > config.failure_threshold {
                (
                    Poll {
                        status: FeedStatus::Suspended,
                        next_due: due_after(now, config.suspension),
                        ..self
                    },
                    PollAction::Nothing,
                )
            } else {
                (
                    Poll {
                        status: FeedStatus::Idle,
                        next_due: due_after(now, config.interval),
                        ..self
                    },
                    PollAction::Nothing,
                )
            },
            (FeedStatus::Suspended, PollEvent::Resume) => (
                Poll { status: FeedStatus::Idle, failures: 0, next_due: now },
                PollAction::Nothing,
            ),
            _ => (self, PollAction::Nothing),
        }
    }

    /// The scheduler would start a fetch at `now`.
    pub open spec fn is_due(self, now: i64) -> bool {
        (self.status == FeedStatus::Idle || self.status == FeedStatus::Suspended) && now
            >= self.next_due
    }

    /// A feed that is new at `now`: idle, due at once, with no failure.
    pub fn fresh(now: i64) -> (r: Poll)
        ensures
            r == (Poll { status: FeedStatus::Idle, failures: 0, next_due: now }),
    {
        Poll { status: FeedStatus::Idle, failures: 0, next_due: now }
    }

    /// Tells whether the scheduler would start a fetch at `now`.
    pub fn due(&self, now: i64) -> (r: bool)
        ensures
            r == self.is_due(now),
    {
        (self.status == FeedStatus::Idle || self.status == FeedStatus::Suspended) && now
            >= self.next_due
    }

    /// Takes an event at `now` and returns what to do next.
    pub fn apply(&mut self, event: PollEvent, now: i64, config: &PollConfig) -> (r: PollAction)
        ensures
            (*final(self), r) == old(self).step(event, now, *config),
    {
        match (self.status, event) {
            (FeedStatus::Idle, PollEvent::Tick) | (FeedStatus::Suspended, PollEvent::Tick) => {
                if now >= self.next_due {
                    self.status = FeedStatus::Fetching;
                    PollAction::Fetch
                } else {
                    PollAction::Nothing
                }
            },
            (FeedStatus::Fetching, PollEvent::Fetched) => {
                self.status = FeedStatus::Processing;
                PollAction::Process
            },
            (FeedStatus::Fetching, PollEvent::Failed(_)) => {
                self.status = FeedStatus::FetchFailed;
                if self.failures < u32::MAX {
                    self.failures = self.failures + 1;
                }
                PollAction::Nothing
            },
            (FeedStatus::Processing, PollEvent::Settled) => {
                self.status = FeedStatus::Idle;
                self.failures = 0;
                self.next_due = later_by(now, config.interval);
                PollAction::Nothing
            },
            (FeedStatus::FetchFailed, PollEvent::Settled) => {
                if self.failures > config.failure_threshold {
                    self.status = FeedStatus::Suspended;
                    self.next_due = later_by(now, config.suspension);
                } else {
                    self.status = FeedStatus::Idle;
                    self.next_due = later_by(now, config.interval);
                }
                PollAction::Nothing
            },
            (FeedStatus::Suspended, PollEvent::Resume) => {
                self.status = FeedStatus::Idle;
                self.failures = 0;
                self.next_due = now;
                PollAction::Nothing
            },
            _ => PollAction::Nothing,
        }
    }
}

/// The time `interval` seconds after `now`, or the last time there is.
pub fn later_by(now: i64, interval: u64) -> (r: i64)
    ensures
        r == due_after(now, interval),
{
    let sum: i128 = now as i128 + interval as i128;
    if sum > i64::MAX as i128 {
        i64::MAX
    } else {
        sum as i64
    }
}

/// Single flight: while a cycle for a feed is under way, the scheduler
/// starts no fetch for it and changes nothing.
pub proof fn lemma_single_flight(poll: Poll, now: i64, config: PollConfig)
    requires
        in_flight(poll.status),
    ensures
        poll.step(PollEvent::Tick, now, config) == (poll, PollAction::Nothing),
{
}

/// A fetch is started only by the scheduler, and only for a feed that is
/// due: an idle one whose interval is over, or a suspended one whose
/// suspension is over.
pub proof fn lemma_fetch_only_when_due(poll: Poll, event: PollEvent, now: i64, config: PollConfig)
    ensures
        poll.step(event, now, config).1 == PollAction::Fetch <==> event == PollEvent::Tick
            && poll.is_due(now),
{
}

/// The polling of one feed.
#[derive(Debug)]
pub struct FeedSlot {
    pub url: String,
    pub poll: Poll,
}

/// What a `FeedSlot` holds, as plain values.
pub struct SlotView {
    pub url: Seq<char>,
    pub poll: Poll,
}

impl View for FeedSlot {
    type V = SlotView;

    open spec fn view(&self) -> SlotView {
        SlotView { url: self.url@, poll: self.poll }
    }
}

/// The views of a sequence of slots, in order.
pub open spec fn slot_views(slots: Seq<FeedSlot>) -> Seq<SlotView> {
    Seq::new(slots.len(), |i: int| slots[i]@)
}

/// The URLs of a sequence of slots, in order.
pub open spec fn slot_urls(slots: Seq<SlotView>) -> Seq<Seq<char>> {
    Seq::new(slots.len(), |i: int| slots[i].url)
}

/// A slot stays when the polling set is brought up to date: its feed is
/// still followed, or its cycle is under way and may finish first.
pub open spec fn stays(slot: SlotView, urls: Seq<Seq<char>>) -> bool {
    urls.contains(slot.url) || in_flight(slot.poll.status)
}

/// The slots that stay, in their order.
pub open spec fn retained(slots: Seq<SlotView>, urls: Seq<Seq<char>>) -> Seq<SlotView>
    decreases slots.len(),
{
    if slots.len() == 0 {
        Seq::empty()
    } else {
        let rest = retained(slots.drop_last(), urls);
        if stays(slots.last(), urls) {
            rest.push(slots.last())
        } else {
            rest
        }
    }
}

/// The slots after each URL that has none got a fresh one, in the order of
/// the URLs.
pub open spec fn enrolled(slots: Seq<SlotView>, urls: Seq<Seq<char>>, now: i64) -> Seq<SlotView>
    decreases urls.len(),
{
    if urls.len() == 0 {
        slots
    } else {
        let before = enrolled(slots, urls.drop_last(), now);
        if slot_urls(before).contains(urls.last()) {
            before
        } else {
            before.push(
                SlotView {
                    url: urls.last(),
                    poll: Poll { status: FeedStatus::Idle, failures: 0, next_due: now },
                },
            )
        }
    }
}

/// The URLs of the slots that are due at `now`, in the order of the slots.
pub open spec fn due_urls(slots: Seq<SlotView>, now: i64) -> Seq<Seq<char>>
    decreases slots.len(),
{
    if slots.len() == 0 {
        Seq::empty()
    } else {
        let rest = due_urls(slots.drop_last(), now);
        if slots.last().poll.is_due(now) {
            rest.push(slots.last().url)
        } else {
            rest
        }
    }
}

/// The slots after the feed with this URL took an event at `now`; as before
/// where no slot has the URL.
pub open spec fn after_event(
    slots: Seq<SlotView>,
    url: Seq<char>,
    event: PollEvent,
    now: i64,
    config: PollConfig,
) -> Seq<SlotView> {
    match first_index(slot_urls(slots), url) {
        Some(i) => slots.update(
            i,
            SlotView { poll: slots[i].poll.step(event, now, config).0, ..slots[i] },
        ),
        None => slots,
    }
}

/// What to do after the feed with this URL took an event at `now`; nothing
/// where no slot has the URL.
pub open spec fn action_for(
    slots: Seq<SlotView>,
    url: Seq<char>,
    event: PollEvent,
    now: i64,
    config: PollConfig,
) -> PollAction {
    match first_index(slot_urls(slots), url) {
        Some(i) => slots[i].poll.step(event, now, config).1,
        None => PollAction::Nothing,
    }
}

/// Every URL of the slots that stay was a URL of the slots.
proof fn lemma_retained_urls(slots: Seq<SlotView>, urls: Seq<Seq<char>>)
    ensures
        forall|k: int|
            0 <= k < retained(slots, urls).len() ==> slot_urls(slots).contains(
                #[trigger] retained(slots, urls)[k].url,
            ),
    decreases slots.len(),
{
    if slots.len() > 0 {
        lemma_retained_urls(slots.drop_last(), urls);
        let rest = retained(slots.drop_last(), urls);
        assert forall|k: int| 0 <= k < retained(slots, urls).len() implies slot_urls(
            slots,
        ).contains(#[trigger] retained(slots, urls)[k].url) by {
            if k < rest.len() {
                let m = choose|m: int|
                    0 <= m < slot_urls(slots.drop_last()).len() && slot_urls(slots.drop_last())[m]
                        == rest[k].url;
                assert(slot_urls(slots)[m] == rest[k].url);
            } else {
                assert(slot_urls(slots)[slots.len() - 1] == slots.last().url);
            }
        }
    }
}

/// The slots that stay have no URL twice if the slots had none twice.
proof fn lemma_retained_distinct(slots: Seq<SlotView>, urls: Seq<Seq<char>>)
    requires
        distinct(slot_urls(slots)),
    ensures
        distinct(slot_urls(retained(slots, urls))),
    decreases slots.len(),
{
    if slots.len() > 0 {
        assert forall|a: int, b: int| 0 <= a < b < slots.len() - 1 implies slot_urls(
            slots.drop_last(),
        )[a] != slot_urls(slots.drop_last())[b] by {
            assert(slot_urls(slots)[a] != slot_urls(slots)[b]);
        }
        lemma_retained_distinct(slots.drop_last(), urls);
        lemma_retained_urls(slots.drop_last(), urls);
        let rest = retained(slots.drop_last(), urls);
        let all = retained(slots, urls);
        assert forall|a: int, b: int| 0 <= a < b < all.len() implies slot_urls(all)[a] != slot_urls(
            all,
        )[b] by {
            if b < rest.len() {
                assert(slot_urls(rest)[a] != slot_urls(rest)[b]);
            } else {
                let m = choose|m: int|
                    0 <= m < slot_urls(slots.drop_last()).len() && slot_urls(slots.drop_last())[m]
                        == rest[a].url;
                assert(slot_urls(slots)[m] != slot_urls(slots)[slots.len() - 1]);
            }
        }
    }
}

/// Enrolling keeps the URLs of the slots apart.
proof fn lemma_enrolled_distinct(slots: Seq<SlotView>, urls: Seq<Seq<char>>, now: i64)
    requires
        distinct(slot_urls(slots)),
    ensures
        distinct(slot_urls(enrolled(slots, urls, now))),
    decreases urls.len(),
{
    if urls.len() > 0 {
        lemma_enrolled_distinct(slots, urls.drop_last(), now);
        let before = enrolled(slots, urls.drop_last(), now);
        let all = enrolled(slots, urls, now);
        if !slot_urls(before).contains(urls.last()) {
            assert forall|a: int, b: int| 0 <= a < b < all.len() implies slot_urls(all)[a]
                != slot_urls(all)[b] by {
                if b < before.len() {
                    assert(slot_urls(before)[a] != slot_urls(before)[b]);
                } else {
                    assert(slot_urls(before)[a] == slot_urls(all)[a]);
                }
            }
        }
    }
}

/// Finds the slot of the feed with this URL among some slots.
fn find_slot(slots: &Vec<FeedSlot>, url: &String) -> (r: Option<usize>)
    ensures
        match r {
            Some(i) => i < slots.len() && slots@[i as int].url@ == url@ && first_index(
                slot_urls(slot_views(slots@)),
                url@,
            ) == Some(i as int),
            None => first_index(slot_urls(slot_views(slots@)), url@) is None,
        },
{
    let ghost views = slot_views(slots@);
    let mut i: usize = 0;
    while i < slots.len()
        invariant
            i <= slots.len(),
            views == slot_views(slots@),
            forall|k: int| 0 <= k < i ==> slot_urls(views)[k] != url@,
        decreases slots.len() - i,
    {
        if slots[i].url == *url {
            proof {
                lemma_first_index_is(slot_urls(views), url@, i as int);
            }
            return Some(i);
        }
        i = i + 1;
    }
    proof {
        lemma_first_index_none(slot_urls(views), url@);
    }
    None
}

/// The feeds to poll and where each stands.
pub struct Orchestrator {
    slots: Vec<FeedSlot>,
    config: PollConfig,
}

impl View for Orchestrator {
    type V = Seq<SlotView>;

    closed spec fn view(&self) -> Seq<SlotView> {
        slot_views(self.slots@)
    }
}

impl Orchestrator {
    /// No URL has two slots.
    #[verifier::type_invariant]
    spec fn wf(&self) -> bool {
        distinct(slot_urls(slot_views(self.slots@)))
    }

    /// How the feeds are polled.
    pub closed spec fn settings(&self) -> PollConfig {
        self.config
    }

    /// An orchestrator with no feed to poll.
    pub fn new(config: PollConfig) -> (r: Self)
        ensures
            r@ == Seq::<SlotView>::empty(),
            r.settings() == config,
    {
        let slots: Vec<FeedSlot> = Vec::new();
        assert(slot_views(slots@) =~= Seq::<SlotView>::empty());
        Orchestrator { slots, config }
    }

    /// The number of feeds to poll.
    pub fn len(&self) -> (n: usize)
        ensures
            n == self@.len(),
    {
        self.slots.len()
    }

    /// How the feeds are polled.
    pub fn config(&self) -> (r: PollConfig)
        ensures
            r == self.settings(),
    {
        self.config
    }

    /// Finds the slot of the feed with this URL.
    pub fn find(&self, url: &String) -> (r: Option<usize>)
        ensures
            match r {
                Some(i) => i < self@.len() && self@[i as int].url == url@ && first_index(
                    slot_urls(self@),
                    url@,
                ) == Some(i as int),
                None => first_index(slot_urls(self@), url@) is None,
            },
    {
        find_slot(&self.slots, url)
    }

    /// Where the feed with this URL stands, if it has a slot.
    pub fn poll_of(&self, url: &str) -> (r: Option<Poll>)
        ensures
            match first_index(slot_urls(self@), url@) {
                Some(i) => r == Some(self@[i].poll),
                None => r is None,
            },
    {
        match self.find(&url.to_owned()) {
            Some(i) => Some(self.slots[i].poll),
            None => None,
        }
    }

    /// Brings the slots up to date with the polling set at `now`. A slot
    /// whose feed nobody follows any more goes, unless its cycle is under
    /// way; each URL without a slot gets a fresh one, due at once.
    pub fn sync(&mut self, urls: &Vec<String>, now: i64)
        ensures
            distinct(slot_urls(final(self)@)),
            final(self).settings() == old(self).settings(),
            final(self)@ == enrolled(retained(old(self)@, texts(urls@)), texts(urls@), now),
    {
        proof {
            use_type_invariant(&*self);
        }
        let ghost wanted = texts(urls@);
        let mut kept: Vec<FeedSlot> = Vec::new();
        let mut i: usize = 0;
        assert(self@.take(0) =~= Seq::<SlotView>::empty());
        assert(slot_views(kept@) =~= Seq::<SlotView>::empty());
        while i < self.slots.len()
            invariant
                i <= self.slots.len(),
                wanted == texts(urls@),
                slot_views(kept@) == retained(self@.take(i as int), wanted),
            decreases self.slots.len() - i,
        {
            proof {
                let next = self@.take(i + 1);
                assert(next.drop_last() =~= self@.take(i as int));
                assert(next.last() == self@[i as int]);
            }
            let slot = &self.slots[i];
            let busy = slot.poll.status == FeedStatus::Fetching || slot.poll.status
                == FeedStatus::Processing || slot.poll.status == FeedStatus::FetchFailed;
            if busy || has_word(urls, &slot.url) {
                let ghost before = slot_views(kept@);
                let copy = FeedSlot { url: slot.url.clone(), poll: slot.poll };
                assert(copy@ == self@[i as int]);
                kept.push(copy);
                assert(slot_views(kept@) =~= before.push(self@[i as int]));
            }
            i = i + 1;
        }
        assert(self@.take(i as int) =~= self@);
        let ghost base = retained(self@, wanted);
        let mut k: usize = 0;
        assert(wanted.take(0) =~= Seq::<Seq<char>>::empty());
        while k < urls.len()
            invariant
                k <= urls.len(),
                wanted == texts(urls@),
                slot_views(kept@) == enrolled(base, wanted.take(k as int), now),
            decreases urls.len() - k,
        {
            proof {
                let next = wanted.take(k + 1);
                assert(next.drop_last() =~= wanted.take(k as int));
                assert(next.last() == urls@[k as int]@);
            }
            let found = find_slot(&kept, &urls[k]);
            proof {
                crate::lookup::lemma_first_index(slot_urls(slot_views(kept@)), urls@[k as int]@);
            }
            if found.is_none() {
                let ghost before = slot_views(kept@);
                kept.push(FeedSlot { url: urls[k].clone(), poll: Poll::fresh(now) });
                assert(slot_views(kept@) =~= before.push(
                    SlotView {
                        url: urls@[k as int]@,
                        poll: Poll { status: FeedStatus::Idle, failures: 0, next_due: now },
                    },
                ));
            }
            k = k + 1;
        }
        assert(wanted.take(k as int) =~= wanted);
        proof {
            lemma_retained_distinct(self@, wanted);
            lemma_enrolled_distinct(base, wanted, now);
        }
        self.slots = kept;
    }

    /// Hands an event at `now` to the feed with this URL and returns what to
    /// do next. Where no slot has the URL, nothing changes and nothing is to
    /// do.
    pub fn handle(&mut self, url: &str, event: PollEvent, now: i64) -> (r: PollAction)
        ensures
            final(self).settings() == old(self).settings(),
            final(self)@ == after_event(old(self)@, url@, event, now, old(self).settings()),
            r == action_for(old(self)@, url@, event, now, old(self).settings()),
    {
        proof {
            use_type_invariant(&*self);
        }
        match self.find(&url.to_owned()) {
            None => PollAction::Nothing,
            Some(i) => {
                let config = self.config;
                let mut slots: Vec<FeedSlot> = Vec::new();
                assert(slot_views(slots@) =~= Seq::<SlotView>::empty());
                core::mem::swap(&mut slots, &mut self.slots);
                let r = slots[i].poll.apply(event, now, &config);
                assert(slot_views(slots@) =~= after_event(
                    old(self)@,
                    url@,
                    event,
                    now,
                    old(self).settings(),
                ));
                assert(slot_urls(slot_views(slots@)) =~= slot_urls(old(self)@));
                self.slots = slots;
                r
            },
        }
    }

    /// The URLs of the feeds that are due at `now`, in the order of their
    /// slots.
    pub fn due(&self, now: i64) -> (r: Vec<String>)
        ensures
            texts(r@) == due_urls(self@, now),
    {
        let mut r: Vec<String> = Vec::new();
        let mut i: usize = 0;
        assert(self@.take(0) =~= Seq::<SlotView>::empty());
        assert(texts(r@) =~= Seq::<Seq<char>>::empty());
        while i < self.slots.len()
            invariant
                i <= self.slots.len(),
                texts(r@) == due_urls(self@.take(i as int), now),
            decreases self.slots.len() - i,
        {
            proof {
                let next = self@.take(i + 1);
                assert(next.drop_last() =~= self@.take(i as int));
                assert(next.last() == self@[i as int]);
            }
            if self.slots[i].poll.due(now) {
                let ghost before = texts(r@);
                r.push(self.slots[i].url.clone());
                assert(texts(r@) =~= before.push(self@[i as int].url));
            }
            i = i + 1;
        }
        assert(self@.take(i as int) =~= self@);
        r
    }
}

} // verus!
