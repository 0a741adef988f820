//! What the bot answers to a message, and what the message changes.
//!
//! The bot itself talks to nobody: it takes a message as plain values and
//! returns the reply to send.

use vstd::prelude::*;
use vstd::string::StringSliceAdditionalSpecFns;
use vstd::utf8::{decode_utf8, encode_utf8, is_char_boundary};
use crate::domain_types::{blank_user, texts, UserView};
use crate::feed_url::valid_feed_url;
use crate::state::{after_subscribe, gain, user_position, State};
use crate::text::{chars_of, decimal, has_prefix, push_decimal, starts_with};

verus! {

/// What a subscriber asks for.
#[derive(Clone, Copy, Debug, PartialEq, Eq, Structural)]
pub enum Command {
    Start,
    Help,
    Stop,
    Add,
}

/// How the transport is to read a reply.
#[derive(Clone, Copy, Debug, PartialEq, Eq, Structural)]
pub enum ParseMode {
    /// As it stands.
    Plain,
    /// With emphasis markup.
    Markdown,
}

/// What a marked part of a message is.
#[derive(Clone, Copy, Debug, PartialEq, Eq, Structural)]
pub enum MessageEntityKind {
    Url,
    Other,
}

/// A marked part of a message's text: `length` bytes from byte `offset` on.
#[derive(Clone, Copy, Debug, PartialEq, Eq, Structural)]
pub struct MessageEntity {
    pub kind: MessageEntityKind,
    pub offset: i64,
    pub length: i64,
}

/// A message from a subscriber.
#[derive(Debug)]
pub struct Message {
    /// Who sent it.
    pub from: i64,
    /// Its text; `None` for a message that is no text.
    pub text: Option<String>,
    /// The marked parts of the text.
    pub entities: Vec<MessageEntity>,
}

/// What to answer.
#[derive(Debug)]
pub struct Reply {
    pub text: String,
    pub parse_mode: ParseMode,
    /// Whether the answer quotes the message it answers.
    pub quotes: bool,
}

/// The command that a text stands for: `/start` and `/stop` as they are,
/// anything that begins with `/add`, and help for everything else.
pub open spec fn command_of(text: Seq<char>) -> Command {
    if text == "/start"@ {
        Command::Start
    } else if text == "/stop"@ {
        Command::Stop
    } else if has_prefix(text, "/add"@) {
        Command::Add
    } else {
        Command::Help
    }
}

/// Tells whether two texts are the same.
fn same_text(a: &Vec<char>, b: &Vec<char>) -> (r: bool)
    ensures
        r == (a@ == b@),
{
    if a.len() != b.len() {
        return false;
    }
    let r = starts_with(a, b);
    assert(a@.subrange(0, b@.len() as int) =~= a@);
    r
}

/// Reads the command of a text.
pub fn parse_command(text: &str) -> (r: Command)
    ensures
        r == command_of(text@),
{
    let t = chars_of(text);
    if same_text(&t, &chars_of("/start")) {
        Command::Start
    } else if same_text(&t, &chars_of("/stop")) {
        Command::Stop
    } else if starts_with(&t, &chars_of("/add")) {
        Command::Add
    } else {
        Command::Help
    }
}

/// The bytes from `from` up to `to` can be cut out of a text as a text of
/// their own: the range lies in the text and both ends stand between
/// characters.
pub open spec fn clippable(bytes: Seq<u8>, from: int, to: int) -> bool {
    &&& 0 <= from <= to <= bytes.len()
    &&& is_char_boundary(bytes, to)
    &&& is_char_boundary(bytes.subrange(0, to), from)
}

/// Cuts the bytes from `from` up to `to` out of a text. `None` where they
/// cannot be cut out.
pub fn clip(text: &str, from: usize, to: usize) -> (r: Option<String>)
    ensures
        match r {
            Some(part) => clippable(text.spec_bytes(), from as int, to as int) && part@
                == decode_utf8(text.spec_bytes().subrange(from as int, to as int)),
            None => !clippable(text.spec_bytes(), from as int, to as int),
        },
{
    if from > to || to > text.as_bytes().len() {
        return None;
    }
    if !text.is_char_boundary(to) {
        return None;
    }
    let (head, _) = text.split_at(to);
    if !head.is_char_boundary(from) {
        return None;
    }
    let (_, part) = head.split_at(from);
    let owned = part.to_owned();
    proof {
        assert(part.spec_bytes() =~= text.spec_bytes().subrange(from as int, to as int));
        vstd::utf8::encode_utf8_decode_utf8(owned@);
    }
    Some(owned)
}

/// The part of a text that an entity marks as a URL, if it marks one that
/// can be cut out.
pub open spec fn marked_url(text: Seq<char>, entity: MessageEntity) -> Option<Seq<char>> {
    if entity.kind == MessageEntityKind::Url && 0 <= entity.offset && 0 <= entity.length
        && clippable(encode_utf8(text), entity.offset as int, entity.offset + entity.length) {
        Some(
            decode_utf8(
                encode_utf8(text).subrange(entity.offset as int, entity.offset + entity.length),
            ),
        )
    } else {
        None
    }
}

/// The parts of a text that its entities mark as URLs, in the order of the
/// entities.
pub open spec fn marked_urls(text: Seq<char>, entities: Seq<MessageEntity>) -> Seq<Seq<char>>
    decreases entities.len(),
{
    if entities.len() == 0 {
        Seq::empty()
    } else {
        let rest = marked_urls(text, entities.drop_last());
        match marked_url(text, entities.last()) {
            Some(url) => rest.push(url),
            None => rest,
        }
    }
}

/// Cuts out the part of a text that an entity marks as a URL.
pub fn extract_url(text: &str, entity: &MessageEntity) -> (r: Option<String>)
    ensures
        match r {
            Some(url) => marked_url(text@, *entity) == Some(url@),
            None => marked_url(text@, *entity) is None,
        },
{
    match entity.kind {
        MessageEntityKind::Url => {
            if entity.offset < 0 || entity.length < 0 {
                return None;
            }
            let size = text.as_bytes().len();
            if entity.offset as u64 > size as u64 {
                return None;
            }
            if entity.length as u64 > size as u64 - entity.offset as u64 {
                return None;
            }
            let from = entity.offset as usize;
            let to = from + entity.length as usize;
            clip(text, from, to)
        },
        MessageEntityKind::Other => None,
    }
}

/// Cuts out the parts of a text that its entities mark as URLs.
pub fn extract_urls(text: &str, entities: &Vec<MessageEntity>) -> (r: Vec<String>)
    ensures
        texts(r@) == marked_urls(text@, entities@),
{
    let mut r: Vec<String> = Vec::new();
    let mut k: usize = 0;
    assert(entities@.take(0) =~= Seq::<MessageEntity>::empty());
    assert(texts(r@) =~= Seq::<Seq<char>>::empty());
    while k < entities.len()
        invariant
            k <= entities.len(),
            texts(r@) == marked_urls(text@, entities@.take(k as int)),
        decreases entities.len() - k,
    {
        proof {
            let next = entities@.take(k + 1);
            assert(next.drop_last() =~= entities@.take(k as int));
            assert(next.last() == entities@[k as int]);
        }
        match extract_url(text, &entities[k]) {
            Some(url) => {
                let ghost before = texts(r@);
                r.push(url);
                assert(texts(r@) =~= before.push(url@));
            },
            None => {},
        }
        k = k + 1;
    }
    assert(entities@.take(k as int) =~= entities@);
    r
}

/// What the bot says when asked for help, or when it does not understand.
pub const HELP_TEXT: &'static str = "Hey there!\n\
You can use one of the following commands:\n\
`/start` - _initiate registration process(it's just a couple of questions_)\n\
`/stop` - _unregister yourself and delete ALL your data_\n\
`/list` - _show your feeds and their settings_\n\
`/add <atom/feed URLs>` - _subscribe to feeds using their URLs_\n\
`/del <feed IDs>` - _unsubscribe from feeds using their IDs_\n    ";

/// What the bot says when no feed was added.
pub const NOTHING_ADDED_TEXT: &'static str = "Couldn't parse any feed URLs!";

/// What the bot says to a command that only a registered subscriber may
/// give.
pub const UNAUTHORIZED_TEXT: &'static str = "Please authorize before sending this command!";

/// What the bot says to a subscriber who leaves.
pub const UNREGISTERED_TEXT: &'static str = "It's painful to see you go. Godspeed you, though!";

/// What the bot says to someone who leaves without having registered.
pub const NOT_REGISTERED_TEXT: &'static str = "We haven't started anything yet \u{1f61c}";

/// What the bot says to a subscriber who registers again.
pub const ALREADY_REGISTERED_TEXT: &'static str = "You're already registered!";

/// What the bot says to a new subscriber.
pub const REGISTERED_TEXT: &'static str =
    "Successfully registered! Now you can add new feeds with `/add <atom/feed URLs>`";

/// What a `Reply` holds, as plain values.
pub struct ReplyView {
    pub text: Seq<char>,
    pub parse_mode: ParseMode,
    pub quotes: bool,
}

impl View for Reply {
    type V = ReplyView;

    open spec fn view(&self) -> ReplyView {
        ReplyView { text: self.text@, parse_mode: self.parse_mode, quotes: self.quotes }
    }
}

/// A reply with this text, read and sent in this way.
pub open spec fn says(text: Seq<char>, parse_mode: ParseMode, quotes: bool) -> ReplyView {
    ReplyView { text, parse_mode, quotes }
}

/// What the bot says after it added `n` feeds.
pub open spec fn added_text(n: nat) -> Seq<char> {
    if n == 0 {
        NOTHING_ADDED_TEXT@
    } else {
        "Successfully added "@ + decimal(n) + " feed URLs!"@
    }
}

/// The index after a subscriber asked at `now` for each of the candidates
/// in turn: one that is a feed URL is followed as `after_subscribe` says,
/// one that is none is passed over.
pub open spec fn after_adding(
    users: Seq<UserView>,
    id: i64,
    candidates: Seq<Seq<char>>,
    now: i64,
) -> Seq<UserView>
    decreases candidates.len(),
{
    if candidates.len() == 0 {
        users
    } else {
        let before = after_adding(users, id, candidates.drop_last(), now);
        if valid_feed_url(candidates.last()) {
            after_subscribe(before, id, candidates.last(), now)
        } else {
            before
        }
    }
}

/// The number of feeds that a subscriber gains by asking for each of the
/// candidates in turn.
pub open spec fn count_added(
    users: Seq<UserView>,
    id: i64,
    candidates: Seq<Seq<char>>,
    now: i64,
) -> nat
    decreases candidates.len(),
{
    if candidates.len() == 0 {
        0
    } else {
        let before = after_adding(users, id, candidates.drop_last(), now);
        count_added(users, id, candidates.drop_last(), now) + if valid_feed_url(
            candidates.last(),
        ) {
            gain(before, id, candidates.last())
        } else {
            0
        }
    }
}

/// The texts that a message offers as feed URLs.
pub open spec fn candidates_of(message: Message) -> Seq<Seq<char>> {
    match message.text {
        Some(text) => marked_urls(text@, message.entities@),
        None => Seq::empty(),
    }
}

/// The command that a message stands for; a message without text asks for
/// help.
pub open spec fn command_in(message: Message) -> Command {
    match message.text {
        Some(text) => command_of(text@),
        None => Command::Help,
    }
}

/// The index after a message, and the reply to it.
pub open spec fn outcome_of(users: Seq<UserView>, message: Message, now: i64) -> (
    Seq<UserView>,
    ReplyView,
) {
    let registered = user_position(users, message.from);
    match command_in(message) {
        Command::Help => (users, says(HELP_TEXT@, ParseMode::Markdown, false)),
        Command::Start => match registered {
            Some(_) => (
                users,
                says(ALREADY_REGISTERED_TEXT@, ParseMode::Markdown, true),
            ),
            None => (
                users.push(blank_user(message.from)),
                says(REGISTERED_TEXT@, ParseMode::Markdown, true),
            ),
        },
        Command::Stop => match registered {
            Some(i) => (
                users.remove(i),
                says(UNREGISTERED_TEXT@, ParseMode::Plain, true),
            ),
            None => (
                users,
                says(NOT_REGISTERED_TEXT@, ParseMode::Plain, true),
            ),
        },
        Command::Add => match registered {
            Some(_) => (
                after_adding(users, message.from, candidates_of(message), now),
                ReplyView {
                    text: added_text(count_added(users, message.from, candidates_of(message), now)),
                    parse_mode: ParseMode::Markdown,
                    quotes: false,
                },
            ),
            None => (users, says(UNAUTHORIZED_TEXT@, ParseMode::Plain, true)),
        },
    }
}

/// Makes a reply of a text.
fn reply(text: &str, parse_mode: ParseMode, quotes: bool) -> (r: Reply)
    ensures
        r@ == says(text@, parse_mode, quotes),
{
    Reply { text: String::from_str(text), parse_mode, quotes }
}

/// The bot: the subscription index and the answers to the commands that
/// change it.
pub struct RssBot {
    /// Who follows what.
    pub state: State,
}

impl View for RssBot {
    type V = Seq<UserView>;

    open spec fn view(&self) -> Seq<UserView> {
        self.state@
    }
}

impl RssBot {
    /// A bot that knows nobody.
    pub fn new() -> (r: Self)
        ensures
            r@ == Seq::<UserView>::empty(),
            r.state.wf(),
    {
        RssBot { state: State::new() }
    }

    /// Reads the command of a message.
    pub fn command(message: &Message) -> (r: Command)
        ensures
            r == command_in(*message),
    {
        match &message.text {
            Some(text) => parse_command(text.as_str()),
            None => Command::Help,
        }
    }

    /// Answers with the list of commands.
    pub fn show_help(&self) -> (r: Reply)
        ensures
            r@ == says(HELP_TEXT@, ParseMode::Markdown, false),
    {
        reply(HELP_TEXT, ParseMode::Markdown, false)
    }

    /// Lets a registered sender pass (`None`); for anyone else, returns the
    /// reply that turns them away.
    pub fn authorized(&self, message: &Message) -> (r: Option<Reply>)
        ensures
            match r {
                None => user_position(self@, message.from) is Some,
                Some(refusal) => user_position(self@, message.from) is None && refusal@
                    == says(UNAUTHORIZED_TEXT@, ParseMode::Plain, true),
            },
    {
        if self.state.is_registered(message.from) {
            None
        } else {
            Some(reply(UNAUTHORIZED_TEXT, ParseMode::Plain, true))
        }
    }

    /// Registers the sender, who follows nothing yet, and says so; says
    /// that they are registered already where they are.
    pub fn register_user(&mut self, message: &Message) -> (r: Reply)
        ensures
            final(self).state.wf(),
            match user_position(old(self)@, message.from) {
                Some(_) => final(self)@ == old(self)@ && r@ == says(
                    ALREADY_REGISTERED_TEXT@,
                    ParseMode::Markdown,
                    true,
                ),
                None => final(self)@ == old(self)@.push(blank_user(message.from)) && r@
                    == says(REGISTERED_TEXT@, ParseMode::Markdown, true),
            },
    {
        if self.state.register_user(message.from) {
            reply(REGISTERED_TEXT, ParseMode::Markdown, true)
        } else {
            reply(ALREADY_REGISTERED_TEXT, ParseMode::Markdown, true)
        }
    }

    /// Removes the sender with all that is theirs, and says goodbye; says
    /// that there is nothing to remove where they are not registered.
    pub fn unregister_user(&mut self, message: &Message) -> (r: Reply)
        ensures
            final(self).state.wf(),
            match user_position(old(self)@, message.from) {
                Some(i) => final(self)@ == old(self)@.remove(i) && r@ == says(
                    UNREGISTERED_TEXT@,
                    ParseMode::Plain,
                    true,
                ),
                None => final(self)@ == old(self)@ && r@ == says(
                    NOT_REGISTERED_TEXT@,
                    ParseMode::Plain,
                    true,
                ),
            },
    {
        if self.state.unregister_user(message.from) {
            reply(UNREGISTERED_TEXT, ParseMode::Plain, true)
        } else {
            reply(NOT_REGISTERED_TEXT, ParseMode::Plain, true)
        }
    }

    /// Makes the sender follow, from `now` on, each feed whose URL the
    /// message marks, and says how many feeds that added. A marked text
    /// that is no feed URL is passed over, and so is one that the sender
    /// follows already.
    pub fn add_feed(&mut self, message: &Message, now: i64) -> (r: Reply)
        ensures
            final(self).state.wf(),
            final(self)@ == after_adding(old(self)@, message.from, candidates_of(*message), now),
            r@ == (ReplyView {
                text: added_text(
                    count_added(old(self)@, message.from, candidates_of(*message), now),
                ),
                parse_mode: ParseMode::Markdown,
                quotes: false,
            }),
    {
        let candidates = match &message.text {
            Some(text) => extract_urls(text.as_str(), &message.entities),
            None => Vec::new(),
        };
        self.state.assure();
        let ghost wanted = candidates_of(*message);
        assert(texts(candidates@) =~= wanted);
        let mut added: usize = 0;
        let mut k: usize = 0;
        assert(wanted.take(0) =~= Seq::<Seq<char>>::empty());
        while k < candidates.len()
            invariant
                k <= candidates.len(),
                texts(candidates@) == wanted,
                self.state.wf(),
                added <= k,
                self@ == after_adding(old(self)@, message.from, wanted.take(k as int), now),
                added == count_added(old(self)@, message.from, wanted.take(k as int), now),
            decreases candidates.len() - k,
        {
            proof {
                let next = wanted.take(k + 1);
                assert(next.drop_last() =~= wanted.take(k as int));
                assert(next.last() == candidates@[k as int]@);
            }
            match self.state.add_feed(message.from, candidates[k].as_str(), now) {
                Ok(n) => {
                    added = added + n;
                },
                Err(_) => {},
            }
            k = k + 1;
        }
        assert(wanted.take(k as int) =~= wanted);
        if added == 0 {
            reply(NOTHING_ADDED_TEXT, ParseMode::Markdown, false)
        } else {
            let mut text = String::from_str("Successfully added ");
            push_decimal(&mut text, added);
            text.append(" feed URLs!");
            Reply { text, parse_mode: ParseMode::Markdown, quotes: false }
        }
    }

    /// Takes a message at `now`: changes the index as the message asks and
    /// returns the reply to send.
    pub fn dispatch(&mut self, message: &Message, now: i64) -> (r: Reply)
        ensures
            final(self).state.wf(),
            final(self)@ == outcome_of(old(self)@, *message, now).0,
            r@ == outcome_of(old(self)@, *message, now).1,
    {
        self.state.assure();
        match Self::command(message) {
            Command::Help => self.show_help(),
            Command::Start => self.register_user(message),
            Command::Stop => self.unregister_user(message),
            Command::Add => match self.authorized(message) {
                Some(refusal) => refusal,
                None => self.add_feed(message, now),
            },
        }
    }
}

} // verus!
