//! The bot itself: what a chat message asks of it, what it answers, and
//! which feeds are due for a refresh.
use crate::api::http::UserMe;
use crate::data::{FeedView, SubscribeFeed};
use crate::db::{feed_views, Database, DatabaseError, StoreView};
use crate::network_runtime::BotNetworkEvent;
use crate::fetch::feed::Feed;
use crate::fetch::http::FeedError;
use crate::filter::{check_pattern, regex_compiles};
use crate::network_runtime::opt_text;
use crate::push::{
    message_views, post_text, push_post, push_update, update_messages, MessageView,
    OutboundMessage,
};
use crate::text::{
    chars_of, concat, has_prefix, index_of, lemma_index_of, lemma_trimmed_plain, position,
    split_words, str_eq, trim_bounds, trimmed, white_space, words,
};
use crate::utils::{find_http_url, first_url};
use crate::ws::KookEventMessage;
use vstd::prelude::*;
use vstd::string::StrSliceExecFns;
use vstd::string::StringExecFns;

verus! {

/// The verb that lists a channel's subscriptions.
pub const COMMAND_RSS: &'static str = "rss";

/// The verb that subscribes.
pub const COMMAND_SUB: &'static str = "sub";

/// The verb that unsubscribes.
pub const COMMAND_UNSUB: &'static str = "unsub";

/// The verb that sets a title filter.
pub const COMMAND_REG: &'static str = "reg";

/// The shortest time between two refreshes of a feed, in seconds; also the
/// number of pieces that the refreshes of one period are spread over.
pub const FEED_REFRESH_INTERVAL: u32 = 180;

/// Seconds between two looks at the store for feeds that are due.
pub const FEED_SCAN_SECS: u64 = 10;

/// A message older than this, in milliseconds, is not answered.
pub const STALE_AFTER_MS: u64 = 5000;

/// What the bot says when it is addressed without a command.
pub const HELP_TEXT: &'static str =
    "rss        - 显示当前订阅的 RSS 列表\nsub        - 订阅一个 RSS: /sub http://example.com/feed.xml\nunsub      - 退订一个 RSS: /unsub http://example.com/feed.xml\nreg        - 设置过滤正则: /reg http://example.com/feed.xml (华为|蒂法)\n";

/// What the bot says of a channel without subscriptions.
pub const NO_FEEDS_TEXT: &'static str = "当前没有任何订阅, 是因为太年轻犯下的错么。";

/// What the bot says before the address it subscribed a channel to.
pub const SUBSCRIBED_TEXT: &'static str = "已订阅: ";

/// What the bot says before the address it unsubscribed a channel from.
pub const UNSUBSCRIBED_TEXT: &'static str = "已取消订阅: ";

/// What the bot says once a filter is set.
pub const REGEX_SET_TEXT: &'static str = "正则编译完成, 已启用.";

/// The type of a channel that is a private conversation.
pub const PERSON_CHANNEL: &'static str = "PERSON";

/// What can go wrong while the bot answers a message.
#[derive(Debug)]
pub enum KsbotError {
    /// The text holds no link.
    NotUrl(String),
    /// The pattern does not compile.
    NotRegex(regex::Error),
    /// Something else; the text says what.
    Anyhow(String),
    /// The feed could not be pulled.
    Feed(FeedError),
    /// The platform refused a message.
    KookMessage(String),
    /// The store failed.
    Database(DatabaseError),
}

/// Whether a message is answered at the time `now` (milliseconds since the
/// epoch): it carries a time that is at most five seconds old, it is not
/// from a bot, and it is not from a private conversation.
pub open spec fn message_valid(msg: KookEventMessage, now: u128) -> bool {
    &&& msg.msg_timestamp matches Some(t) && now <= t + STALE_AFTER_MS
    &&& msg.bot != Some(true)
    &&& !(msg.channel_type matches Some(ty) && ty@ == PERSON_CHANNEL@)
}

/// Whether `msg` is answered at the time `now`. A message older than five
/// seconds is never answered.
pub fn is_valid_message(msg: &KookEventMessage, now: u128) -> (r: bool)
    ensures
        r == message_valid(*msg, now),
        msg.msg_timestamp matches Some(t) && t + STALE_AFTER_MS < now ==> !r,
{
    match msg.msg_timestamp {
        Some(timestamp) => {
            if now > timestamp as u128 + STALE_AFTER_MS as u128 {
                return false;
            }
        },
        None => {
            return false;
        },
    }
    match msg.bot {
        Some(bot) => {
            if bot {
                return false;
            }
        },
        None => {},
    }
    match &msg.channel_type {
        Some(t) => {
            if str_eq(t.as_str(), PERSON_CHANNEL) {
                return false;
            }
        },
        None => {},
    }
    true
}

/// What a chat message asks of the bot.
#[derive(Debug)]
pub enum Command {
    /// The message does not start with the bot's mention.
    NotForMe,
    /// The mention alone: say what the bot can do.
    Help,
    /// List the channel's subscriptions.
    Rss,
    /// Subscribe to the feed that the argument names.
    Sub(String),
    /// Unsubscribe from the feed that the argument names.
    Unsub(String),
    /// Filter the titles of the feed that the first argument names by the
    /// pattern that the second is.
    Reg(String, String),
    /// A verb the bot does not know, or a known verb with the wrong number
    /// of arguments.
    Ignored,
}

/// What a chat message asks of the bot, for contracts.
pub enum CommandView {
    NotForMe,
    Help,
    Rss,
    Sub(Seq<char>),
    Unsub(Seq<char>),
    Reg(Seq<char>, Seq<char>),
    Ignored,
}

impl View for Command {
    type V = CommandView;

    open spec fn view(&self) -> CommandView {
        match self {
            Command::NotForMe => CommandView::NotForMe,
            Command::Help => CommandView::Help,
            Command::Rss => CommandView::Rss,
            Command::Sub(u) => CommandView::Sub(u@),
            Command::Unsub(u) => CommandView::Unsub(u@),
            Command::Reg(u, p) => CommandView::Reg(u@, p@),
            Command::Ignored => CommandView::Ignored,
        }
    }
}

/// How the bot with the name `bot_id` is mentioned in a message.
pub open spec fn mention(bot_id: Seq<char>) -> Seq<char> {
    "(met)"@ + bot_id + "(met)"@
}

/// What the words behind the mention ask for: the first is the verb, and
/// each verb takes a fixed number of arguments.
pub open spec fn command_of_words(args: Seq<Seq<char>>) -> CommandView {
    if args.len() == 0 {
        CommandView::Help
    } else if args[0] == COMMAND_SUB@ {
        if args.len() == 2 {
            CommandView::Sub(args[1])
        } else {
            CommandView::Ignored
        }
    } else if args[0] == COMMAND_UNSUB@ {
        if args.len() == 2 {
            CommandView::Unsub(args[1])
        } else {
            CommandView::Ignored
        }
    } else if args[0] == COMMAND_REG@ {
        if args.len() == 3 {
            CommandView::Reg(args[1], args[2])
        } else {
            CommandView::Ignored
        }
    } else if args[0] == COMMAND_RSS@ {
        if args.len() == 1 {
            CommandView::Rss
        } else {
            CommandView::Ignored
        }
    } else {
        CommandView::Ignored
    }
}

/// What the text `content` asks of the bot with the name `bot_id`: a
/// command where the text, white space at its ends apart, starts with the
/// bot's mention; the command is read from the words behind the mention.
pub open spec fn command_of(content: Seq<char>, bot_id: Seq<char>) -> CommandView {
    let t = trimmed(content);
    let m = mention(bot_id);
    if has_prefix(t, m) {
        command_of_words(words(t.skip(m.len() as int)))
    } else {
        CommandView::NotForMe
    }
}

/// What the words behind the mention ask for.
pub fn command_from_words(args: &Vec<String>) -> (r: Command)
    ensures
        r@ == command_of_words(args.deep_view()),
{
    if args.len() == 0 {
        return Command::Help;
    }
    let verb = args[0].as_str();
    if str_eq(verb, COMMAND_SUB) {
        if args.len() == 2 {
            Command::Sub(args[1].clone())
        } else {
            Command::Ignored
        }
    } else if str_eq(verb, COMMAND_UNSUB) {
        if args.len() == 2 {
            Command::Unsub(args[1].clone())
        } else {
            Command::Ignored
        }
    } else if str_eq(verb, COMMAND_REG) {
        if args.len() == 3 {
            Command::Reg(args[1].clone(), args[2].clone())
        } else {
            Command::Ignored
        }
    } else if str_eq(verb, COMMAND_RSS) {
        if args.len() == 1 {
            Command::Rss
        } else {
            Command::Ignored
        }
    } else {
        Command::Ignored
    }
}

/// What the text `content` asks of the bot with the name `bot_id`.
pub fn parse_command(content: &str, bot_id: &str) -> (r: Command)
    ensures
        r@ == command_of(content@, bot_id@),
{
    let mut met = "(met)".to_owned();
    met.append(bot_id);
    met.append("(met)");
    let m = chars_of(met.as_str());
    let v = chars_of(content);
    let (a, b) = trim_bounds(&v);
    let ghost t = v@.subrange(a as int, b as int);
    if b - a < m.len() {
        return Command::NotForMe;
    }
    let mut i: usize = 0;
    while i < m.len()
        invariant
            i <= m.len(),
            a <= b <= v.len(),
            m.len() <= b - a,
            t == v@.subrange(a as int, b as int),
            t == trimmed(content@),
            m@ == mention(bot_id@),
            forall|j: int| 0 <= j < i ==> t[j] == m@[j],
        decreases m.len() - i,
    {
        proof {
            assert(t[i as int] == v@[a + i]);
        }
        if v[a + i] != m[i] {
            proof {
                assert(t[i as int] == v@[a + i]);
                assert(t.take(m@.len() as int)[i as int] == t[i as int]);
            }
            return Command::NotForMe;
        }
        i += 1;
    }
    proof {
        assert(t.take(m@.len() as int) =~= m@);
    }
    let rest = content.substring_char(a + m.len(), b);
    proof {
        assert(rest@ =~= t.skip(m@.len() as int));
    }
    let args = split_words(rest);
    command_from_words(&args)
}

/// The list of a channel's subscriptions: for each feed a line with its
/// title in brackets and its address, the lines parted by line feeds.
pub open spec fn rss_lines(feeds: Seq<FeedView>) -> Seq<char>
    decreases feeds.len(),
{
    if feeds.len() == 0 {
        Seq::empty()
    } else if feeds.len() == 1 {
        rss_line(feeds[0])
    } else {
        rss_lines(feeds.drop_last()) + "\n"@ + rss_line(feeds.last())
    }
}

/// The line that stands for one subscription.
pub open spec fn rss_line(feed: FeedView) -> Seq<char> {
    "- ["@ + feed.title + "] "@ + feed.subscribe_url
}

/// What the bot answers to `rss`: the list of the feeds, or the remark that
/// there are none.
pub open spec fn rss_reply(feeds: Seq<FeedView>) -> Seq<char> {
    if feeds.len() == 0 {
        NO_FEEDS_TEXT@
    } else {
        rss_lines(feeds)
    }
}

/// What the bot answers to `rss` in a channel that is subscribed to
/// `feeds`.
pub fn command_rss(feeds: &Vec<SubscribeFeed>) -> (r: String)
    ensures
        r@ == rss_reply(feed_views(feeds@)),
{
    if feeds.len() == 0 {
        return NO_FEEDS_TEXT.to_owned();
    }
    let ghost fv = feed_views(feeds@);
    let mut reply = String::new();
    let mut i: usize = 0;
    while i < feeds.len()
        invariant
            i <= feeds.len(),
            fv == feed_views(feeds@),
            reply@ == rss_lines(fv.take(i as int)),
        decreases feeds.len() - i,
    {
        proof {
            let p = fv.take(i + 1);
            assert(p.drop_last() =~= fv.take(i as int));
            assert(p.last() == feeds[i as int]@);
            if i == 0 {
                assert(Seq::<char>::empty() + rss_line(p[0]) =~= rss_line(p[0]));
            }
        }
        let ghost before = reply@;
        if i > 0 {
            reply.append("\n");
        }
        reply.append("- [");
        reply.append(feeds[i].title.as_str());
        reply.append("] ");
        reply.append(feeds[i].subscribe_url.as_str());
        proof {
            let line = rss_line(feeds[i as int]@);
            if i == 0 {
                assert(reply@ =~= line);
            } else {
                assert(reply@ =~= before + "\n"@ + line);
            }
        }
        i += 1;
    }
    proof {
        assert(fv.take(fv.len() as int) =~= fv);
    }
    reply
}

/// The link in the argument `url` of a command, or the error that says
/// there is none.
pub fn command_url(url: &str) -> (r: Result<String, KsbotError>)
    ensures
        match first_url(url@) {
            Some((a, b)) => r matches Ok(u) && u@ == url@.subrange(a, b),
            None => r matches Err(KsbotError::NotUrl(arg)) && arg@ == url@,
        },
{
    match find_http_url(url) {
        Some(u) => Ok(u.to_owned()),
        None => Err(KsbotError::NotUrl(url.to_owned())),
    }
}

/// What subscribing a channel gives: what the bot answers, and the message
/// that carries the feed's first post to the channel, where the feed has a
/// post with a link at its head.
#[derive(Debug)]
pub struct Subscribed {
    pub reply: String,
    pub first_post: Option<OutboundMessage>,
}

/// Subscribes `channel` to the feed `rss` that was pulled from
/// `subscribe_url` at `now` (seconds since the epoch).
pub fn command_sub(
    db: &mut Database,
    channel: &str,
    subscribe_url: &str,
    rss: &Feed,
    now: u64,
) -> (r: Result<Subscribed, KsbotError>)
    requires
        old(db).wf(),
    ensures
        final(db).wf(),
        final(db)@ == old(db)@.subscribed(
            channel@,
            FeedView {
                subscribe_url: subscribe_url@,
                link: rss.link@,
                title: rss.title@,
                down_time: now,
                ttl: rss.ttl,
                posts_hash: crate::data::post_fingerprints(rss.posts@),
                channel_ids: Seq::empty(),
            },
        ),
        r matches Ok(s) && s.reply@ == SUBSCRIBED_TEXT@ + subscribe_url@ && (if rss.posts.len() > 0
            && rss.posts[0].link is Some {
            s.first_post matches Some(m) && m@ == (MessageView {
                content: post_text(rss.posts[0].title_text(), rss.posts[0].link->0@),
                target_id: channel@,
                quote: None,
            })
        } else {
            s.first_post is None
        }),
{
    let feed = SubscribeFeed::from(subscribe_url, rss, now);
    match db.channel_subscribed(channel, feed) {
        Ok(_) => {},
        Err(e) => {
            return Err(KsbotError::Database(e));
        },
    }
    let reply = concat(SUBSCRIBED_TEXT, subscribe_url);
    let first_post = if rss.posts.len() > 0 {
        push_post(channel, &rss.posts[0])
    } else {
        None
    };
    Ok(Subscribed { reply, first_post })
}

/// Takes `channel` off the feed that the argument `url` names, and drops
/// the feed from the store where no channel is left on it. Returns what the
/// bot answers.
pub fn command_unsub(db: &mut Database, channel: &str, url: &str) -> (r: Result<
    String,
    KsbotError,
>)
    requires
        old(db).wf(),
    ensures
        final(db).wf(),
        match first_url(url@) {
            Some((a, b)) => {
                let u = url@.subrange(a, b);
                &&& final(db)@ == old(db)@.unsubscribed(channel@, u).without_feed(u)
                &&& r matches Ok(reply)
                &&& reply@ == UNSUBSCRIBED_TEXT@ + u
            },
            None => final(db)@ == old(db)@ && (r matches Err(KsbotError::NotUrl(arg)) && arg@
                == url@),
        },
{
    let subscribe_url = match command_url(url) {
        Ok(u) => u,
        Err(e) => {
            return Err(e);
        },
    };
    match db.channel_unsubscribed(channel, subscribe_url.as_str()) {
        Ok(_) => {},
        Err(e) => {
            return Err(KsbotError::Database(e));
        },
    }
    match db.try_remove_feed(subscribe_url.as_str()) {
        Ok(_) => {},
        Err(e) => {
            return Err(KsbotError::Database(e));
        },
    }
    Ok(concat(UNSUBSCRIBED_TEXT, subscribe_url.as_str()))
}

/// Sets the title filter of `channel` for the feed that the argument `url`
/// names to `pattern`. Fails, and leaves the store as it was, where the
/// argument holds no link, the pattern does not compile, or the channel is
/// not subscribed to the feed. Returns what the bot answers.
pub fn command_reg(db: &mut Database, channel: &str, url: &str, pattern: &str) -> (r: Result<
    String,
    KsbotError,
>)
    requires
        old(db).wf(),
    ensures
        final(db).wf(),
        match first_url(url@) {
            None => final(db)@ == old(db)@ && (r matches Err(KsbotError::NotUrl(arg)) && arg@
                == url@),
            Some((a, b)) => {
                let u = url@.subrange(a, b);
                if !regex_compiles(pattern@) {
                    final(db)@ == old(db)@ && (r matches Err(KsbotError::NotRegex(_)))
                } else if old(db)@.channel_index(channel@) < 0 {
                    final(db)@ == old(db)@ && (r matches Err(
                        KsbotError::Database(DatabaseError::NotFoundChannel(c)),
                    ) && c@ == channel@)
                } else if !old(db)@.subscribes(channel@, u) {
                    final(db)@ == old(db)@ && (r matches Err(
                        KsbotError::Database(DatabaseError::NotFoundFeed(f)),
                    ) && f@ == u)
                } else {
                    final(db)@ == old(db)@.with_regex(channel@, u, pattern@) && (r matches Ok(
                        reply,
                    ) && reply@ == REGEX_SET_TEXT@)
                }
            },
        },
{
    let subscribe_url = match command_url(url) {
        Ok(u) => u,
        Err(e) => {
            return Err(e);
        },
    };
    match check_pattern(pattern) {
        Ok(_) => {},
        Err(e) => {
            return Err(KsbotError::NotRegex(e));
        },
    }
    match db.update_channel_feed_regex(channel, subscribe_url.as_str(), pattern) {
        Ok(_) => Ok(REGEX_SET_TEXT.to_owned()),
        Err(e) => Err(KsbotError::Database(e)),
    }
}

/// The seconds after which a feed is refreshed: the interval it asks for,
/// but no less than the shortest interval.
pub fn refresh_delay(ttl: Option<u32>) -> (r: u64)
    ensures
        r == match ttl {
            Some(minutes) => if minutes * 60 > FEED_REFRESH_INTERVAL {
                minutes * 60
            } else {
                FEED_REFRESH_INTERVAL as int
            },
            None => FEED_REFRESH_INTERVAL as int,
        },
{
    let floor = FEED_REFRESH_INTERVAL as u64;
    match ttl {
        Some(minutes) => {
            let secs = minutes as u64 * 60;
            if secs > floor {
                secs
            } else {
                floor
            }
        },
        None => floor,
    }
}

/// The addresses of feeds, place by place.
pub open spec fn feed_urls(feeds: Seq<FeedView>) -> Seq<Seq<char>> {
    Seq::new(feeds.len(), |i: int| feeds[i].subscribe_url)
}

/// The feeds that wait for their refresh. No address waits twice.
pub struct FetchQueue {
    feeds: Vec<SubscribeFeed>,
    urls: Vec<String>,
}

impl FetchQueue {
    /// The feeds that wait, in the order in which they came.
    pub closed spec fn view(&self) -> Seq<FeedView> {
        feed_views(self.feeds@)
    }

    /// The queue's own list of addresses agrees with the feeds, and no
    /// address waits twice.
    pub closed spec fn wf(&self) -> bool {
        self.urls.deep_view() == feed_urls(self@) && feed_urls(self@).no_duplicates()
    }

    /// What holds of the feeds of a well-formed queue.
    pub proof fn lemma_wf(&self)
        requires
            self.wf(),
        ensures
            feed_urls(self@).no_duplicates(),
    {
    }

    /// A queue in which nothing waits.
    pub fn new() -> (r: Self)
        ensures
            r.wf(),
            r@.len() == 0,
    {
        let r = FetchQueue { feeds: Vec::new(), urls: Vec::new() };
        proof {
            assert(r.urls.deep_view() =~= feed_urls(r@));
        }
        r
    }

    /// How many feeds wait.
    pub fn len(&self) -> (r: usize)
        ensures
            r == self@.len(),
    {
        self.feeds.len()
    }

    /// Lets `feed` wait, unless a feed of its address waits already.
    /// Returns whether it waits now because of this call: the caller then
    /// starts its timer.
    pub fn enqueue(&mut self, feed: SubscribeFeed) -> (r: bool)
        requires
            old(self).wf(),
        ensures
            final(self).wf(),
            r == !feed_urls(old(self)@).contains(feed@.subscribe_url),
            final(self)@ == (if r {
                old(self)@.push(feed@)
            } else {
                old(self)@
            }),
    {
        let ghost s = self@;
        let ghost us = feed_urls(s);
        proof {
            lemma_index_of(us, feed@.subscribe_url);
        }
        match position(&self.urls, feed.subscribe_url.as_str()) {
            Some(_) => false,
            None => {
                self.urls.push(feed.subscribe_url.clone());
                self.feeds.push(feed);
                proof {
                    assert(self@ =~= s.push(feed@));
                    assert(self.urls.deep_view() =~= us.push(feed@.subscribe_url));
                    assert(feed_urls(self@) =~= us.push(feed@.subscribe_url));
                    let n = us.push(feed@.subscribe_url);
                    assert forall|a: int, b: int| 0 <= a < b < n.len() implies n[a] != n[b] by {
                        if b < us.len() {
                            assert(us[a] != us[b]);
                        } else {
                            assert(us[a] != feed@.subscribe_url);
                        }
                    }
                }
                true
            },
        }
    }

    /// Takes the feed of the address `url` out of the queue when its timer
    /// has run out; `None` where no such feed waits.
    pub fn take(&mut self, url: &str) -> (r: Option<SubscribeFeed>)
        requires
            old(self).wf(),
        ensures
            final(self).wf(),
            match r {
                Some(f) => {
                    let i = index_of(feed_urls(old(self)@), url@);
                    &&& 0 <= i < old(self)@.len()
                    &&& f@ == old(self)@[i]
                    &&& f@.subscribe_url == url@
                    &&& final(self)@ == old(self)@.remove(i)
                },
                None => !feed_urls(old(self)@).contains(url@) && final(self)@ == old(self)@,
            },
    {
        let ghost s = self@;
        let ghost us = feed_urls(s);
        proof {
            lemma_index_of(us, url@);
        }
        match position(&self.urls, url) {
            Some(i) => {
                let f = self.feeds.remove(i);
                let _ = self.urls.remove(i);
                proof {
                    assert(self@ =~= s.remove(i as int));
                    assert(self.urls.deep_view() =~= us.remove(i as int));
                    assert(feed_urls(self@) =~= us.remove(i as int));
                    let n = us.remove(i as int);
                    assert forall|a: int, b: int| 0 <= a < b < n.len() implies n[a] != n[b] by {
                        let a1 = if a < i {
                            a
                        } else {
                            a + 1
                        };
                        let b1 = if b < i {
                            b
                        } else {
                            b + 1
                        };
                        assert(us[a1] != us[b1]);
                    }
                    assert(us[i as int] == url@);
                }
                Some(f)
            },
            None => None,
        }
    }
}

/// A feed whose timer the caller starts: its address, and the seconds after
/// which it is due.
#[derive(Debug)]
pub struct Due {
    pub subscribe_url: String,
    pub delay_secs: u64,
}

/// The queue `queue` once `feed` was let in: at its end, unless a feed of
/// its address waits already.
pub open spec fn enqueued(queue: Seq<FeedView>, feed: FeedView) -> Seq<FeedView> {
    if feed_urls(queue).contains(feed.subscribe_url) {
        queue
    } else {
        queue.push(feed)
    }
}

/// The queue `queue` once the feeds `feeds` were let in, one after the
/// other.
pub open spec fn enqueued_all(queue: Seq<FeedView>, feeds: Seq<FeedView>) -> Seq<FeedView>
    decreases feeds.len(),
{
    if feeds.len() == 0 {
        queue
    } else {
        enqueued(enqueued_all(queue, feeds.drop_last()), feeds.last())
    }
}

/// The timers of the feeds `added`: of each its address and the seconds
/// after which it is refreshed.
pub open spec fn dues(added: Seq<FeedView>) -> Seq<(Seq<char>, int)> {
    Seq::new(added.len(), |i: int| (added[i].subscribe_url, refresh_delay_of(added[i].ttl)))
}

/// What timers read.
pub open spec fn due_views(v: Seq<Due>) -> Seq<(Seq<char>, int)> {
    Seq::new(v.len(), |i: int| (v[i].subscribe_url@, v[i].delay_secs as int))
}

/// Lets the feeds `feeds` wait for their refresh, those apart whose
/// address waits already, and returns the timers to start: one for each
/// feed that waits now because of this call, in the feeds' order.
pub fn schedule(queue: &mut FetchQueue, feeds: Vec<SubscribeFeed>) -> (r: Vec<Due>)
    requires
        old(queue).wf(),
    ensures
        final(queue).wf(),
        final(queue)@ == enqueued_all(old(queue)@, feed_views(feeds@)),
        old(queue)@.len() <= final(queue)@.len(),
        due_views(r@) == dues(final(queue)@.skip(old(queue)@.len() as int)),
{
    let mut out: Vec<Due> = Vec::new();
    let ghost start = queue@;
    let ghost all = feeds@;
    let ghost views = feed_views(feeds@);
    proof {
        assert(due_views(out@) =~= dues(queue@.skip(start.len() as int)));
    }
    for feed in it: feeds
        invariant
            it.seq() == all,
            views == feed_views(all),
            queue.wf(),
            start.len() <= queue@.len(),
            queue@ == enqueued_all(start, views.take(it.index() as int)),
            due_views(out@) == dues(queue@.skip(start.len() as int)),
    {
        let ghost before = queue@;
        let ghost fv = feed@;
        let ghost done = due_views(out@);
        let url = feed.subscribe_url.clone();
        let delay_secs = refresh_delay(feed.ttl);
        proof {
            let k = it.index() as int;
            assert(views.take(k + 1).drop_last() =~= views.take(k));
            assert(views.take(k + 1).last() == fv);
        }
        let added = queue.enqueue(feed);
        if added {
            out.push(Due { subscribe_url: url, delay_secs });
            proof {
                let n = start.len() as int;
                assert(queue@.skip(n) =~= before.skip(n).push(fv));
                assert(due_views(out@) =~= done.push((fv.subscribe_url, refresh_delay_of(fv.ttl))));
                assert(dues(queue@.skip(n)) =~= dues(before.skip(n)).push(
                    (fv.subscribe_url, refresh_delay_of(fv.ttl)),
                ));
            }
        }
    }
    proof {
        assert(views.take(views.len() as int) =~= views);
    }
    out
}

/// The seconds after which a feed with the interval `ttl` is refreshed.
pub open spec fn refresh_delay_of(ttl: Option<u32>) -> int {
    match ttl {
        Some(minutes) => if minutes * 60 > FEED_REFRESH_INTERVAL {
            minutes * 60
        } else {
            FEED_REFRESH_INTERVAL as int
        },
        None => FEED_REFRESH_INTERVAL as int,
    }
}

/// What the bot does about a chat message.
#[derive(Debug)]
pub enum MessageAction {
    /// Nothing.
    Nothing,
    /// Send this answer.
    Reply(OutboundMessage),
    /// Pull the feed at this address and report with `on_pulled`.
    Pull(String),
}

/// What the bot does about an event of the session.
#[derive(Debug)]
pub enum EventAction {
    /// Ask the platform who the bot is and report with `on_connect`.
    WhoAmI,
    /// What the message in the event asks for.
    Message(MessageAction),
    /// Nothing.
    Nothing,
    /// Stop.
    Shutdown,
}

/// The answer with the text `content` to `msg` in `channel`.
pub open spec fn info_view(content: Seq<char>, channel: Seq<char>, msg: KookEventMessage)
    -> MessageView {
    MessageView { content, target_id: channel, quote: opt_text(msg.msg_id) }
}

/// The text of a message; empty where it has none.
pub open spec fn content_text(msg: KookEventMessage) -> Seq<char> {
    match msg.content {
        Some(c) => c@,
        None => Seq::empty(),
    }
}

/// Whether the store `after` and the result `r` are what the command `cmd`
/// in `channel` makes of the store `before`, the command being asked by
/// `msg`. Every command but the call for help needs a channel with a name.
pub open spec fn answers(
    before: StoreView,
    after: StoreView,
    r: Result<MessageAction, KsbotError>,
    cmd: CommandView,
    channel: Seq<char>,
    msg: KookEventMessage,
) -> bool {
    match cmd {
        CommandView::NotForMe => after == before && r matches Ok(MessageAction::Nothing),
        CommandView::Ignored => after == before && r matches Ok(MessageAction::Nothing),
        CommandView::Help => after == before && (r matches Ok(MessageAction::Reply(m)) && m@
            == info_view(HELP_TEXT@, channel, msg)),
        CommandView::Rss => after == before && (if channel.len() == 0 {
            r matches Ok(MessageAction::Nothing)
        } else {
            r matches Ok(MessageAction::Reply(m)) && m@ == info_view(
                rss_reply(before.channel_feeds(channel)),
                channel,
                msg,
            )
        }),
        CommandView::Sub(arg) => after == before && (if channel.len() == 0 {
            r matches Ok(MessageAction::Nothing)
        } else {
            match first_url(arg) {
                Some((a, b)) => r matches Ok(MessageAction::Pull(u)) && u@ == arg.subrange(a, b),
                None => r matches Err(KsbotError::NotUrl(x)) && x@ == arg,
            }
        }),
        CommandView::Unsub(arg) => if channel.len() == 0 {
            after == before && r matches Ok(MessageAction::Nothing)
        } else {
            match first_url(arg) {
                Some((a, b)) => {
                    let u = arg.subrange(a, b);
                    after == before.unsubscribed(channel, u).without_feed(u) && (r matches Ok(
                        MessageAction::Reply(m),
                    ) && m@ == info_view(UNSUBSCRIBED_TEXT@ + u, channel, msg))
                },
                None => after == before && (r matches Err(KsbotError::NotUrl(x)) && x@ == arg),
            }
        },
        CommandView::Reg(arg, pattern) => if channel.len() == 0 {
            after == before && r matches Ok(MessageAction::Nothing)
        } else {
            match first_url(arg) {
                None => after == before && (r matches Err(KsbotError::NotUrl(x)) && x@ == arg),
                Some((a, b)) => {
                    let u = arg.subrange(a, b);
                    if !regex_compiles(pattern) {
                        after == before && (r matches Err(KsbotError::NotRegex(_)))
                    } else if before.channel_index(channel) < 0 {
                        after == before && (r matches Err(
                            KsbotError::Database(DatabaseError::NotFoundChannel(c)),
                        ) && c@ == channel)
                    } else if !before.subscribes(channel, u) {
                        after == before && (r matches Err(
                            KsbotError::Database(DatabaseError::NotFoundFeed(f)),
                        ) && f@ == u)
                    } else {
                        after == before.with_regex(channel, u, pattern) && (r matches Ok(
                            MessageAction::Reply(m),
                        ) && m@ == info_view(REGEX_SET_TEXT@, channel, msg))
                    }
                },
            }
        },
    }
}

/// Whether the store `after` and the result `r` are what the message `msg`
/// at the time `now` makes of the store `before`, for a bot of the name
/// `me`: a message that is not answered, and any message before the bot
/// knows who it is, does nothing; a message without a channel is an error;
/// else the message does what its command asks.
pub open spec fn message_post(
    me: Option<Seq<char>>,
    before: StoreView,
    after: StoreView,
    r: Result<MessageAction, KsbotError>,
    msg: KookEventMessage,
    now: u128,
) -> bool {
    if !message_valid(msg, now) {
        after == before && r matches Ok(MessageAction::Nothing)
    } else {
        match (msg.target_id, me) {
            (None, _) => after == before && r matches Err(KsbotError::Anyhow(_)),
            (Some(_), None) => after == before && r matches Ok(MessageAction::Nothing),
            (Some(channel), Some(id)) => answers(
                before,
                after,
                r,
                command_of(content_text(msg), id),
                channel@,
                msg,
            ),
        }
    }
}

/// The bot: who it is on the platform, once it knows, and the store of
/// subscriptions.
pub struct KsbotRuntime {
    me_info: Option<UserMe>,
    db: Database,
}

fn reply_to(content: &str, channel: &str, msg: &KookEventMessage) -> (r: OutboundMessage)
    ensures
        r@ == info_view(content@, channel@, *msg),
{
    let quote = match &msg.msg_id {
        Some(id) => Some(id.clone()),
        None => None,
    };
    OutboundMessage { content: content.to_owned(), target_id: channel.to_owned(), quote }
}

impl KsbotRuntime {
    /// The bot's name on the platform, once it knows it.
    pub closed spec fn me(&self) -> Option<Seq<char>> {
        match self.me_info {
            Some(me) => Some(me.id@),
            None => None,
        }
    }

    /// What the store holds.
    pub closed spec fn store(&self) -> StoreView {
        self.db@
    }

    /// The store is well formed.
    pub closed spec fn wf(&self) -> bool {
        self.db.wf()
    }

    /// A bot that does not know yet who it is, with an empty store.
    pub fn new() -> (r: Self)
        ensures
            r.wf(),
            r.me() is None,
            r.store().feeds.len() == 0,
            r.store().channels.len() == 0,
    {
        KsbotRuntime { me_info: None, db: Database::new() }
    }

    /// A bot that does not know yet who it is, with the store `db`.
    pub fn with_store(db: Database) -> (r: Self)
        requires
            db.wf(),
        ensures
            r.wf(),
            r.me() is None,
            r.store() == db@,
    {
        KsbotRuntime { me_info: None, db }
    }

    /// The store, to read it.
    pub fn db(&self) -> (r: &Database)
        requires
            self.wf(),
        ensures
            r.wf(),
            r@ == self.store(),
    {
        &self.db
    }

    /// Takes what the platform says of who the bot is.
    pub fn on_connect(&mut self, me: UserMe)
        requires
            old(self).wf(),
        ensures
            final(self).wf(),
            final(self).me() == Some(me.id@),
            final(self).store() == old(self).store(),
    {
        self.me_info = Some(me);
    }

    /// Takes a chat message at the time `now` (milliseconds since the
    /// epoch). A message that is not answered, and any message before the
    /// bot knows who it is, does nothing; a message without a channel is an
    /// error; else the message does what its command asks.
    pub fn on_message(&mut self, msg: &KookEventMessage, now: u128) -> (r: Result<
        MessageAction,
        KsbotError,
    >)
        requires
            old(self).wf(),
        ensures
            final(self).wf(),
            final(self).me() == old(self).me(),
            message_post(old(self).me(), old(self).store(), final(self).store(), r, *msg, now),
    {
        if !is_valid_message(msg, now) {
            return Ok(MessageAction::Nothing);
        }
        let empty = String::new();
        let content = match &msg.content {
            Some(c) => c.as_str(),
            None => empty.as_str(),
        };
        let channel_id = match &msg.target_id {
            Some(s) => s.as_str(),
            None => {
                return Err(KsbotError::Anyhow("not have a channel id?".to_owned()));
            },
        };
        let command = match &self.me_info {
            Some(me) => parse_command(content, me.id.as_str()),
            None => {
                return Ok(MessageAction::Nothing);
            },
        };
        let named = channel_id.unicode_len() > 0;
        match command {
            Command::NotForMe => Ok(MessageAction::Nothing),
            Command::Ignored => Ok(MessageAction::Nothing),
            Command::Help => Ok(MessageAction::Reply(reply_to(HELP_TEXT, channel_id, msg))),
            Command::Rss => {
                if !named {
                    return Ok(MessageAction::Nothing);
                }
                let feeds = match self.db.channel_feed_list(channel_id) {
                    Ok(f) => f,
                    Err(e) => {
                        return Err(KsbotError::Database(e));
                    },
                };
                let reply = command_rss(&feeds);
                Ok(MessageAction::Reply(reply_to(reply.as_str(), channel_id, msg)))
            },
            Command::Sub(arg) => {
                if !named {
                    return Ok(MessageAction::Nothing);
                }
                match command_url(arg.as_str()) {
                    Ok(url) => Ok(MessageAction::Pull(url)),
                    Err(e) => Err(e),
                }
            },
            Command::Unsub(arg) => {
                if !named {
                    return Ok(MessageAction::Nothing);
                }
                match command_unsub(&mut self.db, channel_id, arg.as_str()) {
                    Ok(reply) => Ok(
                        MessageAction::Reply(reply_to(reply.as_str(), channel_id, msg)),
                    ),
                    Err(e) => Err(e),
                }
            },
            Command::Reg(arg, pattern) => {
                if !named {
                    return Ok(MessageAction::Nothing);
                }
                match command_reg(&mut self.db, channel_id, arg.as_str(), pattern.as_str()) {
                    Ok(reply) => Ok(
                        MessageAction::Reply(reply_to(reply.as_str(), channel_id, msg)),
                    ),
                    Err(e) => Err(e),
                }
            },
        }
    }

    /// Takes the feed `rss` that was pulled from `subscribe_url` at `now`
    /// (seconds since the epoch) because `msg` asked to subscribe to it:
    /// subscribes the message's channel and returns the answer, followed
    /// by the feed's first post where it has one with a link.
    pub fn on_pulled(
        &mut self,
        msg: &KookEventMessage,
        subscribe_url: &str,
        rss: &Feed,
        now: u64,
    ) -> (r: Result<Vec<OutboundMessage>, KsbotError>)
        requires
            old(self).wf(),
        ensures
            final(self).wf(),
            final(self).me() == old(self).me(),
            match msg.target_id {
                None => final(self).store() == old(self).store() && r matches Err(
                    KsbotError::Anyhow(_),
                ),
                Some(channel) => {
                    &&& final(self).store() == old(self).store().subscribed(
                        channel@,
                        FeedView {
                            subscribe_url: subscribe_url@,
                            link: rss.link@,
                            title: rss.title@,
                            down_time: now,
                            ttl: rss.ttl,
                            posts_hash: crate::data::post_fingerprints(rss.posts@),
                            channel_ids: Seq::empty(),
                        },
                    )
                    &&& r matches Ok(out)
                    &&& out.len() >= 1
                    &&& out[0]@ == info_view(SUBSCRIBED_TEXT@ + subscribe_url@, channel@, *msg)
                    &&& if rss.posts.len() > 0 && rss.posts[0].link is Some {
                        out.len() == 2 && out[1]@ == (MessageView {
                            content: post_text(
                                rss.posts[0].title_text(),
                                rss.posts[0].link->0@,
                            ),
                            target_id: channel@,
                            quote: None,
                        })
                    } else {
                        out.len() == 1
                    }
                },
            },
    {
        let channel = match &msg.target_id {
            Some(s) => s.as_str(),
            None => {
                return Err(KsbotError::Anyhow("not have a channel id?".to_owned()));
            },
        };
        let done = match command_sub(&mut self.db, channel, subscribe_url, rss, now) {
            Ok(d) => d,
            Err(e) => {
                return Err(e);
            },
        };
        let mut out: Vec<OutboundMessage> = Vec::new();
        out.push(reply_to(done.reply.as_str(), channel, msg));
        match done.first_post {
            Some(m) => {
                out.push(m);
            },
            None => {},
        }
        Ok(out)
    }

    /// Takes the fresh fetch `rss` of the feed `feed`, pulled at `now`
    /// (seconds since the epoch): files the new snapshot and returns the
    /// messages that carry the new posts to the subscribed channels.
    pub fn on_refreshed(&mut self, feed: &SubscribeFeed, rss: &Feed, now: u64) -> (r: Result<
        Vec<OutboundMessage>,
        KsbotError,
    >)
        requires
            old(self).wf(),
        ensures
            final(self).wf(),
            final(self).me() == old(self).me(),
            ({
                let new_feed = FeedView {
                    subscribe_url: feed@.subscribe_url,
                    link: rss.link@,
                    title: rss.title@,
                    down_time: now,
                    ttl: rss.ttl,
                    posts_hash: crate::data::post_fingerprints(rss.posts@),
                    channel_ids: feed@.channel_ids,
                };
                let at = old(self).store().feed_index(new_feed.key());
                &&& final(self).store() == old(self).store().with_feed(new_feed)
                &&& r matches Ok(messages)
                &&& message_views(messages@) == (if at < 0 {
                    Seq::empty()
                } else {
                    update_messages(
                        new_feed,
                        old(self).store().feeds[at],
                        rss.posts@,
                        final(self).store().feed_channels(new_feed.subscribe_url),
                    )
                })
            }),
    {
        match push_update(&mut self.db, feed, rss, now) {
            Ok(messages) => Ok(messages),
            Err(e) => Err(KsbotError::Database(e)),
        }
    }

    /// Takes an event of the session at the time `now` (milliseconds since
    /// the epoch): a connection asks who the bot is, a message is answered,
    /// a shutdown stops the bot, all else does nothing.
    pub fn on_event(&mut self, event: &BotNetworkEvent, now: u128) -> (r: Result<
        EventAction,
        KsbotError,
    >)
        requires
            old(self).wf(),
        ensures
            final(self).wf(),
            final(self).me() == old(self).me(),
            match *event {
                BotNetworkEvent::Connect() => r matches Ok(EventAction::WhoAmI) && final(self).store() == old(self).store(),
                BotNetworkEvent::Heart() => r matches Ok(EventAction::Nothing) && final(self).store() == old(self).store(),
                BotNetworkEvent::Error() => r matches Ok(EventAction::Nothing) && final(self).store() == old(self).store(),
                BotNetworkEvent::Shutdown() => r matches Ok(EventAction::Shutdown) && final(self).store() == old(self).store(),
                BotNetworkEvent::Message(msg) => match r {
                    Ok(EventAction::Message(action)) => message_post(
                        old(self).me(),
                        old(self).store(),
                        final(self).store(),
                        Ok(action),
                        *msg,
                        now,
                    ),
                    Err(e) => message_post(
                        old(self).me(),
                        old(self).store(),
                        final(self).store(),
                        Err(e),
                        *msg,
                        now,
                    ),
                    _ => false,
                },
            },
    {
        match event {
            BotNetworkEvent::Connect() => Ok(EventAction::WhoAmI),
            BotNetworkEvent::Heart() => Ok(EventAction::Nothing),
            BotNetworkEvent::Error() => Ok(EventAction::Nothing),
            BotNetworkEvent::Shutdown() => Ok(EventAction::Shutdown),
            BotNetworkEvent::Message(msg) => match self.on_message(msg, now) {
                Ok(action) => Ok(EventAction::Message(action)),
                Err(e) => Err(e),
            },
        }
    }
}

/// A text whose first and last characters are no white space is read as
/// it stands: it is a command exactly where it starts with the bot's
/// mention, and the command is read from the words behind the mention.
pub proof fn lemma_command_of_plain(content: Seq<char>, bot_id: Seq<char>)
    requires
        content.len() > 0,
        !white_space(content[0]),
        !white_space(content.last()),
    ensures
        command_of(content, bot_id) == (if has_prefix(content, mention(bot_id)) {
            command_of_words(words(content.skip(mention(bot_id).len() as int)))
        } else {
            CommandView::NotForMe
        }),
{
    lemma_trimmed_plain(content);
}

} // verus!
