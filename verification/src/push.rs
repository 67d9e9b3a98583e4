//! From a fresh fetch to the messages that go out: which posts are new,
//! which channel wants which of them, and what each message says.
use crate::data::{diff_upto, ChannelSubFeeds, ChannelView, FeedView, SubscribeFeed};
use crate::db::{channel_views, Database, DatabaseError};
use crate::fetch::feed::Feed;
use crate::fetch::item::FeedPost;
use crate::filter::{filters, title_filtered};
use crate::network_runtime::opt_text;
use crate::text::{is_blank, trimmed};
use crate::utils::hash;
use crate::ws::KookEventMessage;
use vstd::prelude::*;
use vstd::string::StringExecFns;

verus! {

/// Seconds after which a feed that cannot be pulled is taken for dead: a
/// week.
pub const FEED_EXPIRE_SECS: u64 = 604800;

/// A message to send to the platform.
#[derive(Debug)]
pub struct OutboundMessage {
    pub content: String,
    pub target_id: String,
    /// The message that this one answers, where it answers one.
    pub quote: Option<String>,
}

/// A message to send, for contracts.
pub struct MessageView {
    pub content: Seq<char>,
    pub target_id: Seq<char>,
    pub quote: Option<Seq<char>>,
}

impl View for OutboundMessage {
    type V = MessageView;

    open spec fn view(&self) -> MessageView {
        MessageView {
            content: self.content@,
            target_id: self.target_id@,
            quote: opt_text(self.quote),
        }
    }
}

/// What messages read.
pub open spec fn message_views(v: Seq<OutboundMessage>) -> Seq<MessageView> {
    Seq::new(v.len(), |i: int| v[i]@)
}

/// Whether a feed that could not be pulled at `now` was last pulled more
/// than a week before.
pub fn is_expired(feed: &SubscribeFeed, now: u64) -> (r: bool)
    ensures
        r == (feed.down_time + FEED_EXPIRE_SECS < now),
{
    match feed.down_time.checked_add(FEED_EXPIRE_SECS) {
        Some(expired) => expired < now,
        None => false,
    }
}

/// What the message for a post says: the title in bold, then the link as a
/// quotation.
pub open spec fn post_text(title: Seq<char>, link: Seq<char>) -> Seq<char> {
    "**"@ + title + "** \n > "@ + link
}

/// The message that carries `item` to the channel `chan_id`; none for a
/// post without a link.
pub fn push_post(chan_id: &str, item: &FeedPost) -> (r: Option<OutboundMessage>)
    ensures
        match item.link {
            Some(link) => r matches Some(m) && m@ == (MessageView {
                content: post_text(item.title_text(), link@),
                target_id: chan_id@,
                quote: None,
            }),
            None => r is None,
        },
{
    match &item.link {
        Some(link) => {
            let mut content = "**".to_owned();
            match &item.title {
                Some(t) => {
                    content.append(t.as_str());
                },
                None => {
                    proof {
                        assert(content@ + Seq::<char>::empty() =~= content@);
                    }
                },
            }
            content.append("** \n > ");
            content.append(link.as_str());
            Some(OutboundMessage { content, target_id: chan_id.to_owned(), quote: None })
        },
        None => None,
    }
}

/// The answer `content` to the message `msg`: it goes to the channel the
/// message came from and quotes the message. None where the message names
/// no channel.
pub fn push_info(content: &str, msg: &KookEventMessage) -> (r: Option<OutboundMessage>)
    ensures
        match msg.target_id {
            Some(chan) => r matches Some(m) && m@ == (MessageView {
                content: content@,
                target_id: chan@,
                quote: opt_text(msg.msg_id),
            }),
            None => r is None,
        },
{
    match &msg.target_id {
        Some(chan) => {
            let quote = match &msg.msg_id {
                Some(id) => Some(id.clone()),
                None => None,
            };
            Some(OutboundMessage { content: content.to_owned(), target_id: chan.clone(), quote })
        },
        None => None,
    }
}

/// Whether the filter `reg_str` holds the post `t` back: it compiles and
/// matches the post's title, the empty text where the post has none.
pub fn is_filter_post(t: &FeedPost, reg_str: &str) -> (r: bool)
    ensures
        r == filters(reg_str@, t.title_text()),
{
    match &t.title {
        Some(title) => title_filtered(reg_str, title.as_str()),
        None => {
            let e = String::new();
            title_filtered(reg_str, e.as_str())
        },
    }
}

/// Whether a channel with the filter `regex` does not want the post: there
/// is a filter, it is not blank, and it holds the post back.
pub open spec fn held_back(regex: Option<Seq<char>>, post: FeedPost) -> bool {
    regex matches Some(p) && trimmed(p).len() > 0 && filters(p, post.title_text())
}

/// The messages that carry to one channel the posts at the places `idx`,
/// in that order: a place past the posts, a post the channel's filter for
/// the feed `key` holds back and a post without a link give none.
pub open spec fn channel_messages(
    ch: ChannelView,
    key: Seq<char>,
    posts: Seq<FeedPost>,
    idx: Seq<usize>,
) -> Seq<MessageView>
    decreases idx.len(),
{
    if idx.len() == 0 {
        Seq::empty()
    } else {
        let rest = channel_messages(ch, key, posts, idx.drop_last());
        let i = idx.last() as int;
        if i < posts.len() && posts[i].link is Some && !held_back(ch.regex_for(key), posts[i]) {
            rest.push(
                MessageView {
                    content: post_text(posts[i].title_text(), posts[i].link->0@),
                    target_id: ch.id,
                    quote: None,
                },
            )
        } else {
            rest
        }
    }
}

/// The messages for all of `channels`, channel after channel.
pub open spec fn plan(
    channels: Seq<ChannelView>,
    key: Seq<char>,
    posts: Seq<FeedPost>,
    idx: Seq<usize>,
) -> Seq<MessageView>
    decreases channels.len(),
{
    if channels.len() == 0 {
        Seq::empty()
    } else {
        plan(channels.drop_last(), key, posts, idx) + channel_messages(
            channels.last(),
            key,
            posts,
            idx,
        )
    }
}

/// The messages that carry the posts at the places `idx` to `channels`,
/// each channel filtering with its pattern for the feed `key`.
pub fn push_plan(
    channels: &Vec<ChannelSubFeeds>,
    key: &str,
    posts: &Vec<FeedPost>,
    idx: &Vec<usize>,
) -> (r: Vec<OutboundMessage>)
    ensures
        message_views(r@) == plan(channel_views(channels@), key@, posts@, idx@),
{
    let mut out: Vec<OutboundMessage> = Vec::new();
    let ghost chans = channel_views(channels@);
    let mut c: usize = 0;
    proof {
        assert(message_views(out@) =~= plan(chans.take(0), key@, posts@, idx@));
    }
    while c < channels.len()
        invariant
            c <= channels.len(),
            chans == channel_views(channels@),
            message_views(out@) == plan(chans.take(c as int), key@, posts@, idx@),
        decreases channels.len() - c,
    {
        let ch = &channels[c];
        let regex = ch.regex_for(key);
        let ghost base = message_views(out@);
        let mut k: usize = 0;
        proof {
            assert(chans.take(c + 1).drop_last() =~= chans.take(c as int));
            assert(chans.take(c + 1).last() == ch@);
            assert(channel_messages(ch@, key@, posts@, idx@.take(0)) =~= Seq::<
                MessageView,
            >::empty());
            assert(base + Seq::<MessageView>::empty() =~= base);
        }
        while k < idx.len()
            invariant
                k <= idx.len(),
                opt_text(regex) == ch@.regex_for(key@),
                message_views(out@) == base + channel_messages(
                    ch@,
                    key@,
                    posts@,
                    idx@.take(k as int),
                ),
            decreases idx.len() - k,
        {
            let i = idx[k];
            let ghost before = message_views(out@);
            let ghost done = channel_messages(ch@, key@, posts@, idx@.take(k as int));
            proof {
                assert(idx@.take(k + 1).drop_last() =~= idx@.take(k as int));
                assert(idx@.take(k + 1).last() == i);
            }
            if i < posts.len() {
                let post = &posts[i];
                let held = match &regex {
                    Some(p) => !is_blank(p.as_str()) && is_filter_post(post, p.as_str()),
                    None => false,
                };
                if !held {
                    match push_post(ch.id.as_str(), post) {
                        Some(m) => {
                            let ghost mv = m@;
                            out.push(m);
                            proof {
                                assert(message_views(out@) =~= before.push(mv));
                                assert(before.push(mv) =~= base + done.push(mv));
                            }
                        },
                        None => {},
                    }
                }
            }
            k += 1;
        }
        proof {
            assert(idx@.take(idx@.len() as int) =~= idx@);
        }
        c += 1;
    }
    proof {
        assert(chans.take(chans.len() as int) =~= chans);
    }
    out
}

/// The messages that a fresh fetch of a feed gives rise to, given the
/// snapshot `prior` that the store held before, the new snapshot `new_feed`
/// and the channels subscribed: none where no post is new.
pub open spec fn update_messages(
    new_feed: FeedView,
    prior: FeedView,
    posts: Seq<FeedPost>,
    channels: Seq<ChannelView>,
) -> Seq<MessageView> {
    plan(
        channels,
        prior.key(),
        posts,
        diff_upto(new_feed.posts_hash, prior.posts_hash, new_feed.posts_hash.len()),
    )
}

/// Takes the fresh fetch `rss` of `feed`, pulled at `now`: files the new
/// snapshot, which keeps the subscribed channels, and returns the messages
/// that carry the new posts to them. Where the store held no snapshot of
/// the feed before, nothing is new.
pub fn push_update(db: &mut Database, feed: &SubscribeFeed, rss: &Feed, now: u64) -> (r: Result<
    Vec<OutboundMessage>,
    DatabaseError,
>)
    requires
        old(db).wf(),
    ensures
        final(db).wf(),
        ({
            let new_feed = FeedView {
                subscribe_url: feed@.subscribe_url,
                link: rss.link@,
                title: rss.title@,
                down_time: now,
                ttl: rss.ttl,
                posts_hash: crate::data::post_fingerprints(rss.posts@),
                channel_ids: feed@.channel_ids,
            };
            let at = old(db)@.feed_index(new_feed.key());
            &&& final(db)@ == old(db)@.with_feed(new_feed)
            &&& r matches Ok(messages)
            &&& message_views(messages@) == (if at < 0 {
                Seq::empty()
            } else {
                update_messages(
                    new_feed,
                    old(db)@.feeds[at],
                    rss.posts@,
                    final(db)@.feed_channels(new_feed.subscribe_url),
                )
            })
        }),
{
    let new_feed = SubscribeFeed::from_old(feed, rss, now);
    let prior = match db.update_or_create_feed(&new_feed) {
        Ok(p) => p,
        Err(e) => {
            return Err(e);
        },
    };
    match prior {
        Some(old_feed) => {
            let idx = new_feed.diff_post_index(&old_feed);
            let chans = match db.feed_channel_list(new_feed.subscribe_url.as_str()) {
                Ok(c) => c,
                Err(e) => {
                    return Err(e);
                },
            };
            let key = hash(old_feed.subscribe_url.as_str());
            Ok(push_plan(&chans, key.as_str(), &rss.posts, &idx))
        },
        None => {
            let out: Vec<OutboundMessage> = Vec::new();
            proof {
                assert(message_views(out@) =~= Seq::<MessageView>::empty());
            }
            Ok(out)
        },
    }
}

} // verus!
