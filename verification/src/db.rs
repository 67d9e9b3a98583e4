//! The subscription store: which channel is subscribed to which feed, and
//! what is known of each feed.
use crate::data::{ChannelSubFeeds, ChannelView, FeedView, SubscribeFeed};
use crate::filter::regex_compiles;
use crate::text::{
    add_unique, concat, index_of, lemma_index_of, position, push_unique, remove_first,
    remove_first_str,
};
use crate::utils::{fingerprint, hash};
use vstd::prelude::*;
use vstd::string::StrSliceExecFns;

verus! {

/// What a store operation can fail with.
#[derive(Debug)]
pub enum DatabaseError {
    /// No feed with this address is subscribed.
    NotFoundFeed(String),
    /// No channel with this name is known.
    NotFoundChannel(String),
}

/// What feeds read.
pub open spec fn feed_views(v: Seq<SubscribeFeed>) -> Seq<FeedView> {
    Seq::new(v.len(), |i: int| v[i]@)
}

/// What channel records read.
pub open spec fn channel_views(v: Seq<ChannelSubFeeds>) -> Seq<ChannelView> {
    Seq::new(v.len(), |i: int| v[i]@)
}

/// The keys of feeds, place by place.
pub open spec fn feed_keys(feeds: Seq<FeedView>) -> Seq<Seq<char>> {
    Seq::new(feeds.len(), |i: int| feeds[i].key())
}

/// The names of channels, place by place.
pub open spec fn channel_names(channels: Seq<ChannelView>) -> Seq<Seq<char>> {
    Seq::new(channels.len(), |i: int| channels[i].id)
}

/// The pairs without the one whose first part is `key`.
pub open spec fn without_pair(pairs: Seq<(Seq<char>, Seq<char>)>, key: Seq<char>) -> Seq<
    (Seq<char>, Seq<char>),
> {
    if crate::data::pair_index(pairs, key) < 0 {
        pairs
    } else {
        pairs.remove(crate::data::pair_index(pairs, key))
    }
}

/// The pairs with `value` under `key`: in the place of the pair that was
/// under `key`, or at the end.
pub open spec fn with_pair(
    pairs: Seq<(Seq<char>, Seq<char>)>,
    key: Seq<char>,
    value: Seq<char>,
) -> Seq<(Seq<char>, Seq<char>)> {
    if crate::data::pair_index(pairs, key) < 0 {
        pairs.push((key, value))
    } else {
        pairs.update(crate::data::pair_index(pairs, key), (key, value))
    }
}

/// What the store holds, for contracts: the feeds and the channel records,
/// each in the order in which they came.
pub struct StoreView {
    pub feeds: Seq<FeedView>,
    pub channels: Seq<ChannelView>,
}

impl StoreView {
    /// No two feeds have the same key and no two channel records the same
    /// name.
    pub open spec fn wf(self) -> bool {
        feed_keys(self.feeds).no_duplicates() && channel_names(self.channels).no_duplicates()
    }

    /// The place of the feed with key `key`; -1 where there is none.
    pub open spec fn feed_index(self, key: Seq<char>) -> int {
        index_of(feed_keys(self.feeds), key)
    }

    /// The place of the record of the channel `id`; -1 where there is none.
    pub open spec fn channel_index(self, id: Seq<char>) -> int {
        index_of(channel_names(self.channels), id)
    }

    /// The store with `feed` filed under its key, in the place of the feed
    /// that was there or at the end.
    pub open spec fn with_feed(self, feed: FeedView) -> Self {
        if self.feed_index(feed.key()) < 0 {
            StoreView { feeds: self.feeds.push(feed), ..self }
        } else {
            StoreView { feeds: self.feeds.update(self.feed_index(feed.key()), feed), ..self }
        }
    }

    /// The store with `channel` filed under its name, in the place of the
    /// record that was there or at the end.
    pub open spec fn with_channel(self, channel: ChannelView) -> Self {
        if self.channel_index(channel.id) < 0 {
            StoreView { channels: self.channels.push(channel), ..self }
        } else {
            StoreView {
                channels: self.channels.update(self.channel_index(channel.id), channel),
                ..self
            }
        }
    }

    /// The store once `channel` subscribed to `feed`: the feed is filed
    /// where it was not, the channel's record is made where there was
    /// none, the channel's record names the feed and the feed names the
    /// channel.
    pub open spec fn subscribed(self, channel: Seq<char>, feed: FeedView) -> Self {
        let s1 = if self.feed_index(feed.key()) < 0 {
            StoreView { feeds: self.feeds.push(feed), ..self }
        } else {
            self
        };
        let s2 = if s1.channel_index(channel) < 0 {
            StoreView {
                channels: s1.channels.push(
                    ChannelView { id: channel, feed_hash: Seq::empty(), feed_regex: Seq::empty() },
                ),
                ..s1
            }
        } else {
            s1
        };
        let j = s2.channel_index(channel);
        let c = s2.channels[j];
        let i = s2.feed_index(feed.key());
        let f = s2.feeds[i];
        StoreView {
            feeds: s2.feeds.update(
                i,
                FeedView { channel_ids: add_unique(f.channel_ids, channel), ..f },
            ),
            channels: s2.channels.update(
                j,
                ChannelView { feed_hash: add_unique(c.feed_hash, feed.key()), ..c },
            ),
        }
    }

    /// The store once `channel` left the feed at `url`: the feed, where it
    /// is filed, no longer names the channel, and the channel's record,
    /// where there is one, no longer names the feed.
    pub open spec fn unsubscribed(self, channel: Seq<char>, url: Seq<char>) -> Self {
        let key = fingerprint(url);
        let i = self.feed_index(key);
        let j = self.channel_index(channel);
        StoreView {
            feeds: if i < 0 {
                self.feeds
            } else {
                self.feeds.update(
                    i,
                    FeedView {
                        channel_ids: remove_first(self.feeds[i].channel_ids, channel),
                        ..self.feeds[i]
                    },
                )
            },
            channels: if j < 0 {
                self.channels
            } else {
                self.channels.update(
                    j,
                    ChannelView {
                        feed_hash: remove_first(self.channels[j].feed_hash, key),
                        ..self.channels[j]
                    },
                )
            },
        }
    }

    /// Whether the feed at `url` can go: it is filed and names no channel.
    pub open spec fn removable(self, url: Seq<char>) -> bool {
        self.feed_index(fingerprint(url)) >= 0 && self.feeds[self.feed_index(
            fingerprint(url),
        )].channel_ids.len() == 0
    }

    /// The store without the feed at `url`, where that feed can go.
    pub open spec fn without_feed(self, url: Seq<char>) -> Self {
        if self.removable(url) {
            StoreView { feeds: self.feeds.remove(self.feed_index(fingerprint(url))), ..self }
        } else {
            self
        }
    }

    /// The feeds that are filed under the keys `keys`, in the keys' order.
    pub open spec fn feeds_of(self, keys: Seq<Seq<char>>) -> Seq<FeedView>
        decreases keys.len(),
    {
        if keys.len() == 0 {
            Seq::empty()
        } else if self.feed_index(keys.last()) < 0 {
            self.feeds_of(keys.drop_last())
        } else {
            self.feeds_of(keys.drop_last()).push(self.feeds[self.feed_index(keys.last())])
        }
    }

    /// The records of the channels `ids`, in the names' order.
    pub open spec fn channels_of(self, ids: Seq<Seq<char>>) -> Seq<ChannelView>
        decreases ids.len(),
    {
        if ids.len() == 0 {
            Seq::empty()
        } else if self.channel_index(ids.last()) < 0 {
            self.channels_of(ids.drop_last())
        } else {
            self.channels_of(ids.drop_last()).push(self.channels[self.channel_index(ids.last())])
        }
    }

    /// The feeds that the channel `id` is subscribed to and that are filed.
    pub open spec fn channel_feeds(self, id: Seq<char>) -> Seq<FeedView> {
        if self.channel_index(id) < 0 {
            Seq::empty()
        } else {
            self.feeds_of(self.channels[self.channel_index(id)].feed_hash)
        }
    }

    /// The records of the channels that the feed at `url` names.
    pub open spec fn feed_channels(self, url: Seq<char>) -> Seq<ChannelView> {
        if self.feed_index(fingerprint(url)) < 0 {
            Seq::empty()
        } else {
            self.channels_of(self.feeds[self.feed_index(fingerprint(url))].channel_ids)
        }
    }

    /// Whether the channel `id` has a record that names the feed at `url`.
    pub open spec fn subscribes(self, id: Seq<char>, url: Seq<char>) -> bool {
        self.channel_index(id) >= 0 && self.channels[self.channel_index(id)].feed_hash.contains(
            fingerprint(url),
        )
    }

    /// The store with the filter of `channel` for the feed at `url` set to
    /// `pattern`; an empty pattern takes the filter away.
    pub open spec fn with_regex(self, id: Seq<char>, url: Seq<char>, pattern: Seq<char>) -> Self {
        let j = self.channel_index(id);
        let c = self.channels[j];
        let key = fingerprint(url);
        StoreView {
            channels: self.channels.update(
                j,
                ChannelView {
                    feed_regex: if pattern.len() == 0 {
                        without_pair(c.feed_regex, key)
                    } else {
                        with_pair(c.feed_regex, key, pattern)
                    },
                    ..c
                },
            ),
            ..self
        }
    }
}

/// The subscription store.
pub struct Database {
    feeds: Vec<SubscribeFeed>,
    feed_keys: Vec<String>,
    channels: Vec<ChannelSubFeeds>,
    channel_ids: Vec<String>,
}

/// The prefix of the keys under which feeds are kept.
pub const FEED_KEY_PREFIX: &'static str = "feed::";

/// The prefix of the keys under which channel records are kept.
pub const CHANNEL_KEY_PREFIX: &'static str = "channel::";

/// The key under which the feed at `subscribe_url` is kept.
pub fn feed_key(subscribe_url: &str) -> (r: String)
    ensures
        r@ == FEED_KEY_PREFIX@ + fingerprint(subscribe_url@),
{
    let ha = hash(subscribe_url);
    concat(FEED_KEY_PREFIX, ha.as_str())
}

/// The key under which the record of `channel` is kept.
pub fn channel_key(channel: &str) -> (r: String)
    ensures
        r@ == CHANNEL_KEY_PREFIX@ + channel@,
{
    concat(CHANNEL_KEY_PREFIX, channel)
}

/// The fingerprint of a feed: that of its address.
pub fn feed_hash(feed: &SubscribeFeed) -> (r: String)
    ensures
        r@ == feed@.key(),
{
    hash(feed.subscribe_url.as_str())
}

impl Database {
    /// What the store holds.
    pub closed spec fn view(&self) -> StoreView {
        StoreView { feeds: feed_views(self.feeds@), channels: channel_views(self.channels@) }
    }

    /// The store's own lists of keys and names agree with what it holds,
    /// and what it holds is well formed.
    pub closed spec fn wf(&self) -> bool {
        &&& self.feed_keys.deep_view() == feed_keys(self@.feeds)
        &&& self.channel_ids.deep_view() == channel_names(self@.channels)
        &&& self@.wf()
    }

    /// What a well-formed store holds is well formed.
    pub proof fn lemma_wf(&self)
        requires
            self.wf(),
        ensures
            self@.wf(),
    {
    }

    /// A store that holds nothing.
    pub fn new() -> (r: Self)
        ensures
            r.wf(),
            r@.feeds.len() == 0,
            r@.channels.len() == 0,
    {
        let r = Database {
            feeds: Vec::new(),
            feed_keys: Vec::new(),
            channels: Vec::new(),
            channel_ids: Vec::new(),
        };
        proof {
            assert(r.feed_keys.deep_view() =~= feed_keys(r@.feeds));
            assert(r.channel_ids.deep_view() =~= channel_names(r@.channels));
        }
        r
    }

    fn find_feed(&self, key: &str) -> (r: Option<usize>)
        requires
            self.wf(),
        ensures
            match r {
                Some(i) => i == self@.feed_index(key@) && i < self.feeds.len(),
                None => self@.feed_index(key@) == -1,
            },
    {
        proof {
            lemma_index_of(self.feed_keys.deep_view(), key@);
        }
        position(&self.feed_keys, key)
    }

    fn find_channel(&self, id: &str) -> (r: Option<usize>)
        requires
            self.wf(),
        ensures
            match r {
                Some(i) => i == self@.channel_index(id@) && i < self.channels.len(),
                None => self@.channel_index(id@) == -1,
            },
    {
        proof {
            lemma_index_of(self.channel_ids.deep_view(), id@);
        }
        position(&self.channel_ids, id)
    }

    /// Whether the feed at `subscribe_url` is filed.
    pub fn contains_feed(&self, subscribe_url: &str) -> (r: Result<bool, DatabaseError>)
        requires
            self.wf(),
        ensures
            r matches Ok(b) && b == (self@.feed_index(fingerprint(subscribe_url@)) >= 0),
    {
        let key = hash(subscribe_url);
        Ok(self.find_feed(key.as_str()).is_some())
    }

    /// Whether the channel `channel_id` has a record.
    pub fn contains_channel(&self, channel_id: &str) -> (r: Result<bool, DatabaseError>)
        requires
            self.wf(),
        ensures
            r matches Ok(b) && b == (self@.channel_index(channel_id@) >= 0),
    {
        Ok(self.find_channel(channel_id).is_some())
    }

    fn put_feed(&mut self, key: String, feed: SubscribeFeed) -> (r: Option<SubscribeFeed>)
        requires
            old(self).wf(),
            key@ == feed@.key(),
        ensures
            final(self).wf(),
            final(self)@ == old(self)@.with_feed(feed@),
            match r {
                Some(f) => old(self)@.feed_index(feed@.key()) >= 0 && f@ == old(self)@.feeds[old(
                    self,
                )@.feed_index(feed@.key())],
                None => old(self)@.feed_index(feed@.key()) < 0,
            },
    {
        let ghost s = self@;
        let ghost keys = self.feed_keys.deep_view();
        proof {
            lemma_index_of(keys, key@);
        }
        match self.find_feed(key.as_str()) {
            Some(i) => {
                let prior = self.feeds.remove(i);
                self.feeds.insert(i, feed);
                proof {
                    assert(self@.feeds =~= s.feeds.update(i as int, feed@));
                    assert(feed_keys(self@.feeds) =~= keys);
                }
                Some(prior)
            },
            None => {
                self.feeds.push(feed);
                self.feed_keys.push(key);
                proof {
                    assert(self@.feeds =~= s.feeds.push(feed@));
                    assert(self.feed_keys.deep_view() =~= keys.push(key@));
                    assert(feed_keys(self@.feeds) =~= keys.push(key@));
                    assert(self@.channels =~= s.channels);
                    assert forall|a: int, b: int|
                        0 <= a < b < keys.push(key@).len() implies keys.push(key@)[a] != keys.push(
                        key@,
                    )[b] by {
                        if b < keys.len() {
                            assert(keys[a] != keys[b]);
                        } else {
                            assert(keys[a] != key@);
                        }
                    }
                }
                None
            },
        }
    }

    fn put_channel(&mut self, channel: ChannelSubFeeds) -> (r: Option<ChannelSubFeeds>)
        requires
            old(self).wf(),
        ensures
            final(self).wf(),
            final(self)@ == old(self)@.with_channel(channel@),
            match r {
                Some(c) => old(self)@.channel_index(channel@.id) >= 0 && c@ == old(
                    self,
                )@.channels[old(self)@.channel_index(channel@.id)],
                None => old(self)@.channel_index(channel@.id) < 0,
            },
    {
        let ghost s = self@;
        let ghost ids = self.channel_ids.deep_view();
        proof {
            lemma_index_of(ids, channel.id@);
        }
        match self.find_channel(channel.id.as_str()) {
            Some(i) => {
                let prior = self.channels.remove(i);
                self.channels.insert(i, channel);
                proof {
                    assert(self@.channels =~= s.channels.update(i as int, channel@));
                    assert(channel_names(self@.channels) =~= ids);
                }
                Some(prior)
            },
            None => {
                self.channel_ids.push(channel.id.clone());
                self.channels.push(channel);
                proof {
                    assert(self@.channels =~= s.channels.push(channel@));
                    assert(self.channel_ids.deep_view() =~= ids.push(channel.id@));
                    assert(channel_names(self@.channels) =~= ids.push(channel.id@));
                    assert(self@.feeds =~= s.feeds);
                    assert forall|a: int, b: int|
                        0 <= a < b < ids.push(channel.id@).len() implies ids.push(channel.id@)[a]
                        != ids.push(channel.id@)[b] by {
                        if b < ids.len() {
                            assert(ids[a] != ids[b]);
                        } else {
                            assert(ids[a] != channel.id@);
                        }
                    }
                }
                None
            },
        }
    }

    /// Files `feed` under its key, in the place of the snapshot that was
    /// there, and returns that snapshot.
    pub fn update_or_create_feed(&mut self, feed: &SubscribeFeed) -> (r: Result<
        Option<SubscribeFeed>,
        DatabaseError,
    >)
        requires
            old(self).wf(),
        ensures
            final(self).wf(),
            final(self)@ == old(self)@.with_feed(feed@),
            match r {
                Ok(Some(f)) => old(self)@.feed_index(feed@.key()) >= 0 && f@ == old(
                    self,
                )@.feeds[old(self)@.feed_index(feed@.key())],
                Ok(None) => old(self)@.feed_index(feed@.key()) < 0,
                Err(_) => false,
            },
    {
        let key = hash(feed.subscribe_url.as_str());
        Ok(self.put_feed(key, feed.clone()))
    }

    /// Files an empty record for `channel`, in the place of the record that
    /// was there, and returns that record.
    pub fn update_or_create_channel(&mut self, channel: &str) -> (r: Result<
        Option<ChannelSubFeeds>,
        DatabaseError,
    >)
        requires
            old(self).wf(),
        ensures
            final(self).wf(),
            final(self)@ == old(self)@.with_channel(
                ChannelView { id: channel@, feed_hash: Seq::empty(), feed_regex: Seq::empty() },
            ),
            match r {
                Ok(Some(c)) => old(self)@.channel_index(channel@) >= 0 && c@ == old(
                    self,
                )@.channels[old(self)@.channel_index(channel@)],
                Ok(None) => old(self)@.channel_index(channel@) < 0,
                Err(_) => false,
            },
    {
        Ok(self.put_channel(ChannelSubFeeds::from_id(channel.to_owned())))
    }

    /// Files the record `channel` as it stands, in the place of the record
    /// of that name, and returns the record that was there.
    pub fn restore_channel(&mut self, channel: ChannelSubFeeds) -> (r: Option<ChannelSubFeeds>)
        requires
            old(self).wf(),
        ensures
            final(self).wf(),
            final(self)@ == old(self)@.with_channel(channel@),
            match r {
                Some(c) => old(self)@.channel_index(channel@.id) >= 0 && c@ == old(
                    self,
                )@.channels[old(self)@.channel_index(channel@.id)],
                None => old(self)@.channel_index(channel@.id) < 0,
            },
    {
        self.put_channel(channel)
    }
}

impl Database {
    fn feed_add_channel(&mut self, i: usize, channel: String)
        requires
            old(self).wf(),
            i < old(self)@.feeds.len(),
        ensures
            final(self).wf(),
            final(self)@.channels == old(self)@.channels,
            final(self)@.feeds == old(self)@.feeds.update(
                i as int,
                FeedView {
                    channel_ids: add_unique(old(self)@.feeds[i as int].channel_ids, channel@),
                    ..old(self)@.feeds[i as int]
                },
            ),
    {
        let ghost s = self@;
        let mut f = self.feeds.remove(i);
        push_unique(&mut f.channel_ids, channel);
        let ghost g = f@;
        self.feeds.insert(i, f);
        proof {
            assert(self@.feeds =~= s.feeds.update(i as int, g));
            assert(feed_keys(self@.feeds) =~= feed_keys(s.feeds));
        }
    }

    fn feed_remove_channel(&mut self, i: usize, channel: &str)
        requires
            old(self).wf(),
            i < old(self)@.feeds.len(),
        ensures
            final(self).wf(),
            final(self)@.channels == old(self)@.channels,
            final(self)@.feeds == old(self)@.feeds.update(
                i as int,
                FeedView {
                    channel_ids: remove_first(old(self)@.feeds[i as int].channel_ids, channel@),
                    ..old(self)@.feeds[i as int]
                },
            ),
    {
        let ghost s = self@;
        let mut f = self.feeds.remove(i);
        remove_first_str(&mut f.channel_ids, channel);
        let ghost g = f@;
        self.feeds.insert(i, f);
        proof {
            assert(self@.feeds =~= s.feeds.update(i as int, g));
            assert(feed_keys(self@.feeds) =~= feed_keys(s.feeds));
        }
    }

    fn channel_add_feed(&mut self, j: usize, key: String)
        requires
            old(self).wf(),
            j < old(self)@.channels.len(),
        ensures
            final(self).wf(),
            final(self)@.feeds == old(self)@.feeds,
            final(self)@.channels == old(self)@.channels.update(
                j as int,
                ChannelView {
                    feed_hash: add_unique(old(self)@.channels[j as int].feed_hash, key@),
                    ..old(self)@.channels[j as int]
                },
            ),
    {
        let ghost s = self@;
        let mut c = self.channels.remove(j);
        push_unique(&mut c.feed_hash, key);
        let ghost g = c@;
        self.channels.insert(j, c);
        proof {
            assert(self@.channels =~= s.channels.update(j as int, g));
            assert(channel_names(self@.channels) =~= channel_names(s.channels));
        }
    }

    fn channel_remove_feed(&mut self, j: usize, key: &str)
        requires
            old(self).wf(),
            j < old(self)@.channels.len(),
        ensures
            final(self).wf(),
            final(self)@.feeds == old(self)@.feeds,
            final(self)@.channels == old(self)@.channels.update(
                j as int,
                ChannelView {
                    feed_hash: remove_first(old(self)@.channels[j as int].feed_hash, key@),
                    ..old(self)@.channels[j as int]
                },
            ),
    {
        let ghost s = self@;
        let mut c = self.channels.remove(j);
        remove_first_str(&mut c.feed_hash, key);
        let ghost g = c@;
        self.channels.insert(j, c);
        proof {
            assert(self@.channels =~= s.channels.update(j as int, g));
            assert(channel_names(self@.channels) =~= channel_names(s.channels));
        }
    }

    /// Subscribes `channel` to `feed`. Doing so again changes nothing.
    pub fn channel_subscribed(&mut self, channel: &str, feed: SubscribeFeed) -> (r: Result<
        (),
        DatabaseError,
    >)
        requires
            old(self).wf(),
        ensures
            final(self).wf(),
            final(self)@ == old(self)@.subscribed(channel@, feed@),
            r is Ok,
    {
        let key = hash(feed.subscribe_url.as_str());
        let ghost fv = feed@;
        let ghost s0 = self@;
        if self.find_feed(key.as_str()).is_none() {
            let _ = self.put_feed(key.clone(), feed);
        }
        let ghost s1 = self@;
        proof {
            let ks = feed_keys(s1.feeds);
            if s0.feed_index(key@) < 0 {
                assert(s1.feeds == s0.feeds.push(fv));
                assert(ks[ks.len() - 1] == key@);
            } else {
                lemma_index_of(feed_keys(s0.feeds), key@);
            }
            assert(ks.contains(key@));
            lemma_index_of(ks, key@);
        }
        if self.find_channel(channel).is_none() {
            let _ = self.put_channel(ChannelSubFeeds::from_id(channel.to_owned()));
        }
        let ghost s2 = self@;
        proof {
            let ns = channel_names(s2.channels);
            if s1.channel_index(channel@) < 0 {
                assert(ns[ns.len() - 1] == channel@);
            } else {
                lemma_index_of(channel_names(s1.channels), channel@);
            }
            assert(ns.contains(channel@));
            lemma_index_of(ns, channel@);
            assert(s2.feeds == s1.feeds);
        }
        match self.find_channel(channel) {
            Some(j) => {
                self.channel_add_feed(j, key.clone());
            },
            None => {},
        }
        match self.find_feed(key.as_str()) {
            Some(i) => {
                self.feed_add_channel(i, channel.to_owned());
            },
            None => {},
        }
        proof {
            let t = s0.subscribed(channel@, fv);
            assert(self@.feeds == t.feeds);
            assert(self@.channels == t.channels);
        }
        Ok(())
    }

    /// Takes `channel` off the feed at `subscribe_url`. Where the feed is
    /// not filed, or the channel has no record, that side counts as done.
    pub fn channel_unsubscribed(&mut self, channel: &str, subscribe_url: &str) -> (r: Result<
        (),
        DatabaseError,
    >)
        requires
            old(self).wf(),
        ensures
            final(self).wf(),
            final(self)@ == old(self)@.unsubscribed(channel@, subscribe_url@),
            r is Ok,
    {
        let key = hash(subscribe_url);
        match self.find_feed(key.as_str()) {
            Some(i) => {
                self.feed_remove_channel(i, channel);
            },
            None => {},
        }
        match self.find_channel(channel) {
            Some(j) => {
                self.channel_remove_feed(j, key.as_str());
            },
            None => {},
        }
        Ok(())
    }

    /// Takes the feed at `subscribe_url` out of the store where no channel
    /// is subscribed to it, and says whether it did.
    pub fn try_remove_feed(&mut self, subscribe_url: &str) -> (r: Result<bool, DatabaseError>)
        requires
            old(self).wf(),
        ensures
            final(self).wf(),
            final(self)@ == old(self)@.without_feed(subscribe_url@),
            r matches Ok(b) && b == old(self)@.removable(subscribe_url@),
    {
        let key = hash(subscribe_url);
        let ghost s = self@;
        let ghost keys = self.feed_keys.deep_view();
        match self.find_feed(key.as_str()) {
            Some(i) => {
                if self.feeds[i].channel_ids.len() == 0 {
                    let _ = self.feeds.remove(i);
                    let _ = self.feed_keys.remove(i);
                    proof {
                        assert(self@.feeds =~= s.feeds.remove(i as int));
                        assert(self.feed_keys.deep_view() =~= keys.remove(i as int));
                        assert(feed_keys(self@.feeds) =~= keys.remove(i as int));
                        assert(self@.channels =~= s.channels);
                        let k2 = keys.remove(i as int);
                        assert forall|a: int, b: int| 0 <= a < b < k2.len() implies k2[a]
                            != k2[b] by {
                            let a1 = if a < i {
                                a
                            } else {
                                a + 1
                            };
                            let b1 = if b < i {
                                b
                            } else {
                                b + 1
                            };
                            assert(keys[a1] != keys[b1]);
                        }
                    }
                    Ok(true)
                } else {
                    Ok(false)
                }
            },
            None => Ok(false),
        }
    }

    /// The feeds that are filed.
    pub fn feed_list(&self) -> (r: Result<Vec<SubscribeFeed>, DatabaseError>)
        requires
            self.wf(),
        ensures
            r matches Ok(v) && feed_views(v@) == self@.feeds,
    {
        let mut out: Vec<SubscribeFeed> = Vec::new();
        let mut i: usize = 0;
        while i < self.feeds.len()
            invariant
                i <= self.feeds.len(),
                out.len() == i,
                forall|k: int| 0 <= k < i ==> out[k]@ == self.feeds[k]@,
            decreases self.feeds.len() - i,
        {
            out.push(self.feeds[i].clone());
            i += 1;
        }
        proof {
            assert(feed_views(out@) =~= self@.feeds);
        }
        Ok(out)
    }

    /// The records of the channels that are known.
    pub fn channel_list(&self) -> (r: Vec<ChannelSubFeeds>)
        requires
            self.wf(),
        ensures
            channel_views(r@) == self@.channels,
    {
        let mut out: Vec<ChannelSubFeeds> = Vec::new();
        let mut i: usize = 0;
        while i < self.channels.len()
            invariant
                i <= self.channels.len(),
                out.len() == i,
                forall|k: int| 0 <= k < i ==> out[k]@ == self.channels[k]@,
            decreases self.channels.len() - i,
        {
            out.push(self.channels[i].clone());
            i += 1;
        }
        proof {
            assert(channel_views(out@) =~= self@.channels);
        }
        out
    }

    /// The feeds that `channel` is subscribed to, in the order in which it
    /// subscribed. A channel without a record has none.
    pub fn channel_feed_list(&self, channel: &str) -> (r: Result<
        Vec<SubscribeFeed>,
        DatabaseError,
    >)
        requires
            self.wf(),
        ensures
            r matches Ok(v) && feed_views(v@) == self@.channel_feeds(channel@),
    {
        let mut out: Vec<SubscribeFeed> = Vec::new();
        match self.find_channel(channel) {
            Some(j) => {
                let hashes = &self.channels[j].feed_hash;
                let ghost keys = self@.channels[j as int].feed_hash;
                let mut k: usize = 0;
                proof {
                    assert(keys =~= hashes.deep_view());
                    assert(feed_views(out@) =~= self@.feeds_of(keys.take(0)));
                }
                while k < hashes.len()
                    invariant
                        self.wf(),
                        k <= hashes.len(),
                        keys == hashes.deep_view(),
                        feed_views(out@) == self@.feeds_of(keys.take(k as int)),
                    decreases hashes.len() - k,
                {
                    let ghost before = feed_views(out@);
                    proof {
                        assert(keys.take(k + 1).drop_last() =~= keys.take(k as int));
                        assert(keys.take(k + 1).last() == hashes[k as int]@);
                    }
                    match self.find_feed(hashes[k].as_str()) {
                        Some(i) => {
                            out.push(self.feeds[i].clone());
                            proof {
                                assert(feed_views(out@) =~= before.push(self@.feeds[i as int]));
                            }
                        },
                        None => {},
                    }
                    k += 1;
                }
                proof {
                    assert(keys.take(keys.len() as int) =~= keys);
                }
            },
            None => {
                proof {
                    assert(feed_views(out@) =~= Seq::<FeedView>::empty());
                }
            },
        }
        Ok(out)
    }

    /// The records of the channels that are subscribed to the feed at
    /// `subscribe_url`, in the order in which they subscribed. A feed that
    /// is not filed has none.
    pub fn feed_channel_list(&self, subscribe_url: &str) -> (r: Result<
        Vec<ChannelSubFeeds>,
        DatabaseError,
    >)
        requires
            self.wf(),
        ensures
            r matches Ok(v) && channel_views(v@) == self@.feed_channels(subscribe_url@),
    {
        let key = hash(subscribe_url);
        let mut out: Vec<ChannelSubFeeds> = Vec::new();
        match self.find_feed(key.as_str()) {
            Some(i) => {
                let ids = &self.feeds[i].channel_ids;
                let ghost names = self@.feeds[i as int].channel_ids;
                let mut k: usize = 0;
                proof {
                    assert(names =~= ids.deep_view());
                    assert(channel_views(out@) =~= self@.channels_of(names.take(0)));
                }
                while k < ids.len()
                    invariant
                        self.wf(),
                        k <= ids.len(),
                        names == ids.deep_view(),
                        channel_views(out@) == self@.channels_of(names.take(k as int)),
                    decreases ids.len() - k,
                {
                    let ghost before = channel_views(out@);
                    proof {
                        assert(names.take(k + 1).drop_last() =~= names.take(k as int));
                        assert(names.take(k + 1).last() == ids[k as int]@);
                    }
                    match self.find_channel(ids[k].as_str()) {
                        Some(j) => {
                            out.push(self.channels[j].clone());
                            proof {
                                assert(channel_views(out@) =~= before.push(
                                    self@.channels[j as int],
                                ));
                            }
                        },
                        None => {},
                    }
                    k += 1;
                }
                proof {
                    assert(names.take(names.len() as int) =~= names);
                }
            },
            None => {
                proof {
                    assert(channel_views(out@) =~= Seq::<ChannelView>::empty());
                }
            },
        }
        Ok(out)
    }

    /// Sets the filter of `channel_id` for the feed at `subscribe_url` to
    /// `pattern`, which compiles; an empty pattern takes the filter away.
    /// Fails where the channel has no record or is not subscribed to the
    /// feed; the store is then as it was.
    pub fn update_channel_feed_regex(
        &mut self,
        channel_id: &str,
        subscribe_url: &str,
        pattern: &str,
    ) -> (r: Result<(), DatabaseError>)
        requires
            old(self).wf(),
            pattern@.len() == 0 || regex_compiles(pattern@),
        ensures
            final(self).wf(),
            match r {
                Ok(_) => old(self)@.subscribes(channel_id@, subscribe_url@) && final(self)@ == old(
                    self,
                )@.with_regex(channel_id@, subscribe_url@, pattern@),
                Err(DatabaseError::NotFoundChannel(c)) => old(self)@.channel_index(channel_id@)
                    < 0 && c@ == channel_id@ && final(self)@ == old(self)@,
                Err(DatabaseError::NotFoundFeed(u)) => old(self)@.channel_index(channel_id@) >= 0
                    && !old(self)@.subscribes(channel_id@, subscribe_url@) && u@ == subscribe_url@
                    && final(self)@ == old(self)@,
            },
    {
        let key = hash(subscribe_url);
        let j = match self.find_channel(channel_id) {
            Some(j) => j,
            None => {
                return Err(DatabaseError::NotFoundChannel(channel_id.to_owned()));
            },
        };
        if !crate::text::contains_str(&self.channels[j].feed_hash, key.as_str()) {
            return Err(DatabaseError::NotFoundFeed(subscribe_url.to_owned()));
        }
        let ghost s = self@;
        let mut c = self.channels.remove(j);
        let ghost pairs = c@.feed_regex;
        let at = c.regex_position(key.as_str());
        if pattern.unicode_len() == 0 {
            match at {
                Some(i) => {
                    let _ = c.feed_regex.remove(i);
                    proof {
                        assert(c@.feed_regex =~= pairs.remove(i as int));
                    }
                },
                None => {},
            }
        } else {
            match at {
                Some(i) => {
                    let _ = c.feed_regex.remove(i);
                    c.feed_regex.insert(i, (key, pattern.to_owned()));
                    proof {
                        assert(c@.feed_regex =~= pairs.update(i as int, (key@, pattern@)));
                    }
                },
                None => {
                    c.feed_regex.push((key, pattern.to_owned()));
                    proof {
                        assert(c@.feed_regex =~= pairs.push((key@, pattern@)));
                    }
                },
            }
        }
        let ghost g = c@;
        self.channels.insert(j, c);
        proof {
            assert(self@.channels =~= s.channels.update(j as int, g));
            assert(channel_names(self@.channels) =~= channel_names(s.channels));
            assert(self@.feeds =~= s.feeds);
        }
        Ok(())
    }
}

} // verus!
