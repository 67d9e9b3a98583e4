//! What holds of the subscription store whatever is done to it.
use crate::data::{ChannelView, FeedView};
use crate::db::{channel_names, feed_keys, StoreView};
use crate::text::{
    add_unique, index_of, lemma_add_unique, lemma_add_unique_holds, lemma_index_of,
    lemma_remove_first,
};
use crate::utils::fingerprint;
use vstd::prelude::*;

verus! {

impl StoreView {
    /// The two sides of every subscription agree: a feed names a channel
    /// exactly where the channel's record names the feed. No list holds a
    /// name twice, every channel that a feed names has a record, and every
    /// feed that a record names is filed.
    pub open spec fn consistent(self) -> bool {
        &&& forall|a: int|
            0 <= a < self.feeds.len() ==> (#[trigger] self.feeds[a]).channel_ids.no_duplicates()
        &&& forall|b: int|
            0 <= b < self.channels.len() ==> (#[trigger] self.channels[b]).feed_hash.no_duplicates()
        &&& forall|a: int, b: int|
            0 <= a < self.feeds.len() && 0 <= b < self.channels.len() ==> ((
            #[trigger] self.feeds[a]).channel_ids.contains((#[trigger] self.channels[b]).id)
                <==> self.channels[b].feed_hash.contains(self.feeds[a].key()))
        &&& forall|a: int, x: Seq<char>|
            0 <= a < self.feeds.len() && #[trigger] self.feeds[a].channel_ids.contains(x)
                ==> channel_names(self.channels).contains(x)
        &&& forall|b: int, h: Seq<char>|
            0 <= b < self.channels.len() && #[trigger] self.channels[b].feed_hash.contains(h)
                ==> feed_keys(self.feeds).contains(h)
    }
}

/// What a subscription leaves behind: the feed is filed and names the
/// channel, the channel has a record that names the feed, the other feeds
/// and records are as they were, and the store is well formed.
pub proof fn lemma_subscribed(s: StoreView, c: Seq<char>, f: FeedView)
    requires
        s.wf(),
    ensures
        ({
            let t = s.subscribed(c, f);
            let i = t.feed_index(f.key());
            let j = t.channel_index(c);
            let fresh_feed = s.feed_index(f.key()) < 0;
            let fresh_channel = s.channel_index(c) < 0;
            &&& t.wf()
            &&& 0 <= i < t.feeds.len()
            &&& 0 <= j < t.channels.len()
            &&& t.feeds.len() == s.feeds.len() + (if fresh_feed {
                1int
            } else {
                0int
            })
            &&& t.channels.len() == s.channels.len() + (if fresh_channel {
                1int
            } else {
                0int
            })
            &&& fresh_feed ==> i == s.feeds.len()
            &&& fresh_channel ==> j == s.channels.len()
            &&& t.feeds[i].key() == f.key()
            &&& t.channels[j].id == c
            &&& t.feeds[i].channel_ids == add_unique(
                if fresh_feed {
                    f.channel_ids
                } else {
                    s.feeds[i].channel_ids
                },
                c,
            )
            &&& t.channels[j].feed_hash == add_unique(
                if fresh_channel {
                    Seq::empty()
                } else {
                    s.channels[j].feed_hash
                },
                f.key(),
            )
            &&& forall|a: int| 0 <= a < s.feeds.len() && a != i ==> t.feeds[a] == s.feeds[a]
            &&& forall|b: int|
                0 <= b < s.channels.len() && b != j ==> t.channels[b] == s.channels[b]
            &&& forall|a: int| 0 <= a < s.feeds.len() ==> (#[trigger] t.feeds[a]).key() == s.feeds[a].key()
            &&& forall|b: int|
                0 <= b < s.channels.len() ==> (#[trigger] t.channels[b]).id == s.channels[b].id
            &&& !fresh_feed ==> t.feeds[i] == (FeedView {
                channel_ids: add_unique(s.feeds[i].channel_ids, c),
                ..s.feeds[i]
            })
            &&& !fresh_channel ==> t.channels[j] == (ChannelView {
                feed_hash: add_unique(s.channels[j].feed_hash, f.key()),
                ..s.channels[j]
            })
        }),
{
    let k = f.key();
    let keys = feed_keys(s.feeds);
    let names = channel_names(s.channels);
    lemma_index_of(keys, k);
    lemma_index_of(names, c);
    let fs2 = if s.feed_index(k) < 0 {
        s.feeds.push(f)
    } else {
        s.feeds
    };
    let newc = ChannelView { id: c, feed_hash: Seq::empty(), feed_regex: Seq::empty() };
    let cs2 = if s.channel_index(c) < 0 {
        s.channels.push(newc)
    } else {
        s.channels
    };
    let keys2 = feed_keys(fs2);
    let names2 = channel_names(cs2);
    if s.feed_index(k) < 0 {
        assert(keys2 =~= keys.push(k));
        assert(keys2[keys.len() as int] == k);
    }
    if s.channel_index(c) < 0 {
        assert(names2 =~= names.push(c));
        assert(names2[names.len() as int] == c);
    }
    lemma_index_of(keys2, k);
    lemma_index_of(names2, c);
    let i = index_of(keys2, k);
    let j = index_of(names2, c);
    assert(keys2.no_duplicates()) by {
        assert forall|a: int, b: int| 0 <= a < b < keys2.len() implies keys2[a] != keys2[b] by {
            if b < keys.len() {
                assert(keys[a] != keys[b]);
            } else {
                assert(keys[a] != k);
            }
        }
    }
    assert(names2.no_duplicates()) by {
        assert forall|a: int, b: int| 0 <= a < b < names2.len() implies names2[a]
            != names2[b] by {
            if b < names.len() {
                assert(names[a] != names[b]);
            } else {
                assert(names[a] != c);
            }
        }
    }
    let t = s.subscribed(c, f);
    assert(t.feeds == fs2.update(
        i,
        FeedView { channel_ids: add_unique(fs2[i].channel_ids, c), ..fs2[i] },
    ));
    assert(t.channels == cs2.update(
        j,
        ChannelView { feed_hash: add_unique(cs2[j].feed_hash, k), ..cs2[j] },
    ));
    assert(feed_keys(t.feeds) =~= keys2);
    assert(channel_names(t.channels) =~= names2);
    assert(keys2[i] == k);
    assert(names2[j] == c);
}

/// Idempotent subscribe. To subscribe a channel to a feed a second time
/// leaves the store as the first time left it; so does any number of times.
pub proof fn lemma_subscribe_idempotent(s: StoreView, c: Seq<char>, f: FeedView)
    requires
        s.wf(),
    ensures
        s.subscribed(c, f).subscribed(c, f) == s.subscribed(c, f),
{
    lemma_subscribed(s, c, f);
    let t = s.subscribed(c, f);
    let i = t.feed_index(f.key());
    let j = t.channel_index(c);
    let u = t.subscribed(c, f);
    lemma_add_unique_holds(
        if s.feed_index(f.key()) < 0 {
            f.channel_ids
        } else {
            s.feeds[i].channel_ids
        },
        c,
    );
    lemma_add_unique_holds(
        if s.channel_index(c) < 0 {
            Seq::empty()
        } else {
            s.channels[j].feed_hash
        },
        f.key(),
    );
    assert(add_unique(t.feeds[i].channel_ids, c) == t.feeds[i].channel_ids);
    assert(add_unique(t.channels[j].feed_hash, f.key()) == t.channels[j].feed_hash);
    assert(u.feeds =~= t.feeds);
    assert(u.channels =~= t.channels);
}

/// Subscribing `n` times is subscribing once.
pub open spec fn subscribed_times(s: StoreView, c: Seq<char>, f: FeedView, n: nat) -> StoreView
    decreases n,
{
    if n == 0 {
        s
    } else {
        subscribed_times(s, c, f, (n - 1) as nat).subscribed(c, f)
    }
}

/// Idempotent subscribe, for any number of times.
pub proof fn lemma_subscribe_times(s: StoreView, c: Seq<char>, f: FeedView, n: nat)
    requires
        s.wf(),
        n >= 1,
    ensures
        subscribed_times(s, c, f, n) == s.subscribed(c, f),
    decreases n,
{
    if n > 1 {
        lemma_subscribe_times(s, c, f, (n - 1) as nat);
        lemma_subscribe_idempotent(s, c, f);
    } else {
        assert(subscribed_times(s, c, f, 0) == s);
    }
}

/// Bidirectional consistency, the subscribing half. A store whose two
/// sides agree stays so when a channel subscribes to a feed that is filed
/// already, or to a new feed that names no channel yet.
pub proof fn lemma_subscribe_consistent(s: StoreView, c: Seq<char>, f: FeedView)
    requires
        s.wf(),
        s.consistent(),
        s.feed_index(f.key()) < 0 ==> f.channel_ids.len() == 0,
    ensures
        s.subscribed(c, f).wf(),
        s.subscribed(c, f).consistent(),
{
    lemma_subscribed(s, c, f);
    let t = s.subscribed(c, f);
    let k = f.key();
    let i = t.feed_index(k);
    let j = t.channel_index(c);
    let fresh_feed = s.feed_index(k) < 0;
    let fresh_channel = s.channel_index(c) < 0;
    let keys = feed_keys(s.feeds);
    let names = channel_names(s.channels);
    let tkeys = feed_keys(t.feeds);
    let tnames = channel_names(t.channels);
    lemma_index_of(keys, k);
    lemma_index_of(names, c);
    lemma_index_of(tkeys, k);
    lemma_index_of(tnames, c);
    let old_ids = if fresh_feed {
        f.channel_ids
    } else {
        s.feeds[i].channel_ids
    };
    let old_hashes = if fresh_channel {
        Seq::<Seq<char>>::empty()
    } else {
        s.channels[j].feed_hash
    };
    assert(old_ids.no_duplicates());
    assert(old_hashes.no_duplicates());
    lemma_add_unique(old_ids, c);
    lemma_add_unique(old_hashes, k);
    // Every name and key of before is one of after.
    assert forall|x: Seq<char>| names.contains(x) implies tnames.contains(x) by {
        let b = choose|b: int| 0 <= b < names.len() && names[b] == x;
        assert(tnames[b] == t.channels[b].id);
        assert(tnames[b] == x);
    }
    assert forall|h: Seq<char>| keys.contains(h) implies tkeys.contains(h) by {
        let a = choose|a: int| 0 <= a < keys.len() && keys[a] == h;
        assert(tkeys[a] == t.feeds[a].key());
        assert(tkeys[a] == h);
    }
    assert(tnames[j] == c);
    assert(tkeys[i] == k);
    assert forall|a: int| 0 <= a < t.feeds.len() implies (
    #[trigger] t.feeds[a]).channel_ids.no_duplicates() by {
        if a != i {
            assert(t.feeds[a] == s.feeds[a]);
        }
    }
    assert forall|b: int| 0 <= b < t.channels.len() implies (
    #[trigger] t.channels[b]).feed_hash.no_duplicates() by {
        if b != j {
            assert(t.channels[b] == s.channels[b]);
        }
    }
    assert forall|a: int, x: Seq<char>|
        0 <= a < t.feeds.len() && #[trigger] t.feeds[a].channel_ids.contains(
            x,
        ) implies tnames.contains(x) by {
        if a != i {
            assert(t.feeds[a] == s.feeds[a]);
            assert(s.feeds[a].channel_ids.contains(x));
        } else if x != c {
            assert(old_ids.contains(x));
            if !fresh_feed {
                assert(s.feeds[i].channel_ids.contains(x));
            } else {
                let w = choose|w: int| 0 <= w < old_ids.len() && old_ids[w] == x;
            }
        }
    }
    assert forall|b: int, h: Seq<char>|
        0 <= b < t.channels.len() && #[trigger] t.channels[b].feed_hash.contains(
            h,
        ) implies tkeys.contains(h) by {
        if b != j {
            assert(t.channels[b] == s.channels[b]);
            assert(s.channels[b].feed_hash.contains(h));
        } else if h != k {
            assert(old_hashes.contains(h));
            if !fresh_channel {
                assert(s.channels[j].feed_hash.contains(h));
            } else {
                let w = choose|w: int| 0 <= w < old_hashes.len() && old_hashes[w] == h;
            }
        }
    }
    assert forall|a: int, b: int|
        0 <= a < t.feeds.len() && 0 <= b < t.channels.len() implies ((
        #[trigger] t.feeds[a]).channel_ids.contains((#[trigger] t.channels[b]).id)
            <==> t.channels[b].feed_hash.contains(t.feeds[a].key())) by {
        let id = t.channels[b].id;
        let key = t.feeds[a].key();
        assert(tnames[b] == id);
        assert(tkeys[a] == key);
        if a == i && b == j {
        } else if a == i {
            // Another channel: its name is not `c`, its record is as it was.
            assert(id != c) by {
                assert(tnames[j] != tnames[b]);
            }
            assert(t.channels[b] == s.channels[b]);
            assert(t.feeds[i].channel_ids.contains(id) == old_ids.contains(id));
            if fresh_feed {
                assert(!old_ids.contains(id)) by {
                    if old_ids.contains(id) {
                        let w = choose|w: int| 0 <= w < old_ids.len() && old_ids[w] == id;
                    }
                }
                if s.channels[b].feed_hash.contains(k) {
                    assert(keys.contains(k));
                }
            } else {
                assert(s.feeds[i].channel_ids.contains(s.channels[b].id)
                    <==> s.channels[b].feed_hash.contains(s.feeds[i].key()));
            }
        } else if b == j {
            // Another feed: its key is not `k`, it is as it was.
            assert(key != k) by {
                assert(tkeys[i] != tkeys[a]);
            }
            assert(t.feeds[a] == s.feeds[a]);
            assert(t.channels[j].feed_hash.contains(key) == old_hashes.contains(key));
            if fresh_channel {
                assert(!old_hashes.contains(key)) by {
                    if old_hashes.contains(key) {
                        let w = choose|w: int| 0 <= w < old_hashes.len() && old_hashes[w] == key;
                    }
                }
                if s.feeds[a].channel_ids.contains(c) {
                    assert(names.contains(c));
                }
            } else {
                assert(s.feeds[a].channel_ids.contains(s.channels[j].id)
                    <==> s.channels[j].feed_hash.contains(s.feeds[a].key()));
            }
        } else {
            assert(t.feeds[a] == s.feeds[a]);
            assert(t.channels[b] == s.channels[b]);
        }
    }
}

/// Bidirectional consistency, the unsubscribing half. A store whose two
/// sides agree stays so when a channel leaves a feed.
pub proof fn lemma_unsubscribe_consistent(s: StoreView, c: Seq<char>, url: Seq<char>)
    requires
        s.wf(),
        s.consistent(),
    ensures
        s.unsubscribed(c, url).wf(),
        s.unsubscribed(c, url).consistent(),
{
    let t = s.unsubscribed(c, url);
    let k = fingerprint(url);
    let i = s.feed_index(k);
    let j = s.channel_index(c);
    let keys = feed_keys(s.feeds);
    let names = channel_names(s.channels);
    lemma_index_of(keys, k);
    lemma_index_of(names, c);
    assert(feed_keys(t.feeds) =~= keys);
    assert(channel_names(t.channels) =~= names);
    if i >= 0 {
        lemma_remove_first(s.feeds[i].channel_ids, c);
        assert(keys[i] == k);
    }
    if j >= 0 {
        lemma_remove_first(s.channels[j].feed_hash, k);
        assert(names[j] == c);
    }
    assert forall|a: int| 0 <= a < t.feeds.len() implies (
    #[trigger] t.feeds[a]).channel_ids.no_duplicates() by {
        if a != i {
            assert(t.feeds[a] == s.feeds[a]);
        }
    }
    assert forall|b: int| 0 <= b < t.channels.len() implies (
    #[trigger] t.channels[b]).feed_hash.no_duplicates() by {
        if b != j {
            assert(t.channels[b] == s.channels[b]);
        }
    }
    assert forall|a: int, x: Seq<char>|
        0 <= a < t.feeds.len() && #[trigger] t.feeds[a].channel_ids.contains(
            x,
        ) implies names.contains(x) by {
        if a != i {
            assert(t.feeds[a] == s.feeds[a]);
        }
        assert(s.feeds[a].channel_ids.contains(x));
    }
    assert forall|b: int, h: Seq<char>|
        0 <= b < t.channels.len() && #[trigger] t.channels[b].feed_hash.contains(
            h,
        ) implies keys.contains(h) by {
        if b != j {
            assert(t.channels[b] == s.channels[b]);
        }
        assert(s.channels[b].feed_hash.contains(h));
    }
    assert forall|a: int, b: int|
        0 <= a < t.feeds.len() && 0 <= b < t.channels.len() implies ((
        #[trigger] t.feeds[a]).channel_ids.contains((#[trigger] t.channels[b]).id)
            <==> t.channels[b].feed_hash.contains(t.feeds[a].key())) by {
        let id = s.channels[b].id;
        let key = s.feeds[a].key();
        assert(names[b] == id);
        assert(keys[a] == key);
        assert(t.channels[b].id == id);
        assert(t.feeds[a].key() == key);
        assert(s.feeds[a].channel_ids.contains(id) <==> s.channels[b].feed_hash.contains(key));
        // Whether the pair is the one that is taken apart.
        if a == i {
            assert(key == k);
        } else {
            assert(t.feeds[a] == s.feeds[a]);
            if i >= 0 {
                assert(keys[a] != keys[i]);
            }
            assert(key != k) by {
                if key == k {
                    assert(keys.contains(k));
                }
            }
        }
        if b == j {
            assert(id == c);
        } else {
            assert(t.channels[b] == s.channels[b]);
            if j >= 0 {
                assert(names[b] != names[j]);
            }
            assert(id != c) by {
                if id == c {
                    assert(names.contains(c));
                }
            }
        }
        if a == i && b != j {
            // The feed loses `c`, which is not this channel.
            assert(t.feeds[a].channel_ids.contains(id) == s.feeds[a].channel_ids.contains(id));
        }
        if a != i && b == j {
            assert(t.channels[b].feed_hash.contains(key) == s.channels[b].feed_hash.contains(
                key,
            ));
        }
        if a == i && b == j {
            assert(!t.feeds[a].channel_ids.contains(c));
            assert(!t.channels[b].feed_hash.contains(k));
        }
    }
}

/// One change of the subscriptions.
pub enum StoreOp {
    /// The channel subscribes to the feed.
    Subscribe(Seq<char>, FeedView),
    /// The channel leaves the feed at the address.
    Unsubscribe(Seq<char>, Seq<char>),
}

impl StoreView {
    /// The store once `op` was done.
    pub open spec fn after(self, op: StoreOp) -> Self {
        match op {
            StoreOp::Subscribe(channel, feed) => self.subscribed(channel, feed),
            StoreOp::Unsubscribe(channel, url) => self.unsubscribed(channel, url),
        }
    }

    /// The store once `ops` were done, one after the other.
    pub open spec fn after_all(self, ops: Seq<StoreOp>) -> Self
        decreases ops.len(),
    {
        if ops.len() == 0 {
            self
        } else {
            self.after_all(ops.drop_last()).after(ops.last())
        }
    }
}

/// The empty store is well formed, and its two sides agree.
pub proof fn lemma_empty_consistent()
    ensures
        (StoreView { feeds: Seq::empty(), channels: Seq::empty() }).wf(),
        (StoreView { feeds: Seq::empty(), channels: Seq::empty() }).consistent(),
{
}

/// Bidirectional consistency. Whatever channels subscribe to and leave
/// whatever feeds, in whatever order, the two sides of a store that agreed
/// before agree after: a feed names a channel exactly where the channel's
/// record names the feed. The snapshots that are subscribed to name no
/// channel themselves, as a snapshot made from a fetch does.
pub proof fn lemma_consistent_after_all(s: StoreView, ops: Seq<StoreOp>)
    requires
        s.wf(),
        s.consistent(),
        forall|i: int|
            0 <= i < ops.len() ==> (#[trigger] ops[i] matches StoreOp::Subscribe(_, feed)
                ==> feed.channel_ids.len() == 0),
    ensures
        s.after_all(ops).wf(),
        s.after_all(ops).consistent(),
    decreases ops.len(),
{
    if ops.len() > 0 {
        let before = ops.drop_last();
        assert forall|i: int| 0 <= i < before.len() implies (#[trigger] before[i] matches StoreOp::Subscribe(
            _,
            feed,
        ) ==> feed.channel_ids.len() == 0) by {
            assert(before[i] == ops[i]);
        }
        lemma_consistent_after_all(s, before);
        let t = s.after_all(before);
        match ops.last() {
            StoreOp::Subscribe(channel, feed) => {
                assert(ops[ops.len() - 1] == ops.last());
                lemma_subscribe_consistent(t, channel, feed);
            },
            StoreOp::Unsubscribe(channel, url) => {
                lemma_unsubscribe_consistent(t, channel, url);
            },
        }
    }
}

} // verus!
