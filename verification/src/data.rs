//! The records of the subscription store: a feed's snapshot and a
//! channel's subscriptions.
use crate::fetch::feed::Feed;
use crate::fetch::item::FeedPost;
use crate::text::{clone_strings, contains_str};
use crate::utils::{fingerprint, hash};
use vstd::prelude::*;

verus! {

/// How many posts of a fetch a snapshot remembers.
pub const POSTS_HASH_MAX: usize = 16;

/// The snapshot of a subscribed feed.
#[derive(Debug, Default)]
pub struct SubscribeFeed {
    /// The address the feed is pulled from; what names the feed.
    pub subscribe_url: String,
    pub link: String,
    pub title: String,
    /// Seconds since the epoch of the last pull that gave a feed.
    pub down_time: u64,
    /// Minutes between two refreshes, where the feed asks for an interval.
    pub ttl: Option<u32>,
    /// The fingerprints of the first posts of the last fetch, in the
    /// feed's order.
    pub posts_hash: Vec<String>,
    /// The channels that are subscribed to the feed.
    pub channel_ids: Vec<String>,
}

/// A feed's snapshot, for contracts.
pub struct FeedView {
    pub subscribe_url: Seq<char>,
    pub link: Seq<char>,
    pub title: Seq<char>,
    pub down_time: u64,
    pub ttl: Option<u32>,
    pub posts_hash: Seq<Seq<char>>,
    pub channel_ids: Seq<Seq<char>>,
}

impl View for SubscribeFeed {
    type V = FeedView;

    open spec fn view(&self) -> FeedView {
        FeedView {
            subscribe_url: self.subscribe_url@,
            link: self.link@,
            title: self.title@,
            down_time: self.down_time,
            ttl: self.ttl,
            posts_hash: self.posts_hash.deep_view(),
            channel_ids: self.channel_ids.deep_view(),
        }
    }
}

impl FeedView {
    /// The fingerprint of the feed's address: what the store files the
    /// feed under.
    pub open spec fn key(self) -> Seq<char> {
        fingerprint(self.subscribe_url)
    }
}

impl Clone for SubscribeFeed {
    fn clone(&self) -> (r: Self)
        ensures
            r@ == self@,
    {
        SubscribeFeed {
            subscribe_url: self.subscribe_url.clone(),
            link: self.link.clone(),
            title: self.title.clone(),
            down_time: self.down_time,
            ttl: self.ttl,
            posts_hash: clone_strings(&self.posts_hash),
            channel_ids: clone_strings(&self.channel_ids),
        }
    }
}

/// The fingerprints of the first posts of a fetch: of each the fingerprint
/// of its link, of the empty text where it has none.
pub open spec fn post_fingerprints(posts: Seq<FeedPost>) -> Seq<Seq<char>> {
    Seq::new(
        if posts.len() < POSTS_HASH_MAX {
            posts.len()
        } else {
            POSTS_HASH_MAX as nat
        },
        |i: int| fingerprint(posts[i].link_text()),
    )
}

fn posts_hash_of(posts: &Vec<FeedPost>) -> (r: Vec<String>)
    ensures
        r.deep_view() == post_fingerprints(posts@),
{
    let n = if posts.len() < POSTS_HASH_MAX {
        posts.len()
    } else {
        POSTS_HASH_MAX
    };
    let mut r: Vec<String> = Vec::new();
    let mut i: usize = 0;
    while i < n
        invariant
            i <= n <= posts.len(),
            r.len() == i,
            forall|j: int| 0 <= j < i ==> r[j]@ == fingerprint(posts[j].link_text()),
        decreases n - i,
    {
        let h = match &posts[i].link {
            Some(l) => hash(l.as_str()),
            None => {
                let e = String::new();
                hash(e.as_str())
            },
        };
        r.push(h);
        i += 1;
    }
    proof {
        assert(r.deep_view() =~= post_fingerprints(posts@));
    }
    r
}

/// The places of `new` whose text `old` does not hold, among the first `n`
/// places, in ascending order.
pub open spec fn diff_upto(new: Seq<Seq<char>>, old: Seq<Seq<char>>, n: nat) -> Seq<usize>
    decreases n,
{
    if n == 0 {
        Seq::empty()
    } else if old.contains(new[n - 1]) {
        diff_upto(new, old, (n - 1) as nat)
    } else {
        diff_upto(new, old, (n - 1) as nat).push((n - 1) as usize)
    }
}

/// Diff soundness. `diff_upto` over all of `new` holds exactly the places
/// of `new` whose text `old` does not hold, each once, in ascending order.
pub proof fn lemma_diff_upto(new: Seq<Seq<char>>, old: Seq<Seq<char>>, n: nat)
    requires
        n <= new.len(),
        n <= usize::MAX,
    ensures
        forall|k: int|
            0 <= k < diff_upto(new, old, n).len() ==> {
                let i = #[trigger] diff_upto(new, old, n)[k];
                i < n && !old.contains(new[i as int])
            },
        forall|k: int, l: int|
            0 <= k < l < diff_upto(new, old, n).len() ==> diff_upto(new, old, n)[k] < diff_upto(
                new,
                old,
                n,
            )[l],
        forall|i: int|
            0 <= i < n && !old.contains(#[trigger] new[i]) ==> diff_upto(new, old, n).contains(
                i as usize,
            ),
    decreases n,
{
    if n > 0 {
        let m = (n - 1) as nat;
        lemma_diff_upto(new, old, m);
        let d = diff_upto(new, old, m);
        let e = diff_upto(new, old, n);
        if !old.contains(new[n - 1]) {
            assert(e == d.push(m as usize));
            assert forall|k: int, l: int| 0 <= k < l < e.len() implies e[k] < e[l] by {
                if l == d.len() {
                    assert(e[k] == d[k]);
                } else {
                    assert(e[k] == d[k] && e[l] == d[l]);
                }
            }
            assert forall|i: int| 0 <= i < n && !old.contains(#[trigger] new[i]) implies e.contains(
                i as usize,
            ) by {
                if i < m {
                    let k = choose|k: int| 0 <= k < d.len() && d[k] == i as usize;
                    assert(e[k] == i as usize);
                } else {
                    assert(e[d.len() as int] == i as usize);
                }
            }
        }
    }
}

impl SubscribeFeed {
    /// The snapshot of the feed `rss` that was pulled from `url` at `now`
    /// (seconds since the epoch): no channel is subscribed yet.
    pub fn from(url: &str, rss: &Feed, now: u64) -> (r: Self)
        ensures
            r@ == (FeedView {
                subscribe_url: url@,
                link: rss.link@,
                title: rss.title@,
                down_time: now,
                ttl: rss.ttl,
                posts_hash: post_fingerprints(rss.posts@),
                channel_ids: Seq::empty(),
            }),
    {
        let r = SubscribeFeed {
            subscribe_url: url.to_owned(),
            title: rss.title.clone(),
            link: rss.link.clone(),
            down_time: now,
            ttl: rss.ttl,
            posts_hash: posts_hash_of(&rss.posts),
            channel_ids: Vec::new(),
        };
        proof {
            assert(r.channel_ids.deep_view() =~= Seq::<Seq<char>>::empty());
        }
        r
    }

    /// The snapshot that takes the place of `old` once `rss` was pulled at
    /// `now`: the address and the subscribed channels stay, all else is
    /// that of the new fetch.
    pub fn from_old(old: &Self, rss: &Feed, now: u64) -> (r: Self)
        ensures
            r@ == (FeedView {
                subscribe_url: old@.subscribe_url,
                link: rss.link@,
                title: rss.title@,
                down_time: now,
                ttl: rss.ttl,
                posts_hash: post_fingerprints(rss.posts@),
                channel_ids: old@.channel_ids,
            }),
    {
        SubscribeFeed {
            subscribe_url: old.subscribe_url.clone(),
            title: rss.title.clone(),
            link: rss.link.clone(),
            down_time: now,
            ttl: rss.ttl,
            posts_hash: posts_hash_of(&rss.posts),
            channel_ids: clone_strings(&old.channel_ids),
        }
    }

    /// The places of this snapshot's posts that `feed` does not know: the
    /// places whose fingerprint is none of `feed`'s, in ascending order.
    pub fn diff_post_index(&self, feed: &SubscribeFeed) -> (r: Vec<usize>)
        ensures
            r@ == diff_upto(self@.posts_hash, feed@.posts_hash, self@.posts_hash.len()),
    {
        let mut r: Vec<usize> = Vec::new();
        let mut i: usize = 0;
        while i < self.posts_hash.len()
            invariant
                i <= self.posts_hash.len(),
                r@ == diff_upto(self@.posts_hash, feed@.posts_hash, i as nat),
            decreases self.posts_hash.len() - i,
        {
            if !contains_str(&feed.posts_hash, self.posts_hash[i].as_str()) {
                r.push(i);
            }
            i += 1;
        }
        r
    }
}

/// The subscriptions of one channel.
#[derive(Debug, Default)]
pub struct ChannelSubFeeds {
    pub id: String,
    /// The fingerprints of the feeds the channel is subscribed to.
    pub feed_hash: Vec<String>,
    /// Title filters: pairs of a feed's fingerprint and a pattern. No
    /// fingerprint stands in two pairs.
    pub feed_regex: Vec<(String, String)>,
}

/// A channel's subscriptions, for contracts.
pub struct ChannelView {
    pub id: Seq<char>,
    pub feed_hash: Seq<Seq<char>>,
    pub feed_regex: Seq<(Seq<char>, Seq<char>)>,
}

/// What pairs of strings read.
pub open spec fn pairs_view(v: Seq<(String, String)>) -> Seq<(Seq<char>, Seq<char>)> {
    Seq::new(v.len(), |i: int| (v[i].0@, v[i].1@))
}

impl View for ChannelSubFeeds {
    type V = ChannelView;

    open spec fn view(&self) -> ChannelView {
        ChannelView {
            id: self.id@,
            feed_hash: self.feed_hash.deep_view(),
            feed_regex: pairs_view(self.feed_regex@),
        }
    }
}

impl Clone for ChannelSubFeeds {
    fn clone(&self) -> (r: Self)
        ensures
            r@ == self@,
    {
        let mut feed_regex: Vec<(String, String)> = Vec::new();
        let mut i: usize = 0;
        while i < self.feed_regex.len()
            invariant
                i <= self.feed_regex.len(),
                feed_regex.len() == i,
                forall|j: int|
                    0 <= j < i ==> feed_regex[j].0@ == self.feed_regex[j].0@ && feed_regex[j].1@
                        == self.feed_regex[j].1@,
            decreases self.feed_regex.len() - i,
        {
            feed_regex.push((self.feed_regex[i].0.clone(), self.feed_regex[i].1.clone()));
            i += 1;
        }
        proof {
            assert(pairs_view(feed_regex@) =~= pairs_view(self.feed_regex@));
        }
        ChannelSubFeeds {
            id: self.id.clone(),
            feed_hash: clone_strings(&self.feed_hash),
            feed_regex,
        }
    }
}

/// The place of the pair whose first part is `key`; -1 where there is none.
pub open spec fn pair_index(pairs: Seq<(Seq<char>, Seq<char>)>, key: Seq<char>) -> int
    decreases pairs.len(),
{
    if pairs.len() == 0 {
        -1
    } else if pairs[0].0 == key {
        0
    } else if pair_index(pairs.drop_first(), key) < 0 {
        -1
    } else {
        pair_index(pairs.drop_first(), key) + 1
    }
}

impl ChannelView {
    /// The pattern that filters the titles of the feed with fingerprint
    /// `feed_hash` in this channel, where one is set.
    pub open spec fn regex_for(self, feed_hash: Seq<char>) -> Option<Seq<char>> {
        if pair_index(self.feed_regex, feed_hash) < 0 {
            None
        } else {
            Some(self.feed_regex[pair_index(self.feed_regex, feed_hash)].1)
        }
    }
}

impl ChannelSubFeeds {
    /// The record of a channel that is subscribed to nothing.
    pub fn from_id(id: String) -> (r: Self)
        ensures
            r@ == (ChannelView { id: id@, feed_hash: Seq::empty(), feed_regex: Seq::empty() }),
    {
        let r = ChannelSubFeeds { id, feed_hash: Vec::new(), feed_regex: Vec::new() };
        proof {
            assert(r.feed_hash.deep_view() =~= Seq::<Seq<char>>::empty());
            assert(pairs_view(r.feed_regex@) =~= Seq::<(Seq<char>, Seq<char>)>::empty());
        }
        r
    }

    /// The place of the filter of the feed with fingerprint `feed_hash`.
    pub fn regex_position(&self, feed_hash: &str) -> (r: Option<usize>)
        ensures
            match r {
                Some(i) => i == pair_index(self@.feed_regex, feed_hash@),
                None => pair_index(self@.feed_regex, feed_hash@) == -1,
            },
            r matches Some(i) ==> i < self.feed_regex.len(),
    {
        let ghost s = self@.feed_regex;
        let mut i: usize = 0;
        proof {
            assert(s.skip(0) =~= s);
        }
        while i < self.feed_regex.len()
            invariant
                i <= self.feed_regex.len(),
                s == self@.feed_regex,
                pair_index(s.skip(i as int), feed_hash@) < 0 ==> pair_index(s, feed_hash@) == -1,
                pair_index(s.skip(i as int), feed_hash@) >= 0 ==> pair_index(s, feed_hash@) == i
                    + pair_index(s.skip(i as int), feed_hash@),
            decreases self.feed_regex.len() - i,
        {
            proof {
                assert(s.skip(i as int)[0] == s[i as int]);
                assert(s.skip(i as int).drop_first() =~= s.skip(i + 1));
            }
            if crate::text::str_eq(self.feed_regex[i].0.as_str(), feed_hash) {
                return Some(i);
            }
            i += 1;
        }
        None
    }

    /// The pattern that filters the titles of the feed with fingerprint
    /// `feed_hash` in this channel, where one is set.
    pub fn regex_for(&self, feed_hash: &str) -> (r: Option<String>)
        ensures
            crate::network_runtime::opt_text(r) == self@.regex_for(feed_hash@),
    {
        match self.regex_position(feed_hash) {
            Some(i) => Some(self.feed_regex[i].1.clone()),
            None => None,
        }
    }
}

} // verus!
