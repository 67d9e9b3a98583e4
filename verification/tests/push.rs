use ksbot::data::{ChannelSubFeeds, SubscribeFeed, POSTS_HASH_MAX};
use ksbot::db::Database;
use ksbot::fetch::{Feed, FeedPost};
use ksbot::filter::{check_pattern, title_filtered};
use ksbot::push::{is_expired, is_filter_post, push_info, push_plan, push_post, push_update};
use ksbot::utils::hash;
use ksbot::ws::KookEventMessage;

fn post(title: &str, link: &str) -> FeedPost {
    FeedPost { title: Some(title.to_owned()), link: Some(link.to_owned()), ..Default::default() }
}

fn rss(posts: Vec<FeedPost>) -> Feed {
    Feed {
        title: "feed".to_owned(),
        link: "http://site".to_owned(),
        ttl: Some(5),
        posts,
        ..Default::default()
    }
}

fn message(target: Option<&str>, id: Option<&str>) -> KookEventMessage {
    KookEventMessage {
        id: None,
        channel_name: None,
        channel_type: None,
        content: None,
        nonce: None,
        typ: None,
        msg_timestamp: None,
        target_id: target.map(|s| s.to_owned()),
        author_id: None,
        msg_id: id.map(|s| s.to_owned()),
        banner: None,
        bot: None,
        nickname: None,
        online: None,
    }
}

#[test]
fn a_snapshot_remembers_the_first_posts() {
    let posts: Vec<FeedPost> =
        (0..20).map(|i| post(&format!("t{}", i), &format!("http://site/{}", i))).collect();
    let feed = SubscribeFeed::from("http://site/rss", &rss(posts), 1700000000);
    assert_eq!(feed.subscribe_url, "http://site/rss");
    assert_eq!(feed.title, "feed");
    assert_eq!(feed.link, "http://site");
    assert_eq!(feed.down_time, 1700000000);
    assert_eq!(feed.ttl, Some(5));
    assert!(feed.channel_ids.is_empty());
    assert_eq!(feed.posts_hash.len(), POSTS_HASH_MAX);
    assert_eq!(feed.posts_hash.len(), 16);
    assert_eq!(feed.posts_hash[0], hash("http://site/0"));
    assert_eq!(feed.posts_hash[15], hash("http://site/15"));
}

#[test]
fn a_post_without_link_has_the_fingerprint_of_nothing() {
    let posts = vec![FeedPost { title: Some("t".to_owned()), ..Default::default() }];
    let feed = SubscribeFeed::from("http://site/rss", &rss(posts), 1);
    assert_eq!(feed.posts_hash, vec![hash("")]);
}

#[test]
fn a_new_snapshot_keeps_address_and_channels() {
    let old = SubscribeFeed {
        subscribe_url: "http://site/rss".to_owned(),
        title: "old".to_owned(),
        channel_ids: vec!["C1".to_owned(), "C2".to_owned()],
        posts_hash: vec!["1".to_owned()],
        ..Default::default()
    };
    let new = SubscribeFeed::from_old(&old, &rss(vec![post("a", "http://site/a")]), 9);
    assert_eq!(new.subscribe_url, "http://site/rss");
    assert_eq!(new.title, "feed");
    assert_eq!(new.down_time, 9);
    assert_eq!(new.channel_ids, vec!["C1".to_owned(), "C2".to_owned()]);
    assert_eq!(new.posts_hash, vec![hash("http://site/a")]);
}

#[test]
fn the_diff_gives_the_places_of_new_posts() {
    let new = SubscribeFeed {
        posts_hash: vec!["e".to_owned(), "d".to_owned(), "c".to_owned(), "b".to_owned()],
        ..Default::default()
    };
    let old = SubscribeFeed {
        posts_hash: vec!["c".to_owned(), "b".to_owned(), "a".to_owned()],
        ..Default::default()
    };
    assert_eq!(new.diff_post_index(&old), vec![0, 1]);
    assert_eq!(old.diff_post_index(&new), vec![2]);
    assert_eq!(new.diff_post_index(&new), Vec::<usize>::new());
    assert_eq!(new.diff_post_index(&SubscribeFeed::default()), vec![0, 1, 2, 3]);
}

#[test]
fn a_post_is_a_bold_title_and_a_quoted_link() {
    let m = push_post("C1", &post("Title", "http://site/a")).unwrap();
    assert_eq!(m.content, "**Title** \n > http://site/a");
    assert_eq!(m.target_id, "C1");
    assert_eq!(m.quote, None);
    let untitled = FeedPost { link: Some("http://site/b".to_owned()), ..Default::default() };
    assert_eq!(push_post("C1", &untitled).unwrap().content, "**** \n > http://site/b");
    let unlinked = FeedPost { title: Some("t".to_owned()), ..Default::default() };
    assert!(push_post("C1", &unlinked).is_none());
}

#[test]
fn an_answer_quotes_the_message() {
    let m = push_info("hello", &message(Some("C1"), Some("m1"))).unwrap();
    assert_eq!(m.content, "hello");
    assert_eq!(m.target_id, "C1");
    assert_eq!(m.quote, Some("m1".to_owned()));
    assert_eq!(push_info("hello", &message(Some("C1"), None)).unwrap().quote, None);
    assert!(push_info("hello", &message(None, Some("m1"))).is_none());
}

#[test]
fn patterns_compile_or_not() {
    assert!(check_pattern("(华为|蒂法)").is_ok());
    assert!(check_pattern("").is_ok());
    assert!(check_pattern("(").is_err());
    assert!(check_pattern("a{2,1}").is_err());
}

#[test]
fn a_filter_holds_back_the_titles_it_matches() {
    assert!(title_filtered("(华为|蒂法)", "华为新闻"));
    assert!(title_filtered("(华为|蒂法)", "蒂法新作"));
    assert!(!title_filtered("(华为|蒂法)", "无关新闻"));
    assert!(!title_filtered("(", "(anything"));
    assert!(title_filtered("^$", ""));
    assert!(is_filter_post(&post("华为新闻", "http://l"), "(华为|蒂法)"));
    assert!(!is_filter_post(&post("无关新闻", "http://l"), "(华为|蒂法)"));
    let untitled = FeedPost::default();
    assert!(is_filter_post(&untitled, "^$"));
    assert!(!is_filter_post(&untitled, "x"));
}

#[test]
fn the_regex_filter_lets_only_the_third_post_through() {
    let url = "http://site/rss";
    let mut db = Database::new();
    let first = SubscribeFeed::from(url, &rss(vec![]), 1);
    db.channel_subscribed("C", first).unwrap();
    db.update_channel_feed_regex("C", url, "(华为|蒂法)").unwrap();
    let stored = db.feed_list().unwrap().remove(0);
    let fresh = rss(vec![
        post("华为新闻", "http://site/1"),
        post("蒂法新作", "http://site/2"),
        post("无关新闻", "http://site/3"),
    ]);
    let messages = push_update(&mut db, &stored, &fresh, 2).unwrap();
    assert_eq!(messages.len(), 1);
    assert_eq!(messages[0].content, "**无关新闻** \n > http://site/3");
    assert_eq!(messages[0].target_id, "C");
    assert_eq!(messages[0].quote, None);
    let now = db.feed_list().unwrap().remove(0);
    assert_eq!(now.down_time, 2);
    assert_eq!(now.channel_ids, vec!["C".to_owned()]);
    assert_eq!(now.posts_hash.len(), 3);
    // Nothing is new the second time.
    assert!(push_update(&mut db, &now, &fresh, 3).unwrap().is_empty());
}

#[test]
fn new_posts_go_to_every_channel_in_order() {
    let url = "http://site/rss";
    let mut db = Database::new();
    let old = rss(vec![post("old", "http://site/0")]);
    db.channel_subscribed("C1", SubscribeFeed::from(url, &old, 1)).unwrap();
    db.channel_subscribed("C2", SubscribeFeed::from(url, &old, 1)).unwrap();
    let stored = db.feed_list().unwrap().remove(0);
    let fresh = rss(vec![
        post("b", "http://site/2"),
        FeedPost { title: Some("no link".to_owned()), ..Default::default() },
        post("a", "http://site/1"),
        post("old", "http://site/0"),
    ]);
    let messages = push_update(&mut db, &stored, &fresh, 2).unwrap();
    let sent: Vec<(String, String)> =
        messages.into_iter().map(|m| (m.target_id, m.content)).collect();
    assert_eq!(
        sent,
        vec![
            ("C1".to_owned(), "**b** \n > http://site/2".to_owned()),
            ("C1".to_owned(), "**a** \n > http://site/1".to_owned()),
            ("C2".to_owned(), "**b** \n > http://site/2".to_owned()),
            ("C2".to_owned(), "**a** \n > http://site/1".to_owned()),
        ]
    );
}

#[test]
fn a_feed_that_was_not_filed_has_nothing_new() {
    let mut db = Database::new();
    let feed = SubscribeFeed { subscribe_url: "http://site/rss".to_owned(), ..Default::default() };
    let fresh = rss(vec![post("a", "http://site/1")]);
    assert!(push_update(&mut db, &feed, &fresh, 2).unwrap().is_empty());
    assert!(db.contains_feed("http://site/rss").unwrap());
}

#[test]
fn a_blank_filter_holds_nothing_back() {
    let mut channel = ChannelSubFeeds::from_id("C".to_owned());
    channel.feed_regex.push(("k".to_owned(), "  ".to_owned()));
    let posts = vec![post("a b", "http://site/1")];
    let messages = push_plan(&vec![channel], "k", &posts, &vec![0, 7]);
    assert_eq!(messages.len(), 1);
    let mut channel = ChannelSubFeeds::from_id("C".to_owned());
    channel.feed_regex.push(("k".to_owned(), " ".to_owned()));
    channel.feed_regex.push(("other".to_owned(), "a".to_owned()));
    assert_eq!(push_plan(&vec![channel], "k", &posts, &vec![0]).len(), 1);
    let mut channel = ChannelSubFeeds::from_id("C".to_owned());
    channel.feed_regex.push(("k".to_owned(), "a b".to_owned()));
    assert!(push_plan(&vec![channel], "k", &posts, &vec![0]).is_empty());
}

#[test]
fn a_feed_is_dead_after_a_week() {
    let feed = SubscribeFeed { down_time: 1000, ..Default::default() };
    assert!(!is_expired(&feed, 1000 + 604800));
    assert!(is_expired(&feed, 1000 + 604800 + 1));
    assert!(!is_expired(&feed, 0));
    let late = SubscribeFeed { down_time: u64::MAX, ..Default::default() };
    assert!(!is_expired(&late, u64::MAX));
}
