use ksbot::api::http::UserMe;
use ksbot::data::SubscribeFeed;
use ksbot::db::DatabaseError;
use ksbot::fetch::{Feed, FeedPost};
use ksbot::network_runtime::BotNetworkEvent;
use ksbot::runtime::{
    command_rss, command_url, is_valid_message, parse_command, refresh_delay, schedule, Command,
    EventAction, FetchQueue, KsbotError, KsbotRuntime, MessageAction, HELP_TEXT, NO_FEEDS_TEXT,
};
use ksbot::ws::KookEventMessage;

const NOW: u128 = 1_700_000_000_000;

fn me(id: &str) -> UserMe {
    UserMe {
        id: id.to_owned(),
        username: "ksbot".to_owned(),
        identify_num: "0001".to_owned(),
        online: true,
        status: 0,
        avatar: String::new(),
        bot: true,
        mobile_verified: false,
        client_id: String::new(),
        mobile_prefix: String::new(),
        mobile: String::new(),
        invited_count: 0,
    }
}

fn message(content: &str) -> KookEventMessage {
    KookEventMessage {
        id: None,
        channel_name: Some("general".to_owned()),
        channel_type: Some("GROUP".to_owned()),
        content: Some(content.to_owned()),
        nonce: None,
        typ: Some(9),
        msg_timestamp: Some(NOW as u64),
        target_id: Some("C1".to_owned()),
        author_id: Some("U1".to_owned()),
        msg_id: Some("m1".to_owned()),
        banner: None,
        bot: Some(false),
        nickname: None,
        online: None,
    }
}

fn bot() -> KsbotRuntime {
    let mut bot = KsbotRuntime::new();
    bot.on_connect(me("BOT"));
    bot
}

fn rss(posts: Vec<FeedPost>) -> Feed {
    Feed { title: "feed".to_owned(), link: "http://site".to_owned(), posts, ..Default::default() }
}

fn reply(action: MessageAction) -> String {
    match action {
        MessageAction::Reply(m) => {
            assert_eq!(m.target_id, "C1");
            assert_eq!(m.quote, Some("m1".to_owned()));
            m.content
        }
        other => panic!("unexpected action {:?}", other),
    }
}

#[test]
fn stale_messages_are_not_answered() {
    let msg = message("(met)BOT(met)");
    assert!(is_valid_message(&msg, NOW));
    assert!(is_valid_message(&msg, NOW + 5000));
    assert!(!is_valid_message(&msg, NOW + 5001));
    assert!(is_valid_message(&msg, NOW - 60_000));
    let mut bot = bot();
    assert!(matches!(bot.on_message(&msg, NOW + 5001), Ok(MessageAction::Nothing)));
    assert_eq!(reply(bot.on_message(&msg, NOW + 5000).unwrap()), HELP_TEXT);
}

#[test]
fn messages_of_bots_and_private_messages_are_not_answered() {
    let mut from_bot = message("(met)BOT(met)");
    from_bot.bot = Some(true);
    assert!(!is_valid_message(&from_bot, NOW));
    let mut private = message("(met)BOT(met)");
    private.channel_type = Some("PERSON".to_owned());
    assert!(!is_valid_message(&private, NOW));
    let mut untimed = message("(met)BOT(met)");
    untimed.msg_timestamp = None;
    assert!(!is_valid_message(&untimed, NOW));
    let mut plain = message("(met)BOT(met)");
    plain.bot = None;
    plain.channel_type = None;
    assert!(is_valid_message(&plain, NOW));
}

#[test]
fn commands_are_read_behind_the_mention() {
    assert!(matches!(parse_command("hello", "BOT"), Command::NotForMe));
    assert!(matches!(parse_command("(met)OTHER(met) rss", "BOT"), Command::NotForMe));
    assert!(matches!(parse_command("rss (met)BOT(met)", "BOT"), Command::NotForMe));
    assert!(matches!(parse_command("(met)BOT(met)", "BOT"), Command::Help));
    assert!(matches!(parse_command(" \t(met)BOT(met)   \n", "BOT"), Command::Help));
    assert!(matches!(parse_command("(met)BOT(met) rss", "BOT"), Command::Rss));
    assert!(matches!(parse_command("(met)BOT(met)rss", "BOT"), Command::Rss));
    assert!(matches!(parse_command("(met)BOT(met) rss extra", "BOT"), Command::Ignored));
    assert!(matches!(parse_command("(met)BOT(met) dance", "BOT"), Command::Ignored));
    assert!(matches!(parse_command("(met)BOT(met) sub", "BOT"), Command::Ignored));
    match parse_command("(met)BOT(met)   sub    http://a.b/c  ", "BOT") {
        Command::Sub(arg) => assert_eq!(arg, "http://a.b/c"),
        other => panic!("unexpected {:?}", other),
    }
    match parse_command("(met)BOT(met) unsub http://a.b/c", "BOT") {
        Command::Unsub(arg) => assert_eq!(arg, "http://a.b/c"),
        other => panic!("unexpected {:?}", other),
    }
    match parse_command("(met)BOT(met) reg http://a.b/c (华为|蒂法)", "BOT") {
        Command::Reg(arg, pattern) => {
            assert_eq!(arg, "http://a.b/c");
            assert_eq!(pattern, "(华为|蒂法)");
        }
        other => panic!("unexpected {:?}", other),
    }
    assert!(matches!(parse_command("(met)BOT(met) reg http://a.b/c", "BOT"), Command::Ignored));
}

#[test]
fn the_argument_of_a_command_must_hold_a_link() {
    assert_eq!(command_url("[http://a.b/c](http://a.b/c)").unwrap(), "http://a.b/c");
    match command_url("ftp://a.b") {
        Err(KsbotError::NotUrl(arg)) => assert_eq!(arg, "ftp://a.b"),
        other => panic!("unexpected {:?}", other),
    }
}

#[test]
fn command_sub() {
    let mut bot = bot();
    let msg = message("(met)BOT(met) sub http://example.com/feed.xml");
    let url = match bot.on_message(&msg, NOW).unwrap() {
        MessageAction::Pull(url) => url,
        other => panic!("unexpected action {:?}", other),
    };
    assert_eq!(url, "http://example.com/feed.xml");
    assert!(!bot.db().contains_feed(&url).unwrap());
    let feed = rss(vec![FeedPost {
        title: Some("first".to_owned()),
        link: Some("http://example.com/1".to_owned()),
        ..Default::default()
    }]);
    let out = bot.on_pulled(&msg, &url, &feed, 1_700_000_000).unwrap();
    assert_eq!(out.len(), 2);
    assert_eq!(out[0].content, "已订阅: http://example.com/feed.xml");
    assert_eq!(out[0].target_id, "C1");
    assert_eq!(out[0].quote, Some("m1".to_owned()));
    assert_eq!(out[1].content, "**first** \n > http://example.com/1");
    assert_eq!(out[1].target_id, "C1");
    assert_eq!(out[1].quote, None);
    assert!(bot.db().contains_feed("http://example.com/feed.xml").unwrap());
    let feeds = bot.db().channel_feed_list("C1").unwrap();
    assert_eq!(feeds.len(), 1);
    assert_eq!(feeds[0].subscribe_url, "http://example.com/feed.xml");
    assert_eq!(feeds[0].down_time, 1_700_000_000);
    let channels = bot.db().feed_channel_list("http://example.com/feed.xml").unwrap();
    assert_eq!(channels.len(), 1);
    assert_eq!(channels[0].id, "C1");
}

#[test]
fn subscribing_to_an_empty_feed_sends_the_answer_alone() {
    let mut bot = bot();
    let msg = message("(met)BOT(met) sub http://example.com/feed.xml");
    let out = bot.on_pulled(&msg, "http://example.com/feed.xml", &rss(vec![]), 1).unwrap();
    assert_eq!(out.len(), 1);
    let mut nowhere = message("(met)BOT(met) sub http://example.com/feed.xml");
    nowhere.target_id = None;
    assert!(matches!(
        bot.on_pulled(&nowhere, "http://example.com/feed.xml", &rss(vec![]), 1),
        Err(KsbotError::Anyhow(_))
    ));
}

#[test]
fn a_command_without_link_is_an_error() {
    let mut bot = bot();
    match bot.on_message(&message("(met)BOT(met) sub example.com"), NOW) {
        Err(KsbotError::NotUrl(arg)) => assert_eq!(arg, "example.com"),
        other => panic!("unexpected {:?}", other),
    }
    match bot.on_message(&message("(met)BOT(met) unsub example.com"), NOW) {
        Err(KsbotError::NotUrl(arg)) => assert_eq!(arg, "example.com"),
        other => panic!("unexpected {:?}", other),
    }
}

#[test]
fn command_rss_lists_the_subscriptions() {
    let mut bot = bot();
    assert_eq!(reply(bot.on_message(&message("(met)BOT(met) rss"), NOW).unwrap()), NO_FEEDS_TEXT);
    let msg = message("(met)BOT(met) sub x");
    let mut one = rss(vec![]);
    one.title = "One".to_owned();
    let mut two = rss(vec![]);
    two.title = "Two".to_owned();
    bot.on_pulled(&msg, "http://a/1", &one, 1).unwrap();
    bot.on_pulled(&msg, "http://a/2", &two, 1).unwrap();
    assert_eq!(
        reply(bot.on_message(&message("(met)BOT(met) rss"), NOW).unwrap()),
        "- [One] http://a/1\n- [Two] http://a/2"
    );
    let feeds = vec![SubscribeFeed {
        title: "T".to_owned(),
        subscribe_url: "http://u".to_owned(),
        ..Default::default()
    }];
    assert_eq!(command_rss(&feeds), "- [T] http://u");
    assert_eq!(command_rss(&vec![]), "当前没有任何订阅, 是因为太年轻犯下的错么。");
}

#[test]
fn command_unsub_drops_the_feed_when_nobody_is_left() {
    let mut bot = bot();
    let msg = message("(met)BOT(met) sub x");
    bot.on_pulled(&msg, "http://a/1", &rss(vec![]), 1).unwrap();
    let mut other = message("(met)BOT(met) sub x");
    other.target_id = Some("C2".to_owned());
    bot.on_pulled(&other, "http://a/1", &rss(vec![]), 1).unwrap();
    let answer = reply(bot.on_message(&message("(met)BOT(met) unsub http://a/1"), NOW).unwrap());
    assert_eq!(answer, "已取消订阅: http://a/1");
    assert!(bot.db().contains_feed("http://a/1").unwrap());
    assert!(bot.db().channel_feed_list("C1").unwrap().is_empty());
    let mut leave = message("(met)BOT(met) unsub http://a/1");
    leave.target_id = Some("C2".to_owned());
    match bot.on_message(&leave, NOW).unwrap() {
        MessageAction::Reply(m) => assert_eq!(m.target_id, "C2"),
        other => panic!("unexpected action {:?}", other),
    }
    assert!(!bot.db().contains_feed("http://a/1").unwrap());
    // Leaving again is no error.
    assert!(bot.on_message(&leave, NOW).is_ok());
}

#[test]
fn command_reg_sets_a_filter() {
    let mut bot = bot();
    let msg = message("(met)BOT(met) sub x");
    bot.on_pulled(&msg, "http://a/1", &rss(vec![]), 1).unwrap();
    let answer =
        reply(bot.on_message(&message("(met)BOT(met) reg http://a/1 (华为|蒂法)"), NOW).unwrap());
    assert_eq!(answer, "正则编译完成, 已启用.");
    let channels = bot.db().channel_list();
    assert_eq!(channels[0].feed_regex.len(), 1);
    assert_eq!(channels[0].feed_regex[0].1, "(华为|蒂法)");
    assert!(matches!(
        bot.on_message(&message("(met)BOT(met) reg http://a/1 ("), NOW),
        Err(KsbotError::NotRegex(_))
    ));
    assert!(matches!(
        bot.on_message(&message("(met)BOT(met) reg http://a/2 a"), NOW),
        Err(KsbotError::Database(DatabaseError::NotFoundFeed(_)))
    ));
    let mut elsewhere = message("(met)BOT(met) reg http://a/1 a");
    elsewhere.target_id = Some("C9".to_owned());
    assert!(matches!(
        bot.on_message(&elsewhere, NOW),
        Err(KsbotError::Database(DatabaseError::NotFoundChannel(_)))
    ));
    assert_eq!(bot.db().channel_list()[0].feed_regex[0].1, "(华为|蒂法)");
}

#[test]
fn messages_without_channel_or_before_the_bot_knows_itself() {
    let mut unknown = KsbotRuntime::new();
    assert!(matches!(
        unknown.on_message(&message("(met)BOT(met)"), NOW),
        Ok(MessageAction::Nothing)
    ));
    let mut bot = bot();
    let mut nowhere = message("(met)BOT(met)");
    nowhere.target_id = None;
    assert!(matches!(bot.on_message(&nowhere, NOW), Err(KsbotError::Anyhow(_))));
    let mut unnamed = message("(met)BOT(met) rss");
    unnamed.target_id = Some(String::new());
    assert!(matches!(bot.on_message(&unnamed, NOW), Ok(MessageAction::Nothing)));
    let mut silent = message("");
    silent.content = None;
    assert!(matches!(bot.on_message(&silent, NOW), Ok(MessageAction::Nothing)));
    assert!(matches!(bot.on_message(&message("just talk"), NOW), Ok(MessageAction::Nothing)));
}

#[test]
fn events_of_the_session_are_dispatched() {
    let mut bot = bot();
    assert!(matches!(bot.on_event(&BotNetworkEvent::Connect(), NOW), Ok(EventAction::WhoAmI)));
    assert!(matches!(bot.on_event(&BotNetworkEvent::Heart(), NOW), Ok(EventAction::Nothing)));
    assert!(matches!(bot.on_event(&BotNetworkEvent::Error(), NOW), Ok(EventAction::Nothing)));
    assert!(matches!(
        bot.on_event(&BotNetworkEvent::Shutdown(), NOW),
        Ok(EventAction::Shutdown)
    ));
    let event = BotNetworkEvent::Message(Box::new(message("(met)BOT(met)")));
    assert!(matches!(
        bot.on_event(&event, NOW),
        Ok(EventAction::Message(MessageAction::Reply(_)))
    ));
    let event = BotNetworkEvent::Message(Box::new(message("(met)BOT(met) sub nothing")));
    assert!(matches!(bot.on_event(&event, NOW), Err(KsbotError::NotUrl(_))));
}

#[test]
fn a_feed_is_refreshed_after_its_interval_but_not_sooner_than_the_floor() {
    assert_eq!(refresh_delay(None), 180);
    assert_eq!(refresh_delay(Some(0)), 180);
    assert_eq!(refresh_delay(Some(3)), 180);
    assert_eq!(refresh_delay(Some(4)), 240);
    assert_eq!(refresh_delay(Some(u32::MAX)), u32::MAX as u64 * 60);
}

#[test]
fn no_address_waits_twice() {
    let feed = |url: &str, ttl: Option<u32>| SubscribeFeed {
        subscribe_url: url.to_owned(),
        ttl,
        ..Default::default()
    };
    let mut queue = FetchQueue::new();
    assert!(queue.enqueue(feed("http://a/1", None)));
    assert!(!queue.enqueue(feed("http://a/1", Some(9))));
    assert_eq!(queue.len(), 1);
    let due = schedule(
        &mut queue,
        vec![feed("http://a/2", Some(10)), feed("http://a/1", None), feed("http://a/3", None)],
    );
    assert_eq!(due.len(), 2);
    assert_eq!((due[0].subscribe_url.as_str(), due[0].delay_secs), ("http://a/2", 600));
    assert_eq!((due[1].subscribe_url.as_str(), due[1].delay_secs), ("http://a/3", 180));
    assert_eq!(queue.len(), 3);
    assert!(queue.take("http://a/9").is_none());
    let taken = queue.take("http://a/1").unwrap();
    assert_eq!(taken.subscribe_url, "http://a/1");
    assert_eq!(taken.ttl, None);
    assert_eq!(queue.len(), 2);
    assert!(queue.take("http://a/1").is_none());
    assert!(queue.enqueue(feed("http://a/1", None)));
}
