use ksbot::conf::BotConfig;
use ksbot::network_runtime::{
    take_events, BotNetworkRuntime, BotState, BotStore, ConnectOutcome, EventBuffer, FrameOutcome,
    SessionStep, GATEWAY_RETRY_SECS,
};
use ksbot::ws::{
    KookWSFrame, WS_HELLO, WS_MESSAGE, WS_PING, WS_PONG, WS_RECONNECT, WS_RESUME, WS_RESUME_ACK,
};

fn conf() -> BotConfig {
    BotConfig::new("token".to_owned(), "__bot.json".to_owned())
}

fn event(sn: u64) -> KookWSFrame<String> {
    KookWSFrame { s: WS_MESSAGE, d: Some(format!("event {}", sn)), sn: Some(sn) }
}

fn signal(s: u8) -> KookWSFrame<String> {
    KookWSFrame { s, d: None, sn: None }
}

/// A session that works and stands at the serial number `sn`.
fn working(sn: u64) -> BotNetworkRuntime<String> {
    let record = BotStore::new("sid".to_owned(), sn, "wss://gw/?compress=0".to_owned());
    let mut rt = BotNetworkRuntime::init(conf(), Some(record));
    assert_eq!(rt.state(), BotState::Resume);
    match rt.next_step() {
        SessionStep::Connect(_) => {}
        other => panic!("unexpected step {:?}", other),
    }
    assert_eq!(rt.on_connect(true), ConnectOutcome::Connected);
    assert_eq!(rt.state(), BotState::Working);
    rt
}

fn published(outcome: FrameOutcome<String>) -> Vec<u64> {
    match outcome {
        FrameOutcome::Events(frames) => frames.iter().map(|f| f.sn.unwrap()).collect(),
        other => panic!("unexpected outcome {:?}", other),
    }
}

#[test]
fn out_of_order_events_are_released_in_order() {
    let mut rt = working(10);
    assert_eq!(published(rt.on_frame(event(13), None)), Vec::<u64>::new());
    assert_eq!(published(rt.on_frame(event(12), None)), Vec::<u64>::new());
    assert_eq!(published(rt.on_frame(event(14), None)), Vec::<u64>::new());
    assert_eq!(rt.pending_len(), 3);
    assert_eq!(published(rt.on_frame(event(11), None)), vec![11, 12, 13, 14]);
    assert_eq!(rt.sn(), 14);
    assert_eq!(rt.pending_len(), 0);
}

#[test]
fn released_events_keep_their_payload() {
    let mut rt = working(0);
    let _ = rt.on_frame(event(2), None);
    match rt.on_frame(event(1), None) {
        FrameOutcome::Events(frames) => {
            assert_eq!(frames.len(), 2);
            assert_eq!(frames[0].d.as_deref(), Some("event 1"));
            assert_eq!(frames[1].d.as_deref(), Some("event 2"));
        }
        other => panic!("unexpected outcome {:?}", other),
    }
}

#[test]
fn duplicates_are_dropped() {
    let mut rt = working(10);
    assert!(matches!(rt.on_frame(event(9), None), FrameOutcome::Ignored));
    assert!(matches!(rt.on_frame(event(10), None), FrameOutcome::Ignored));
    assert_eq!(published(rt.on_frame(event(11), None)), vec![11]);
    assert!(matches!(rt.on_frame(event(10), None), FrameOutcome::Ignored));
    assert_eq!(rt.sn(), 11);
    assert_eq!(rt.pending_len(), 0);
}

#[test]
fn a_frame_that_comes_twice_before_its_turn_is_stored_once() {
    let mut rt = working(10);
    assert_eq!(published(rt.on_frame(event(12), None)), Vec::<u64>::new());
    assert_eq!(published(rt.on_frame(event(12), None)), Vec::<u64>::new());
    assert_eq!(rt.pending_len(), 1);
    assert_eq!(published(rt.on_frame(event(11), None)), vec![11, 12]);
    assert_eq!(published(rt.on_frame(event(13), None)), vec![13]);
    assert_eq!(rt.sn(), 13);
    assert_eq!(rt.pending_len(), 0);
}

#[test]
fn frames_that_come_again_in_any_order_are_each_handed_on_once() {
    let mut rt = working(10);
    let mut all = Vec::new();
    for sn in [13, 13, 11, 12, 14, 12, 16, 14, 16, 15, 11] {
        match rt.on_frame(event(sn), None) {
            FrameOutcome::Events(frames) => all.extend(frames.iter().map(|f| f.sn.unwrap())),
            FrameOutcome::Ignored => assert!(sn <= rt.sn()),
            other => panic!("unexpected outcome {:?}", other),
        }
    }
    assert_eq!(all, vec![11, 12, 13, 14, 15, 16]);
    assert_eq!(rt.sn(), 16);
    assert_eq!(rt.pending_len(), 0);
}

#[test]
fn of_two_frames_of_one_number_the_first_is_handed_on() {
    let mut rt = working(0);
    let first = KookWSFrame { s: WS_MESSAGE, d: Some("first".to_owned()), sn: Some(2) };
    let second = KookWSFrame { s: WS_MESSAGE, d: Some("second".to_owned()), sn: Some(2) };
    let _ = rt.on_frame(first, None);
    let _ = rt.on_frame(second, None);
    match rt.on_frame(event(1), None) {
        FrameOutcome::Events(frames) => {
            assert_eq!(frames.len(), 2);
            assert_eq!(frames[1].d.as_deref(), Some("first"));
        }
        other => panic!("unexpected outcome {:?}", other),
    }
}

#[test]
fn numbered_frames_that_are_no_events_advance_without_being_published() {
    let mut rt = working(0);
    let odd = KookWSFrame { s: 9, d: Some("x".to_owned()), sn: Some(1) };
    assert_eq!(published(rt.on_frame(odd, None)), Vec::<u64>::new());
    assert_eq!(rt.sn(), 1);
    let bare: KookWSFrame<String> = KookWSFrame { s: WS_MESSAGE, d: None, sn: Some(2) };
    assert_eq!(published(rt.on_frame(bare, None)), Vec::<u64>::new());
    assert_eq!(rt.sn(), 2);
}

#[test]
fn reconnect_resets_the_session() {
    let mut rt = working(50);
    let _ = rt.on_frame(event(52), None);
    let _ = rt.on_frame(event(53), None);
    assert_eq!(rt.pending_len(), 2);
    assert!(rt.gateway_resume_url().is_some());
    assert!(matches!(rt.on_frame(signal(WS_RECONNECT), None), FrameOutcome::Reconnect));
    assert_eq!(rt.sn(), 0);
    assert_eq!(rt.pending_len(), 0);
    assert_eq!(rt.session_id(), None);
    assert_eq!(rt.gateway_resume_url(), None);
    assert_eq!(rt.state(), BotState::Reconnect);
    assert!(matches!(rt.next_step(), SessionStep::GetGateway));
}

#[test]
fn three_unanswered_heartbeats_end_the_work() {
    let mut rt = working(7);
    let first = rt.heartbeat().unwrap();
    assert_eq!(first.ping.s, WS_PING);
    assert_eq!(first.ping.sn, Some(7));
    assert!(first.ping.d.is_none());
    assert_eq!(first.wait_secs, 4);
    assert!(rt.on_pong_timeout());
    assert_eq!(rt.heartbeat().unwrap().wait_secs, 8);
    assert!(rt.on_pong_timeout());
    assert_eq!(rt.heartbeat().unwrap().wait_secs, 16);
    assert!(!rt.on_pong_timeout());
    assert_eq!(rt.state(), BotState::HeartTimeout);
    assert!(rt.heartbeat().is_none());
    match rt.next_step() {
        SessionStep::Connect(_) => {}
        other => panic!("unexpected step {:?}", other),
    }
}

#[test]
fn a_pong_starts_the_count_again() {
    let mut rt = working(0);
    let _ = rt.heartbeat().unwrap();
    assert!(rt.on_pong_timeout());
    let _ = rt.heartbeat().unwrap();
    assert!(rt.on_pong_timeout());
    assert_eq!(rt.heartbeat().unwrap().wait_secs, 16);
    assert!(matches!(rt.on_frame(signal(WS_PONG), None), FrameOutcome::Pong));
    // The answer came: the late timer changes nothing.
    assert!(rt.on_pong_timeout());
    assert_eq!(rt.heartbeat().unwrap().wait_secs, 4);
    assert!(rt.on_pong_timeout());
    assert_eq!(rt.state(), BotState::Working);
}

#[test]
fn a_session_without_record_asks_for_a_gateway() {
    let mut rt: BotNetworkRuntime<String> = BotNetworkRuntime::init(conf(), None);
    assert_eq!(rt.state(), BotState::GetGateway);
    assert_eq!(rt.sn(), 0);
    assert!(matches!(rt.next_step(), SessionStep::GetGateway));
    assert_eq!(rt.on_gateway(None), GATEWAY_RETRY_SECS);
    assert_eq!(rt.on_gateway(None), 4);
    assert_eq!(rt.state(), BotState::GetGateway);
    assert_eq!(rt.on_gateway(Some("wss://gw/a".to_owned())), 0);
    assert_eq!(rt.state(), BotState::ConnectGateway);
    match rt.next_step() {
        SessionStep::Connect(url) => assert_eq!(url, "wss://gw/a"),
        other => panic!("unexpected step {:?}", other),
    }
    assert_eq!(rt.store_path(), "__bot.json");
}

#[test]
fn a_session_with_record_resumes() {
    let record = BotStore::new("abc".to_owned(), 42, "wss://gw/?compress=0".to_owned());
    let mut rt: BotNetworkRuntime<String> = BotNetworkRuntime::init(conf(), Some(record));
    assert_eq!(rt.state(), BotState::Resume);
    assert_eq!(rt.sn(), 42);
    match rt.next_step() {
        SessionStep::Connect(url) => {
            assert_eq!(url, "wss://gw/?compress=0&resume=1&sn=42&session_id=abc")
        }
        other => panic!("unexpected step {:?}", other),
    }
    assert_eq!(rt.state(), BotState::ConnectGateway);
}

#[test]
fn failed_connections_back_off_and_fall_back() {
    let mut rt: BotNetworkRuntime<String> = BotNetworkRuntime::init(conf(), None);
    assert_eq!(rt.on_connect(false), ConnectOutcome::Ignored);
    let _ = rt.on_gateway(Some("wss://gw/a".to_owned()));
    assert_eq!(rt.on_connect(false), ConnectOutcome::Retry(2));
    assert_eq!(rt.state(), BotState::ConnectGateway);
    assert_eq!(rt.on_connect(false), ConnectOutcome::Retry(4));
    assert_eq!(rt.state(), BotState::ConnectGateway);
    assert_eq!(rt.on_connect(false), ConnectOutcome::Retry(8));
    assert_eq!(rt.state(), BotState::GetGateway);
    let _ = rt.on_gateway(Some("wss://gw/b".to_owned()));
    assert_eq!(rt.on_connect(true), ConnectOutcome::Connected);
    assert_eq!(rt.state(), BotState::Working);
    rt.on_work_error();
    assert_eq!(rt.state(), BotState::GetGateway);
    let _ = rt.on_gateway(Some("wss://gw/c".to_owned()));
    assert_eq!(rt.on_connect(false), ConnectOutcome::Retry(2));
}

#[test]
fn hello_names_the_session() {
    let mut rt = working(0);
    assert_eq!(rt.session_id(), Some("sid".to_owned()));
    let outcome = rt.on_frame(signal(WS_HELLO), Some("fresh".to_owned()));
    assert!(matches!(outcome, FrameOutcome::Hello));
    assert_eq!(rt.session_id(), Some("fresh".to_owned()));
    let outcome = rt.on_frame(signal(WS_RESUME_ACK), None);
    assert!(matches!(outcome, FrameOutcome::Hello));
    assert_eq!(rt.session_id(), Some("fresh".to_owned()));
}

#[test]
fn frames_that_say_nothing_are_ignored() {
    let mut rt = working(3);
    assert!(matches!(rt.on_frame(KookWSFrame::default(), None), FrameOutcome::Ignored));
    assert!(matches!(rt.on_frame(signal(WS_PING), None), FrameOutcome::Ignored));
    assert!(matches!(rt.on_frame(signal(99), None), FrameOutcome::Ignored));
    assert_eq!(rt.sn(), 3);
    let mut idle: BotNetworkRuntime<String> = BotNetworkRuntime::init(conf(), None);
    assert!(matches!(idle.on_frame(event(1), None), FrameOutcome::Ignored));
    assert_eq!(idle.pending_len(), 0);
}

#[test]
fn the_record_follows_the_session() {
    let mut rt = working(5);
    let _ = rt.on_frame(event(6), None);
    let record = rt.store_record();
    assert_eq!(record.sn, 6);
    assert_eq!(record.session_id, "sid");
    assert_eq!(record.gateway, "wss://gw/?compress=0");
    let fresh: BotNetworkRuntime<String> = BotNetworkRuntime::init(conf(), None);
    let record = fresh.store_record();
    assert_eq!(record.sn, 0);
    assert_eq!(record.session_id, "");
    assert_eq!(record.gateway, "");
}

#[test]
fn the_buffer_keeps_frames_sorted_and_each_number_once() {
    let mut buffer: EventBuffer<String> = EventBuffer::new();
    buffer.push(KookWSFrame { s: 0, d: Some("first 5".to_owned()), sn: Some(5) });
    buffer.push(KookWSFrame { s: 0, d: Some("3".to_owned()), sn: Some(3) });
    buffer.push(KookWSFrame { s: 0, d: Some("second 5".to_owned()), sn: Some(5) });
    buffer.push(KookWSFrame { s: 0, d: Some("4".to_owned()), sn: Some(4) });
    buffer.push(KookWSFrame { s: 0, d: Some("second 3".to_owned()), sn: Some(3) });
    assert_eq!(buffer.len(), 3);
    assert_eq!(buffer.release(1).len(), 0);
    let out = buffer.release(2);
    let payloads: Vec<&str> = out.iter().map(|f| f.d.as_deref().unwrap()).collect();
    assert_eq!(payloads, vec!["3", "4", "first 5"]);
    assert_eq!(buffer.len(), 0);
    buffer.push(KookWSFrame { s: 0, d: None, sn: Some(9) });
    buffer.clear();
    assert_eq!(buffer.len(), 0);
}

#[test]
fn only_events_with_a_payload_are_handed_on() {
    let frames = vec![
        event(1),
        KookWSFrame { s: WS_MESSAGE, d: None, sn: Some(2) },
        KookWSFrame { s: WS_HELLO, d: Some("h".to_owned()), sn: Some(3) },
        event(4),
    ];
    let events = take_events(frames);
    let sns: Vec<u64> = events.iter().map(|f| f.sn.unwrap()).collect();
    assert_eq!(sns, vec![1, 4]);
}

#[test]
fn ping_and_resume_frames() {
    let ping: KookWSFrame<String> = KookWSFrame::ping(9);
    assert_eq!((ping.s, ping.sn), (WS_PING, Some(9)));
    assert!(ping.d.is_none());
    let resume: KookWSFrame<String> = KookWSFrame::resume(11);
    assert_eq!((resume.s, resume.sn), (WS_RESUME, Some(11)));
    assert!(resume.d.is_none());
    assert!(!ping.blank());
    assert!(KookWSFrame::<String>::default().blank());
    assert!(event(1).event());
    assert!(!ping.event());
}
