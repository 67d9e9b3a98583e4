use ksbot::api::http::{authorization, gateway_of, message_create};
use ksbot::api::{is_http_ok, not_compress, prefix_url, ApiError, KookResponse};
use ksbot::fetch::{
    accept_chunk, check_content_length, resp_size_limit, FeedError, DEFAULT_RESP_SIZE_LIMIT,
};
use ksbot::push::OutboundMessage;

#[test]
fn the_cap_is_four_mebibytes_unless_set() {
    assert_eq!(DEFAULT_RESP_SIZE_LIMIT, 4 * 1024 * 1024);
    assert_eq!(resp_size_limit(None), 4 * 1024 * 1024);
    assert_eq!(resp_size_limit(Some(10)), 10);
}

#[test]
fn an_announced_length_over_the_cap_ends_the_pull() {
    assert!(check_content_length(None, 10).is_ok());
    assert!(check_content_length(Some(10), 10).is_ok());
    assert!(matches!(check_content_length(Some(11), 10), Err(FeedError::TooLarge(10))));
}

#[test]
fn a_body_over_the_cap_ends_the_pull() {
    assert!(matches!(accept_chunk(0, 10, 10), Ok(10)));
    assert!(matches!(accept_chunk(4, 5, 10), Ok(9)));
    assert!(matches!(accept_chunk(6, 5, 10), Err(FeedError::TooLarge(10))));
    assert!(matches!(accept_chunk(usize::MAX, 1, u64::MAX), Err(FeedError::TooLarge(u64::MAX))));
}

#[test]
fn addresses_of_the_platform() {
    assert_eq!(prefix_url("/gateway/index"), "https://www.kookapp.cn/api/v3/gateway/index");
    assert_eq!(not_compress("wss://gw"), "wss://gw?compress=0");
    assert_eq!(authorization("1/abc"), "Bot 1/abc");
}

#[test]
fn an_envelope_with_a_code_is_an_error() {
    let ok = KookResponse { code: 0, message: "ok".to_owned(), data: () };
    assert!(is_http_ok(&ok).is_ok());
    let bad = KookResponse { code: 40100, message: "missing".to_owned(), data: () };
    match is_http_ok(&bad) {
        Err(ApiError::Platform(m)) => assert_eq!(m, "missing"),
        other => panic!("unexpected {:?}", other),
    }
}

#[test]
fn the_gateway_is_what_the_answer_carries() {
    let ok = KookResponse { code: 0, message: String::new(), data: Some("wss://gw".to_owned()) };
    assert_eq!(gateway_of(ok).unwrap(), "wss://gw");
    let empty: KookResponse<Option<String>> =
        KookResponse { code: 0, message: String::new(), data: None };
    assert!(matches!(gateway_of(empty), Err(ApiError::Incomplete)));
    let bad = KookResponse { code: 1, message: "no".to_owned(), data: Some("wss://gw".to_owned()) };
    assert!(matches!(gateway_of(bad), Err(ApiError::Platform(_))));
}

#[test]
fn a_message_becomes_a_request() {
    let request = message_create(OutboundMessage {
        content: "c".to_owned(),
        target_id: "C1".to_owned(),
        quote: Some("m1".to_owned()),
    });
    assert_eq!(request.content, "c");
    assert_eq!(request.target_id, "C1");
    assert_eq!(request.typ, None);
    assert_eq!(request.quote, Some("m1".to_owned()));
}
