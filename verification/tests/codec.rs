use ksbot::ws::{frame_text, FrameError, WireMessage};
use std::io::Write;

fn deflate(text: &str) -> Vec<u8> {
    let mut encoder =
        flate2::write::ZlibEncoder::new(Vec::new(), flate2::Compression::default());
    encoder.write_all(text.as_bytes()).unwrap();
    encoder.finish().unwrap()
}

#[test]
fn text_is_taken_as_it_stands() {
    let text = "{\"s\":3}".to_owned();
    assert_eq!(frame_text(WireMessage::Text(text.clone())), Ok(Some(text)));
}

#[test]
fn binary_is_inflated() {
    let text = "{\"s\":0,\"d\":{\"content\":\"你好\"},\"sn\":7}";
    let bytes = deflate(text);
    assert_ne!(bytes, text.as_bytes());
    assert_eq!(frame_text(WireMessage::Binary(bytes)), Ok(Some(text.to_owned())));
}

#[test]
fn bytes_that_are_no_zlib_stream_are_an_error() {
    let bytes = "{\"s\":3}".as_bytes().to_vec();
    assert_eq!(frame_text(WireMessage::Binary(bytes)), Err(FrameError::Inflate));
    assert_eq!(frame_text(WireMessage::Binary(Vec::new())), Err(FrameError::Inflate));
}

#[test]
fn deflated_bytes_that_are_no_text_are_an_error() {
    let mut encoder =
        flate2::write::ZlibEncoder::new(Vec::new(), flate2::Compression::default());
    encoder.write_all(&[0xff, 0xfe, 0xfd]).unwrap();
    let bytes = encoder.finish().unwrap();
    assert_eq!(frame_text(WireMessage::Binary(bytes)), Err(FrameError::Inflate));
}

#[test]
fn the_sockets_own_ping_and_pong_carry_no_frame() {
    assert_eq!(frame_text(WireMessage::Ping), Ok(None));
    assert_eq!(frame_text(WireMessage::Pong), Ok(None));
}

#[test]
fn a_close_ends_the_session() {
    assert_eq!(frame_text(WireMessage::Close), Err(FrameError::Closed));
}
