//! The frames of the gateway session and what a socket message holds.
use std::io::Read;
use vstd::prelude::*;

verus! {

/// Signal of a numbered event frame (server to client).
pub const WS_MESSAGE: u8 = 0;

/// Signal of the server's greeting.
pub const WS_HELLO: u8 = 1;

/// Signal of the client's heartbeat.
pub const WS_PING: u8 = 2;

/// Signal of the server's answer to a heartbeat.
pub const WS_PONG: u8 = 3;

/// Signal by which the client asks to resume.
pub const WS_RESUME: u8 = 4;

/// Signal by which the server asks the client to start over.
pub const WS_RECONNECT: u8 = 5;

/// Signal by which the server grants a resume.
pub const WS_RESUME_ACK: u8 = 6;

/// One frame of the session: a signal, a payload where there is one, and a
/// serial number where the frame is a numbered event.
#[derive(Debug)]
pub struct KookWSFrame<T> {
    pub s: u8,
    pub d: Option<T>,
    pub sn: Option<u64>,
}

/// The payload of an event frame that carries a chat message.
#[derive(Debug, Clone)]
pub struct KookEventMessage {
    pub id: Option<String>,
    pub channel_name: Option<String>,
    pub channel_type: Option<String>,
    pub content: Option<String>,
    pub nonce: Option<String>,
    pub typ: Option<u64>,
    pub msg_timestamp: Option<u64>,
    pub target_id: Option<String>,
    pub author_id: Option<String>,
    pub msg_id: Option<String>,
    pub banner: Option<String>,
    pub bot: Option<bool>,
    pub nickname: Option<String>,
    pub online: Option<bool>,
}

impl<T> KookWSFrame<T> {
    /// The heartbeat frame that reports the serial number `sn`.
    pub fn ping(sn: u64) -> (r: Self)
        ensures
            r.s == WS_PING,
            r.d is None,
            r.sn == Some(sn),
    {
        KookWSFrame { s: WS_PING, d: None, sn: Some(sn) }
    }

    /// The frame that asks to resume after the serial number `sn`.
    pub fn resume(sn: u64) -> (r: Self)
        ensures
            r.s == WS_RESUME,
            r.d is None,
            r.sn == Some(sn),
    {
        KookWSFrame { s: WS_RESUME, d: None, sn: Some(sn) }
    }

    /// A frame with signal zero, no payload and no serial number says
    /// nothing.
    pub open spec fn is_blank(&self) -> bool {
        self.s == 0 && self.d is None && self.sn is None
    }

    /// Whether this frame says nothing.
    pub fn blank(&self) -> (r: bool)
        ensures
            r == self.is_blank(),
    {
        self.s == 0 && self.d.is_none() && self.sn.is_none()
    }

    /// A numbered event with a payload is handed on to subscribers.
    pub open spec fn is_event(&self) -> bool {
        self.s == WS_MESSAGE && self.d is Some
    }

    /// Whether this frame is handed on to subscribers once its turn comes.
    pub fn event(&self) -> (r: bool)
        ensures
            r == self.is_event(),
    {
        self.s == WS_MESSAGE && self.d.is_some()
    }
}

impl<T> Default for KookWSFrame<T> {
    fn default() -> (r: Self)
        ensures
            r.is_blank(),
    {
        KookWSFrame { s: 0, d: None, sn: None }
    }
}

/// What a message of the socket holds, as far as the session reads it.
#[derive(Debug)]
pub enum WireMessage {
    /// A frame as text.
    Text(String),
    /// A frame as text, deflated.
    Binary(Vec<u8>),
    /// The socket's own ping.
    Ping,
    /// The socket's own pong.
    Pong,
    /// The peer closes the connection.
    Close,
}

/// Why a message gave no frame.
#[derive(Debug, Clone, Copy, PartialEq, Eq, Structural)]
pub enum FrameError {
    /// The peer closed the connection.
    Closed,
    /// The bytes are no zlib stream of UTF-8 text.
    Inflate,
}

/// The text that a zlib stream inflates to; `None` where the bytes are no
/// zlib stream or what they hold is no UTF-8 text.
pub uninterp spec fn zlib_inflate(bytes: Seq<u8>) -> Option<Seq<char>>;

/// Inflates a zlib stream to text.
///
/// Trusted: reads `flate2::read::ZlibDecoder` over the bytes to its end
/// with `read_to_string`, and names what comes out `zlib_inflate`; an error
/// of the reader becomes `None`.
#[verifier::external_body]
fn inflate(bytes: &[u8]) -> (r: Option<String>)
    ensures
        r is Some <==> zlib_inflate(bytes@) is Some,
        r matches Some(s) ==> zlib_inflate(bytes@) == Some(s@),
{
    let mut z = flate2::read::ZlibDecoder::new(bytes);
    let mut s = String::new();
    match z.read_to_string(&mut s) {
        Ok(_) => Some(s),
        Err(_) => None,
    }
}

/// The text of the frame that a message carries, given what its bytes
/// inflate to where it is binary: text as it stands, binary inflated,
/// nothing for the socket's own ping and pong, an error for a close.
pub open spec fn frame_text_of(msg: WireMessage) -> Result<Option<Seq<char>>, FrameError> {
    match msg {
        WireMessage::Text(t) => Ok(Some(t@)),
        WireMessage::Binary(b) => match zlib_inflate(b@) {
            Some(t) => Ok(Some(t)),
            None => Err(FrameError::Inflate),
        },
        WireMessage::Ping => Ok(None),
        WireMessage::Pong => Ok(None),
        WireMessage::Close => Err(FrameError::Closed),
    }
}

/// The text of the frame that `msg` carries; `Ok(None)` where it carries
/// none.
pub fn frame_text(msg: WireMessage) -> (r: Result<Option<String>, FrameError>)
    ensures
        match frame_text_of(msg) {
            Ok(Some(t)) => r matches Ok(Some(s)) && s@ == t,
            Ok(None) => r matches Ok(None),
            Err(e) => r == Err::<Option<String>, FrameError>(e),
        },
{
    match msg {
        WireMessage::Text(t) => Ok(Some(t)),
        WireMessage::Binary(b) => match inflate(b.as_slice()) {
            Some(t) => Ok(Some(t)),
            None => Err(FrameError::Inflate),
        },
        WireMessage::Ping => Ok(None),
        WireMessage::Pong => Ok(None),
        WireMessage::Close => Err(FrameError::Closed),
    }
}

} // verus!
