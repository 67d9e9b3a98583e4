//! The calls that the bot makes to the platform, as far as they are
//! decided here: what is asked, and what an answer is taken to say.
use crate::api::envelope::{is_http_ok, ApiError, KookResponse};
use crate::push::OutboundMessage;
use vstd::prelude::*;

verus! {

/// The call that gives the gateway.
pub const GATEWAY_URL: &'static str = "/gateway/index";

/// The field of the gateway call's answer that holds the address.
pub const GATEWAY_DATA_KEY: &'static str = "url";

/// The call that sends a message.
pub const MESSAGE_CREATE_URL: &'static str = "/message/create";

/// The type of a message in the platform's markdown.
pub const MESSAGE_TYPE_KMAEKDOWN: usize = 9;

/// The call that tells the bot who it is.
pub const USER_ME_URL: &'static str = "/user/me";

/// The shortest time between the starts of two calls, in milliseconds.
pub const REQUEST_GAP_MS: u64 = 200;

/// Who the bot is on the platform.
#[derive(Debug)]
pub struct UserMe {
    pub id: String,
    pub username: String,
    pub identify_num: String,
    pub online: bool,
    pub status: i64,
    pub avatar: String,
    pub bot: bool,
    pub mobile_verified: bool,
    pub client_id: String,
    pub mobile_prefix: String,
    pub mobile: String,
    pub invited_count: i64,
}

/// The body of the call that sends a message.
#[derive(Debug)]
pub struct MessageRequest {
    pub content: String,
    pub target_id: String,
    pub typ: Option<usize>,
    pub quote: Option<String>,
}

/// The header that carries the bot's token: its value.
pub fn authorization(token: &str) -> (r: String)
    ensures
        r@ == "Bot "@ + token@,
{
    crate::text::concat("Bot ", token)
}

/// What the answer to the gateway call says: the address it carries under
/// `url`, where the platform reports no error and the address is there.
pub fn gateway_of(kres: KookResponse<Option<String>>) -> (r: Result<String, ApiError>)
    ensures
        kres.code != 0 ==> (r matches Err(ApiError::Platform(m)) && m@ == kres.message@),
        kres.code == 0 ==> match kres.data {
            Some(url) => r == Ok::<String, ApiError>(url),
            None => r matches Err(ApiError::Incomplete),
        },
{
    match is_http_ok(&kres) {
        Ok(_) => {},
        Err(e) => {
            return Err(e);
        },
    }
    match kres.data {
        Some(url) => Ok(url),
        None => Err(ApiError::Incomplete),
    }
}

/// The body of the call that sends `message`.
pub fn message_create(message: OutboundMessage) -> (r: MessageRequest)
    ensures
        r.content == message.content,
        r.target_id == message.target_id,
        r.typ is None,
        r.quote == message.quote,
{
    MessageRequest {
        content: message.content,
        target_id: message.target_id,
        typ: None,
        quote: message.quote,
    }
}

} // verus!
