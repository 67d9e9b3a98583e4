//! What the platform's HTTP interface looks like: addresses and envelopes.
pub mod http;
pub mod envelope;

pub use self::envelope::{
    is_http_ok, not_compress, prefix_url, ApiError, KookResponse, KOOK_BASE_API, KOOK_OK_CODE,
};
