//! The envelope of the platform's answers and the addresses of its calls.
use crate::text::concat;
use vstd::prelude::*;

verus! {

/// Where the platform's interface lives.
pub const KOOK_BASE_API: &'static str = "https://www.kookapp.cn/api/v3";

/// The code of an answer that is no error.
pub const KOOK_OK_CODE: usize = 0;

/// The envelope of every answer of the platform.
#[derive(Debug)]
pub struct KookResponse<T> {
    pub code: usize,
    pub message: String,
    pub data: T,
}

/// Why a call to the platform gave nothing.
#[derive(Debug)]
pub enum ApiError {
    /// The request did not get through; the text says how.
    Transport(String),
    /// The answer is no envelope; the text says why.
    Decode(String),
    /// The platform answered with an error code; this is its message.
    Platform(String),
    /// The platform answered without an error but left out what was asked
    /// for.
    Incomplete,
}

/// The full address of the call at `url`.
pub fn prefix_url(url: &str) -> (r: String)
    ensures
        r@ == KOOK_BASE_API@ + url@,
{
    concat(KOOK_BASE_API, url)
}

/// The address `url` with the request for frames that are not deflated.
pub fn not_compress(url: &str) -> (r: String)
    ensures
        r@ == url@ + "?compress=0"@,
{
    concat(url, "?compress=0")
}

/// Whether the platform's answer is no error; the error carries the
/// answer's message.
pub fn is_http_ok<T>(kres: &KookResponse<T>) -> (r: Result<(), ApiError>)
    ensures
        kres.code == KOOK_OK_CODE ==> r is Ok,
        kres.code != KOOK_OK_CODE ==> (r matches Err(ApiError::Platform(m)) && m@
            == kres.message@),
{
    if kres.code != KOOK_OK_CODE {
        Err(ApiError::Platform(kres.message.clone()))
    } else {
        Ok(())
    }
}

} // verus!
