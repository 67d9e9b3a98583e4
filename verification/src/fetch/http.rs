//! The cap on the size of a feed's document.
use crate::fetch::xml::ParseError;
use vstd::prelude::*;

verus! {

/// The largest document that is read where no other cap is set: 4 MiB.
pub const DEFAULT_RESP_SIZE_LIMIT: u64 = 4194304;

/// How many redirects a pull follows.
pub const PULL_REDIRECT_LIMIT: usize = 5;

/// Seconds after which a pull is given up.
pub const PULL_TIMEOUT_SECS: u64 = 16;

/// Why a pull gave no feed.
#[derive(Debug)]
pub enum FeedError {
    /// The request failed; the text says how.
    Network(String),
    /// The document is no feed.
    Parsing(ParseError),
    /// The document is larger than the cap, which is given.
    TooLarge(u64),
}

/// The cap to pull with: the one that is configured, else the default.
pub fn resp_size_limit(max_feed_size: Option<u64>) -> (r: u64)
    ensures
        r == match max_feed_size {
            Some(n) => n,
            None => DEFAULT_RESP_SIZE_LIMIT,
        },
{
    match max_feed_size {
        Some(n) => n,
        None => DEFAULT_RESP_SIZE_LIMIT,
    }
}

/// Checks the length that a response announces against the cap. A response
/// that announces none passes.
pub fn check_content_length(announced: Option<u64>, limit: u64) -> (r: Result<(), FeedError>)
    ensures
        match announced {
            Some(len) if len > limit => r matches Err(FeedError::TooLarge(n)) && n == limit,
            _ => r is Ok,
        },
{
    match announced {
        Some(len) => {
            if len > limit {
                Err(FeedError::TooLarge(limit))
            } else {
                Ok(())
            }
        },
        None => Ok(()),
    }
}

/// Takes the next piece of a body: `received` bytes are there, `chunk` more
/// came. The new count where it is within the cap and the machine's range,
/// else the error that ends the pull.
pub fn accept_chunk(received: usize, chunk: usize, limit: u64) -> (r: Result<usize, FeedError>)
    ensures
        received + chunk <= limit && received + chunk <= usize::MAX ==> (r matches Ok(n) && n
            == received + chunk),
        received + chunk > limit || received + chunk > usize::MAX ==> (r matches Err(
            FeedError::TooLarge(n),
        ) && n == limit),
{
    match received.checked_add(chunk) {
        Some(total) => {
            if total as u64 > limit {
                Err(FeedError::TooLarge(limit))
            } else {
                Ok(total)
            }
        },
        None => Err(FeedError::TooLarge(limit)),
    }
}

} // verus!
