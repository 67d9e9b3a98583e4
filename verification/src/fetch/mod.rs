//! Feeds as they are pulled: their posts and the cap on their size.
pub mod feed;
pub mod http;
pub mod item;
pub mod xml;

pub use self::feed::{ChannelImage, Feed};
pub use self::http::{
    accept_chunk, check_content_length, resp_size_limit, FeedError, DEFAULT_RESP_SIZE_LIMIT,
};
pub use self::item::FeedPost;
pub use self::xml::ParseError;
