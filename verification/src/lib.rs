pub mod api;
pub mod conf;
pub mod data;
pub mod db;
pub mod db_laws;
pub mod fetch;
pub mod filter;
pub mod network_runtime;
pub mod push;
pub mod runtime;
pub mod text;
pub mod utils;
pub mod ws;
