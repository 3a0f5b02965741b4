//! Replays a cache trace against a memcache server.

pub mod binary;
pub mod buffer;
pub mod conduct;
pub mod config;
pub mod decimal;
pub mod event;
pub mod history;
pub mod laws;
pub mod metrics;
pub mod pacing;
pub mod pool;
pub mod protocol;
pub mod queue;
pub mod reader;
pub mod request;
pub mod response;
pub mod split;
pub mod tally;
pub mod text;
pub mod values;
pub mod work;
pub mod worker;
