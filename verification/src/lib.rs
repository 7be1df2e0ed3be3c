pub mod addr;
pub mod bytes;
pub mod cache;
pub mod dns;
pub mod failover;
pub mod fallback;
pub mod http_inbound;
pub mod lru_store;
pub mod rng;
pub mod wire;
