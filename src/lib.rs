//! A reverse-proxy response cache whose entries live for a fixed time-to-live,
//! together with the decisions the proxy makes around it for each request.

pub mod cache;
pub mod laws;
pub mod proxy;
