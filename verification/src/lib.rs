//! Subscription and share-link handling, logs and connection control
//! for a VLESS / Trojan / Hysteria2 proxy client.
pub mod text;
pub mod model;
pub mod share_link;
pub mod subscription;
pub mod logs;
pub mod connection;
