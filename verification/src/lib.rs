//! A small text-storage service: routing, account rules, per-user text
//! storage and the client's line-based text reader, with their contracts.

pub mod client;
pub mod crypto;
pub mod exchange;
pub mod message;

pub mod laws;
pub mod names;
pub mod order;
pub mod routes;
pub mod service;
pub mod store;
pub mod text;

pub use client::{join_lines, read_text, text_line};
pub use exchange::{reply_value, request_url, ReplyBody};
pub use message::{error, Body, Data, JsonField, Reply};
pub use names::valid_name;
pub use routes::{route_error, routes};
pub use service::{Service, User};
pub use store::NameMap;
