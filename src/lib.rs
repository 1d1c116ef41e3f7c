//! Client-side core for an exchange trading gateway: the message envelope
//! codec, a replica of the exchange's order book maintained from snapshots and
//! incremental diffs, trade decoding, and request signing.

pub mod book_laws;
pub mod constants;
pub mod decimal;
pub mod envelope;
pub mod exchange_manager;
pub mod json;
pub mod order_book;
pub mod order_manager;
pub mod render;
pub mod session;
pub mod text;
pub mod trade_event;
