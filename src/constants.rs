//! Addresses, message names and endpoint paths of the exchange.

use vstd::prelude::*;

verus! {

/// The WebSocket gateway.
pub const WSS_URL: &'static str = "wss://api.ndax.io/WSGateway";

/// The base of the REST endpoints.
pub const REST_URL: &'static str = "https://api.ndax.io:8443/AP/";

/// The endpoint that lists the exchange's assets.
pub const ASSETS: &'static str = "Assets";

/// Name of the order book subscription, whose reply is a snapshot.
pub const SUBSCRIBE: &'static str = "SubscribeLevel2";

/// Name of an order book diff.
pub const UPDATE: &'static str = "Level2UpdateEvent";

/// Name of the trade subscription and of its acknowledgement.
pub const SUBSCRIBE_TRADES: &'static str = "SubscribeTrades";

/// Name of a trade update.
pub const UPDATE_TRADES: &'static str = "TradeDataUpdateEvent";

/// The endpoint that lists open orders.
pub const GET_OPEN_ORDERS_PATH: &'static str = "GetOpenOrders";

/// The endpoint that gives a user's accounts.
pub const USER_ACCOUNT_INFOS_PATH_URL: &'static str = "GetUserAccountInfos";

/// The endpoint that authenticates a user.
pub const AUTHENTICATE_USER_PATH_URL: &'static str = "AuthenticateUser";

/// The endpoint that cancels all orders of an account.
pub const CANCEL_ALL_ORDERS_PATH_URL: &'static str = "CancelAllOrders";

} // verus!
