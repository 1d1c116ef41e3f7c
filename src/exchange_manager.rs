//! The public REST endpoints, which need no authentication.

use vstd::prelude::*;

use crate::constants::ASSETS;
use crate::order_manager::{endpoint_url, RestRequest};

verus! {

/// Makes the requests of the exchange's public endpoints.
pub struct ExchangeManager {
    api_url: String,
}

impl View for ExchangeManager {
    type V = Seq<char>;

    /// The base address of the endpoints.
    closed spec fn view(&self) -> Seq<char> {
        self.api_url@
    }
}

impl ExchangeManager {
    /// A manager for the endpoints under `api_url`.
    pub fn new(api_url: &str) -> (r: ExchangeManager)
        ensures
            r@ == api_url@,
    {
        ExchangeManager { api_url: String::from_str(api_url) }
    }

    /// The request that lists the exchange's assets: no query, no headers.
    pub fn get_assets(&self) -> (r: RestRequest)
        ensures
            r.url@ == self@ + ASSETS@,
            r.query@.len() == 0,
            r.headers@.len() == 0,
    {
        RestRequest { url: endpoint_url(self.api_url.as_str(), ASSETS), query: Vec::new(), headers: Vec::new() }
    }
}

} // verus!
