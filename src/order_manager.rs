//! Signed REST requests: the request-signing scheme, the authentication
//! headers, and the requests of the private endpoints.

use vstd::prelude::*;

use hmac::{Hmac, Mac, NewMac};
use sha2::Sha256;

use crate::constants::{
    AUTHENTICATE_USER_PATH_URL, CANCEL_ALL_ORDERS_PATH_URL, GET_OPEN_ORDERS_PATH,
    USER_ACCOUNT_INFOS_PATH_URL,
};
use crate::text::{hex_digit, nat_text, u128_text};

verus! {

/// What `hmac_sha256_digest` gives for a key and a message.
pub uninterp spec fn hmac_sha256(key: Seq<char>, message: Seq<char>) -> Seq<u8>;

/// Relies on hmac's `Hmac<Sha256>` (`new_from_slice`, `update`, `finalize`):
/// the HMAC-SHA256 of the UTF-8 bytes of `message`, keyed by the UTF-8 bytes
/// of `key`; a SHA-256 output is 32 bytes. `Hmac::new_from_slice` takes a key
/// of any length and does not fail.
#[verifier::external_body]
fn hmac_sha256_digest(key: &str, message: &str) -> (r: Vec<u8>)
    ensures
        r@ == hmac_sha256(key@, message@),
        r@.len() == 32,
{
    let mut mac = Hmac::<Sha256>::new_from_slice(key.as_bytes()).expect("HMAC takes any key length");
    mac.update(message.as_bytes());
    mac.finalize().into_bytes().to_vec()
}

/// Two lowercase hexadecimal digits for each byte of `b`, high half first.
pub open spec fn hex_text(b: Seq<u8>) -> Seq<char>
    decreases b.len(),
{
    if b.len() == 0 {
        Seq::empty()
    } else {
        hex_text(b.drop_last()) + seq![
            hex_digit((b.last() / 16) as nat),
            hex_digit((b.last() % 16) as nat),
        ]
    }
}

/// Every character of `s` is a lowercase hexadecimal digit.
pub open spec fn is_lower_hex(s: Seq<char>) -> bool {
    forall|i: int| 0 <= i < s.len() ==> ('0' <= #[trigger] s[i] <= '9') || ('a' <= s[i] <= 'f')
}

proof fn lemma_hex_text_shape(b: Seq<u8>)
    ensures
        hex_text(b).len() == 2 * b.len(),
        is_lower_hex(hex_text(b)),
    decreases b.len(),
{
    if b.len() > 0 {
        lemma_hex_text_shape(b.drop_last());
        let t = hex_text(b.drop_last());
        let pair = seq![hex_digit((b.last() / 16) as nat), hex_digit((b.last() % 16) as nat)];
        assert(hex_text(b) == t + pair);
        assert forall|i: int| 0 <= i < hex_text(b).len() implies ('0' <= #[trigger] hex_text(b)[i] <= '9') || (
        'a' <= hex_text(b)[i] <= 'f') by {
            if i < t.len() {
                assert(hex_text(b)[i] == t[i]);
            } else {
                assert(hex_text(b)[i] == pair[i - t.len()]);
            }
        }
    }
}

/// Relies on hex::encode: two lowercase hexadecimal digits for each byte, in
/// order.
#[verifier::external_body]
fn to_hex(b: &Vec<u8>) -> (r: String)
    ensures
        r@ == hex_text(b@),
{
    hex::encode(b)
}

#[verifier::external_type_specification]
#[verifier::external_body]
pub struct ExSystemTime(std::time::SystemTime);

/// Relies on std's `SystemTime::now`: the system clock's current reading.
/// Nothing is known of it.
#[verifier::external_body]
fn clock_now() -> (r: std::time::SystemTime) {
    std::time::SystemTime::now()
}

/// Relies on std's `SystemTime::duration_since`, measured from `UNIX_EPOCH`:
/// the time from the Unix epoch to `t`, or `None` when `t` is earlier.
#[verifier::external_body]
fn since_unix_epoch(t: &std::time::SystemTime) -> (r: Option<std::time::Duration>) {
    t.duration_since(std::time::UNIX_EPOCH).ok()
}

/// Relies on std's `Duration::as_millis`: the whole milliseconds in `d`.
#[verifier::external_body]
fn whole_millis(d: &std::time::Duration) -> (r: u128) {
    d.as_millis()
}

/// The text that is signed: nonce, user id and API key, with no separator.
pub open spec fn signing_message(nonce: Seq<char>, user_id: Seq<char>, api_key: Seq<char>) -> Seq<
    char,
> {
    nonce + user_id + api_key
}

/// The signature of a request: the hex-encoded HMAC-SHA256 of the signing
/// message, keyed by the shared secret.
pub open spec fn signature_of(
    nonce: Seq<char>,
    user_id: Seq<char>,
    api_key: Seq<char>,
    secret: Seq<char>,
) -> Seq<char> {
    hex_text(hmac_sha256(secret, signing_message(nonce, user_id, api_key)))
}

/// `a` followed by `b`.
pub(crate) fn joined(a: &str, b: &str) -> (r: String)
    ensures
        r@ == a@ + b@,
{
    let mut s = String::new();
    s.append(a);
    s.append(b);
    proof {
        assert(s@ =~= a@ + b@);
    }
    s
}

/// Signs a request: the hex-encoded HMAC-SHA256 of `nonce ++ user_id ++
/// api_key`, keyed by `secret`.
pub fn sign(nonce: &str, user_id: &str, api_key: &str, secret: &str) -> (r: String)
    ensures
        r@ == signature_of(nonce@, user_id@, api_key@, secret@),
        r@.len() == 64,
        is_lower_hex(r@),
{
    let head = joined(nonce, user_id);
    let message = joined(head.as_str(), api_key);
    let digest = hmac_sha256_digest(secret, message.as_str());
    proof {
        lemma_hex_text_shape(digest@);
    }
    to_hex(&digest)
}

/// The signature is a function of its four inputs: equal inputs give the
/// same hex string.
pub proof fn lemma_sign_deterministic(
    nonce: Seq<char>,
    user_id: Seq<char>,
    api_key: Seq<char>,
    secret: Seq<char>,
    nonce2: Seq<char>,
    user_id2: Seq<char>,
    api_key2: Seq<char>,
    secret2: Seq<char>,
)
    requires
        nonce == nonce2,
        user_id == user_id2,
        api_key == api_key2,
        secret == secret2,
    ensures
        signature_of(nonce, user_id, api_key, secret) == signature_of(
            nonce2,
            user_id2,
            api_key2,
            secret2,
        ),
{
}

/// Changing one of nonce, user id and API key, the other two kept, changes
/// the signed message (what the keyed hash then does with it is not stated
/// here).
pub proof fn lemma_single_change_changes_message(
    nonce: Seq<char>,
    user_id: Seq<char>,
    api_key: Seq<char>,
    nonce2: Seq<char>,
    user_id2: Seq<char>,
    api_key2: Seq<char>,
)
    requires
        (nonce != nonce2 && user_id == user_id2 && api_key == api_key2) || (nonce == nonce2
            && user_id != user_id2 && api_key == api_key2) || (nonce == nonce2 && user_id
            == user_id2 && api_key != api_key2),
    ensures
        signing_message(nonce, user_id, api_key) != signing_message(nonce2, user_id2, api_key2),
{
    let m = signing_message(nonce, user_id, api_key);
    let m2 = signing_message(nonce2, user_id2, api_key2);
    if m == m2 {
        let a = nonce.len() as int;
        let b = a + user_id.len();
        assert(m.len() == nonce.len() + user_id.len() + api_key.len());
        assert(m2.len() == nonce2.len() + user_id2.len() + api_key2.len());
        assert(nonce.len() == nonce2.len() && user_id.len() == user_id2.len());
        assert(nonce =~= m.subrange(0, a));
        assert(nonce2 =~= m2.subrange(0, a));
        assert(user_id =~= m.subrange(a, b));
        assert(user_id2 =~= m2.subrange(a, b));
        assert(api_key =~= m.subrange(b, m.len() as int));
        assert(api_key2 =~= m2.subrange(b, m2.len() as int));
    }
}

/// Header carrying the nonce.
pub const NONCE_HEADER: &'static str = "Nonce";

/// Header carrying the API key.
pub const API_KEY_HEADER: &'static str = "APIKey";

/// Header carrying the signature.
pub const SIGNATURE_HEADER: &'static str = "Signature";

/// Header carrying the user id.
pub const USER_ID_HEADER: &'static str = "UserId";

/// Header naming the body's media type.
pub const CONTENT_TYPE_HEADER: &'static str = "Content-Type";

/// The media type of every request.
pub const JSON_MEDIA_TYPE: &'static str = "application/json";

/// Query parameter naming the order management system.
pub const OMS_ID_PARAM: &'static str = "OMSId";

/// The order management system used.
pub const OMS_ID: &'static str = "1";

/// Query parameter carrying an account id.
pub const ACCOUNT_ID_PARAM: &'static str = "AccountId";

/// Query parameter carrying a user name.
pub const USER_NAME_PARAM: &'static str = "UserName";

/// Why authentication headers could not be made.
#[derive(Clone, Copy, Debug, PartialEq, Eq, Structural)]
pub enum AuthError {
    /// The system clock reads before the Unix epoch, so there is no nonce.
    SigningFailure,
}

/// A REST call, ready for the HTTP transport: the address, the query
/// parameters and the headers, each a name with its value.
#[derive(Debug)]
pub struct RestRequest {
    pub url: String,
    pub query: Vec<(String, String)>,
    pub headers: Vec<(String, String)>,
}

/// The session's credentials, as values.
pub struct CredentialsModel {
    pub api_url: Seq<char>,
    pub api_key: Seq<char>,
    pub secret: Seq<char>,
    pub user_id: Seq<char>,
    pub account_name: Seq<char>,
    pub account_id: Seq<char>,
}

/// The authentication headers for `nonce`: nonce, API key, signature and
/// user id.
pub open spec fn auth_headers_of(c: CredentialsModel, nonce: Seq<char>) -> Seq<(Seq<char>, Seq<char>)> {
    seq![
        (NONCE_HEADER@, nonce),
        (API_KEY_HEADER@, c.api_key),
        (SIGNATURE_HEADER@, signature_of(nonce, c.user_id, c.api_key, c.secret)),
        (USER_ID_HEADER@, c.user_id),
    ]
}

/// The headers of every request.
pub open spec fn base_headers() -> Seq<(Seq<char>, Seq<char>)> {
    seq![(CONTENT_TYPE_HEADER@, JSON_MEDIA_TYPE@)]
}

/// Holds the session's credentials and makes the signed requests of the
/// private endpoints.
pub struct OrderManager {
    api_url: String,
    api_key: String,
    signature: String,
    user_id: String,
    account_name: String,
    account_id: String,
}

impl View for OrderManager {
    type V = CredentialsModel;

    closed spec fn view(&self) -> CredentialsModel {
        CredentialsModel {
            api_url: self.api_url@,
            api_key: self.api_key@,
            secret: self.signature@,
            user_id: self.user_id@,
            account_name: self.account_name@,
            account_id: self.account_id@,
        }
    }
}

/// A copy of `s`.
fn owned(s: &str) -> (r: String)
    ensures
        r@ == s@,
{
    String::from_str(s)
}

/// A name with its value.
fn pair(name: &str, value: &str) -> (r: (String, String))
    ensures
        r.0@ == name@,
        r.1@ == value@,
{
    (owned(name), owned(value))
}

/// The address of the endpoint `path` under `base`.
pub fn endpoint_url(base: &str, path: &str) -> (r: String)
    ensures
        r@ == base@ + path@,
{
    joined(base, path)
}

impl OrderManager {
    /// A manager for the given endpoint base and credentials. `signature` is
    /// the shared secret that keys the request signatures.
    pub fn new(
        api_url: &str,
        api_key: &str,
        signature: &str,
        user_id: &str,
        account_name: &str,
        account_id: &str,
    ) -> (r: OrderManager)
        ensures
            r@ == (CredentialsModel {
                api_url: api_url@,
                api_key: api_key@,
                secret: signature@,
                user_id: user_id@,
                account_name: account_name@,
                account_id: account_id@,
            }),
    {
        OrderManager {
            api_url: owned(api_url),
            api_key: owned(api_key),
            signature: owned(signature),
            user_id: owned(user_id),
            account_name: owned(account_name),
            account_id: owned(account_id),
        }
    }

    /// A fresh nonce: the current time in whole milliseconds since the Unix
    /// epoch, in decimal; `None` when the clock reads before the epoch.
    pub fn generate_nonce(&self) -> (r: Option<String>)
        ensures
            r matches Some(t) ==> exists|n: nat| t@ == nat_text(n),
    {
        let now = clock_now();
        match since_unix_epoch(&now) {
            Some(elapsed) => Some(u128_text(whole_millis(&elapsed))),
            None => None,
        }
    }

    /// The headers of every request: the JSON content type.
    pub fn get_headers(&self) -> (r: Vec<(String, String)>)
        ensures
            r.deep_view() == base_headers(),
    {
        let mut h: Vec<(String, String)> = Vec::new();
        h.push(pair(CONTENT_TYPE_HEADER, JSON_MEDIA_TYPE));
        proof {
            assert(h.deep_view() =~= base_headers());
        }
        h
    }

    /// The authentication headers for a given nonce.
    pub fn auth_headers_at(&self, nonce: &str) -> (r: Vec<(String, String)>)
        ensures
            r.deep_view() == auth_headers_of(self@, nonce@),
            r.deep_view()[2].1.len() == 64,
            is_lower_hex(r.deep_view()[2].1),
    {
        let signature = sign(nonce, self.user_id.as_str(), self.api_key.as_str(), self.signature.as_str());
        let mut h: Vec<(String, String)> = Vec::new();
        h.push(pair(NONCE_HEADER, nonce));
        h.push(pair(API_KEY_HEADER, self.api_key.as_str()));
        h.push((owned(SIGNATURE_HEADER), signature));
        h.push(pair(USER_ID_HEADER, self.user_id.as_str()));
        proof {
            assert(h.deep_view() =~= auth_headers_of(self@, nonce@));
        }
        h
    }

    /// The authentication headers with a fresh nonce, or `SigningFailure`
    /// when the clock gives none.
    pub fn generate_auth_dict(&self) -> (r: Result<Vec<(String, String)>, AuthError>)
        ensures
            r matches Ok(h) ==> (exists|n: nat| h.deep_view() == auth_headers_of(self@, nat_text(n)))
                && h.deep_view()[2].1.len() == 64 && is_lower_hex(h.deep_view()[2].1),
    {
        match self.generate_nonce() {
            Some(nonce) => Ok(self.auth_headers_at(nonce.as_str())),
            None => Err(AuthError::SigningFailure),
        }
    }

    /// The headers of a private request: the base headers, then the
    /// authentication headers for `nonce`.
    pub fn get_auth_headers(&self, nonce: &str) -> (r: Vec<(String, String)>)
        ensures
            r.deep_view() == base_headers() + auth_headers_of(self@, nonce@),
    {
        let mut h = self.get_headers();
        let mut auth = self.auth_headers_at(nonce);
        h.append(&mut auth);
        proof {
            assert(h.deep_view() =~= base_headers() + auth_headers_of(self@, nonce@));
        }
        h
    }

    /// The request that authenticates the user, signed with `nonce`.
    pub fn authenticate(&self, nonce: &str) -> (r: RestRequest)
        ensures
            r.url@ == self@.api_url + AUTHENTICATE_USER_PATH_URL@,
            r.query.deep_view() == seq![
                (API_KEY_HEADER@, self@.api_key),
                (SIGNATURE_HEADER@, self@.user_id),
                (USER_ID_HEADER@, self@.account_name),
                (NONCE_HEADER@, nonce@),
            ],
            r.headers.deep_view() == base_headers() + auth_headers_of(self@, nonce@),
    {
        let mut query: Vec<(String, String)> = Vec::new();
        query.push(pair(API_KEY_HEADER, self.api_key.as_str()));
        query.push(pair(SIGNATURE_HEADER, self.user_id.as_str()));
        query.push(pair(USER_ID_HEADER, self.account_name.as_str()));
        query.push(pair(NONCE_HEADER, nonce));
        proof {
            assert(query.deep_view() =~= seq![
                (API_KEY_HEADER@, self@.api_key),
                (SIGNATURE_HEADER@, self@.user_id),
                (USER_ID_HEADER@, self@.account_name),
                (NONCE_HEADER@, nonce@),
            ]);
        }
        RestRequest {
            url: endpoint_url(self.api_url.as_str(), AUTHENTICATE_USER_PATH_URL),
            query,
            headers: self.get_auth_headers(nonce),
        }
    }

    /// The request for the user's account information, signed with `nonce`.
    pub fn get_account_id(&self, nonce: &str) -> (r: RestRequest)
        ensures
            r.url@ == self@.api_url + USER_ACCOUNT_INFOS_PATH_URL@,
            r.query.deep_view() == seq![
                (OMS_ID_PARAM@, OMS_ID@),
                (USER_ID_HEADER@, self@.user_id),
                (USER_NAME_PARAM@, self@.account_name),
            ],
            r.headers.deep_view() == base_headers() + auth_headers_of(self@, nonce@),
    {
        let mut query: Vec<(String, String)> = Vec::new();
        query.push(pair(OMS_ID_PARAM, OMS_ID));
        query.push(pair(USER_ID_HEADER, self.user_id.as_str()));
        query.push(pair(USER_NAME_PARAM, self.account_name.as_str()));
        proof {
            assert(query.deep_view() =~= seq![
                (OMS_ID_PARAM@, OMS_ID@),
                (USER_ID_HEADER@, self@.user_id),
                (USER_NAME_PARAM@, self@.account_name),
            ]);
        }
        RestRequest {
            url: endpoint_url(self.api_url.as_str(), USER_ACCOUNT_INFOS_PATH_URL),
            query,
            headers: self.get_auth_headers(nonce),
        }
    }

    /// The query of the account-scoped requests: the order management
    /// system and the account id.
    fn account_query(&self) -> (r: Vec<(String, String)>)
        ensures
            r.deep_view() == seq![(OMS_ID_PARAM@, OMS_ID@), (ACCOUNT_ID_PARAM@, self@.account_id)],
    {
        let mut query: Vec<(String, String)> = Vec::new();
        query.push(pair(OMS_ID_PARAM, OMS_ID));
        query.push(pair(ACCOUNT_ID_PARAM, self.account_id.as_str()));
        proof {
            assert(query.deep_view() =~= seq![
                (OMS_ID_PARAM@, OMS_ID@),
                (ACCOUNT_ID_PARAM@, self@.account_id),
            ]);
        }
        query
    }

    /// The request that cancels every order of the account, signed with
    /// `nonce`.
    pub fn cancel_all_orders(&self, nonce: &str) -> (r: RestRequest)
        ensures
            r.url@ == self@.api_url + CANCEL_ALL_ORDERS_PATH_URL@,
            r.query.deep_view() == seq![
                (OMS_ID_PARAM@, OMS_ID@),
                (ACCOUNT_ID_PARAM@, self@.account_id),
            ],
            r.headers.deep_view() == base_headers() + auth_headers_of(self@, nonce@),
    {
        RestRequest {
            url: endpoint_url(self.api_url.as_str(), CANCEL_ALL_ORDERS_PATH_URL),
            query: self.account_query(),
            headers: self.get_auth_headers(nonce),
        }
    }

    /// The request that lists the account's open orders, signed with `nonce`.
    pub fn get_open_orders(&self, nonce: &str) -> (r: RestRequest)
        ensures
            r.url@ == self@.api_url + GET_OPEN_ORDERS_PATH@,
            r.query.deep_view() == seq![
                (OMS_ID_PARAM@, OMS_ID@),
                (ACCOUNT_ID_PARAM@, self@.account_id),
            ],
            r.headers.deep_view() == base_headers() + auth_headers_of(self@, nonce@),
    {
        RestRequest {
            url: endpoint_url(self.api_url.as_str(), GET_OPEN_ORDERS_PATH),
            query: self.account_query(),
            headers: self.get_auth_headers(nonce),
        }
    }
}

} // verus!
