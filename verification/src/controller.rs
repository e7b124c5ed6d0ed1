//! The account that plugs are controlled with.
use vstd::prelude::*;

verus! {

/// A client of the Tapo API.
#[verifier::external_type_specification]
#[verifier::external_body]
pub struct ExApiClient(tapo::ApiClient);

/// The client of an account with a connection timeout: what `tapo::ApiClient::new` makes of the
/// username and password after `with_timeout` has set the timeout.
pub uninterp spec fn client_of(
    username: Seq<char>,
    password: Seq<char>,
    timeout_seconds: u64,
) -> tapo::ApiClient;

/// A Tapo account.
#[derive(Debug, Clone, PartialEq, Eq)]
pub struct TapoCredentials {
    pub username: String,
    pub password: String,
}

/// What plugs are controlled with.
#[derive(Debug, Clone, PartialEq, Eq)]
pub struct TapoController {
    credentials: TapoCredentials,
    timeout_seconds: u64,
}

/// A controller as its account and its timeout.
pub struct TapoControllerView {
    pub username: Seq<char>,
    pub password: Seq<char>,
    pub timeout_seconds: u64,
}

impl View for TapoController {
    type V = TapoControllerView;

    closed spec fn view(&self) -> TapoControllerView {
        TapoControllerView {
            username: self.credentials.username@,
            password: self.credentials.password@,
            timeout_seconds: self.timeout_seconds,
        }
    }
}

/// `tapo::ApiClient::new` and `tapo::ApiClient::with_timeout`: a client that holds the username,
/// the password and the timeout, and no session yet. The client is determined by the three; what
/// comes of it on the network is left unsaid.
#[verifier::external_body]
fn api_client(username: &str, password: &str, timeout_seconds: u64) -> (r: tapo::ApiClient)
    ensures
        r == client_of(username@, password@, timeout_seconds),
{
    tapo::ApiClient::new(username, password).with_timeout(
        std::time::Duration::from_secs(timeout_seconds),
    )
}

impl TapoController {
    /// A controller for the account that waits half a minute for a plug.
    pub fn new(credentials: TapoCredentials) -> (r: Self)
        ensures
            r@ == (TapoControllerView {
                username: credentials.username@,
                password: credentials.password@,
                timeout_seconds: 30,
            }),
    {
        Self::with_timeout(credentials, 30)
    }

    /// A controller for the account that waits that long for a plug.
    pub fn with_timeout(credentials: TapoCredentials, timeout_seconds: u64) -> (r: Self)
        ensures
            r@ == (TapoControllerView {
                username: credentials.username@,
                password: credentials.password@,
                timeout_seconds,
            }),
    {
        TapoController { credentials, timeout_seconds }
    }

    /// A client for the account, with the controller's timeout.
    pub fn client(&self) -> (r: tapo::ApiClient)
        ensures
            r == client_of(self@.username, self@.password, self@.timeout_seconds),
    {
        api_client(&self.credentials.username, &self.credentials.password, self.timeout_seconds)
    }
}

} // verus!
