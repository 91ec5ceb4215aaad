//! The shapes of the authorization handshake.

use vstd::prelude::*;

verus! {

/// Asks for a request token.
pub struct RequestTokenRequest<'a> {
    pub consumer_key: &'a str,
    pub redirect_uri: &'a str,
    /// Returned unchanged in all later answers of the handshake.
    pub state: Option<&'a str>,
}

/// The answer to [`RequestTokenRequest`].
#[derive(Debug)]
pub struct AuthorizeResponse {
    pub code: String,
    pub state: Option<String>,
}

/// Trades an authorized request token for an access token.
#[derive(Debug)]
pub struct PocketLoginRequest {
    pub consumer_key: String,
    pub code: String,
}

/// The answer to [`PocketLoginRequest`].
#[derive(Debug)]
pub struct PocketLoginResponse {
    pub access_token: String,
    pub username: String,
}

/// The address at which the user authorizes a request token.
pub open spec fn authorize_address(request_token: Seq<char>, redirect_uri: Seq<char>) -> Seq<char> {
    "https://getpocket.com/auth/authorize?request_token="@ + request_token + "&redirect_uri="@
        + redirect_uri
}

/// The address that the user has to visit to authorize a request token, after
/// which the remote sends the browser on to `redirect_uri`. Both parts go into
/// the address as they are.
pub fn redirection_uri(request_token: &str, redirect_uri: &str) -> (address: String)
    ensures
        address@ == authorize_address(request_token@, redirect_uri@),
{
    let mut address = "https://getpocket.com/auth/authorize?request_token=".to_owned();
    address.append(request_token);
    address.append("&redirect_uri=");
    address.append(redirect_uri);
    address
}

} // verus!
