//! The token-exchange request: where it is sent, with which credential, and
//! the JSON body that names the lifetime, scopes and delegates.
use vstd::prelude::*;

use crate::text::{decimal, json_array, json_quote, json_string, push_char, push_json_array};
use crate::values::{AccessToken, Delegates, Email, Lifetime, Scopes};

verus! {

/// Base address of the credential-issuing service.
pub const IAM_API: &'static str = "https://iamcredentials.googleapis.com/v1";

/// Seconds after which an exchange call is given up.
pub const EXCHANGE_TIMEOUT_SECS: u64 = 15;

/// Characters of an unreadable response kept for diagnosis.
pub const EXCERPT_CHARS: usize = 200;

/// A request to issue a token for an identity.
#[derive(Debug)]
pub struct TokenRequest {
    /// Where the request is posted.
    pub url: String,
    /// The ambient credential, sent as a bearer token.
    pub bearer: String,
    /// The JSON body.
    pub body: String,
}

/// What went wrong in an exchange.
#[derive(Debug)]
pub enum ExchangeError {
    /// No response came: connection failure or timeout.
    Transport(String),
    /// A response came that could not be read; `excerpt` is its beginning.
    Protocol { detail: String, excerpt: String },
}

pub open spec fn token_url(identity: Seq<char>) -> Seq<char> {
    IAM_API@ + "/projects/-/serviceAccounts/"@ + identity + ":generateAccessToken"@
}

/// The JSON body: `{"lifetime":"<n>s","scope":[...]}`, with `,"delegates":[...]`
/// before the closing brace when a chain is given.
pub open spec fn request_body(
    lifetime: u64,
    scopes: Seq<Seq<char>>,
    delegates: Option<Seq<Seq<char>>>,
) -> Seq<char> {
    "{\"lifetime\":"@ + json_string(decimal(lifetime as nat).push('s')) + ",\"scope\":"@ + json_array(scopes)
        + match delegates {
        Some(d) => ",\"delegates\":"@ + json_array(d),
        None => Seq::<char>::empty(),
    } + seq!['}']
}

pub open spec fn delegates_view(d: Option<Delegates>) -> Option<Seq<Seq<char>>> {
    match d {
        Some(x) => Some(x@),
        None => None,
    }
}

pub open spec fn excerpt_of(body: Seq<char>) -> Seq<char> {
    if body.len() <= EXCERPT_CHARS {
        body
    } else {
        body.subrange(0, EXCERPT_CHARS as int)
    }
}

/// Builds the exchange request for `identity`.
pub fn build_token_request(
    identity: &Email,
    credential: &AccessToken,
    scopes: &Scopes,
    lifetime: &Lifetime,
    delegates: &Option<Delegates>,
) -> (r: TokenRequest)
    ensures
        r.url@ == token_url(identity@),
        r.bearer@ == credential@,
        r.body@ == request_body(lifetime@, scopes@, delegates_view(*delegates)),
{
    let mut url = String::from_str(IAM_API);
    url.append("/projects/-/serviceAccounts/");
    url.append(identity.as_str());
    url.append(":generateAccessToken");

    let mut body = String::from_str("{\"lifetime\":");
    let text = lifetime.to_text();
    let quoted = json_quote(text.as_str());
    body.append(quoted.as_str());
    body.append(",\"scope\":");
    push_json_array(&mut body, scopes.items());
    let ghost mid = body@;
    match delegates {
        Some(d) => {
            body.append(",\"delegates\":");
            push_json_array(&mut body, d.items());
        },
        None => {},
    }
    let ghost tail = body@.subrange(mid.len() as int, body@.len() as int);
    assert(body@ =~= mid + tail);
    push_char(&mut body, '}');
    assert(body@ =~= request_body(lifetime@, scopes@, delegates_view(*delegates)));
    TokenRequest { url, bearer: credential.as_str().to_owned(), body }
}

impl ExchangeError {
    /// The fault for a response that could not be read: the reason and the
    /// response's first characters.
    pub fn protocol(detail: String, body: &str) -> (r: ExchangeError)
        ensures
            r matches ExchangeError::Protocol { detail: d, excerpt: e } && d@ == detail@ && e@
                == excerpt_of(body@),
    {
        let n = body.unicode_len();
        let k = if n <= EXCERPT_CHARS {
            n
        } else {
            EXCERPT_CHARS
        };
        let excerpt = body.substring_char(0, k).to_owned();
        assert(excerpt@ =~= excerpt_of(body@));
        ExchangeError::Protocol { detail, excerpt }
    }
}

} // verus!
