//! Short-lived impersonation tokens for a service identity, reusing a cached
//! token while it still covers the requested scopes and has not expired.

pub mod acquire;
pub mod exchange;
pub mod text;
pub mod timestamp;
pub mod values;

pub use acquire::{next, AcquireError, AcquireRequest, Acquisition, Event, Issued, Lookup, Step, StoredSecret};
pub use exchange::{ExchangeError, TokenRequest};
pub use timestamp::Timestamp;
pub use values::{AccessToken, Delegates, Email, GcloudConfig, Lifetime, Scopes};
