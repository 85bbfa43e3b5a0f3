//! Deciding between a cached token and a fresh exchange.
//!
//! An `Acquisition` is a small state machine. Each `Step` it returns names the
//! outside work to do next (read the store, call the exchange, write the
//! store); the caller performs it and hands back what came of it as an `Event`.
//! The store is not locked: two acquisitions for one identity may race, and
//! the last secret written wins. Cached secrets are never deleted here.
use vstd::prelude::*;

use crate::exchange::{build_token_request, delegates_view, request_body, token_url, ExchangeError, TokenRequest};
use crate::timestamp::{earlier, Timestamp};
use crate::values::{lemma_scopes_equal_iff_same_set, AccessToken, Delegates, Email, Lifetime, Scopes};

verus! {

/// The record kept in the store for one identity.
#[derive(Debug)]
pub struct StoredSecret {
    pub access_token: AccessToken,
    pub scopes: Scopes,
    pub expire_time: Timestamp,
}

/// A freshly issued token.
#[derive(Debug)]
pub struct Issued {
    pub access_token: AccessToken,
    pub expire_time: Timestamp,
}

/// What a store read found.
#[derive(Debug)]
pub enum Lookup {
    Found(StoredSecret),
    Missing,
    /// The store failed for another reason.
    Fault(String),
}

/// What the caller hands back after doing a step.
#[derive(Debug)]
pub enum Event {
    /// The store was read at time `now`.
    Looked(Lookup, Timestamp),
    Exchanged(Result<Issued, ExchangeError>),
    Saved(Result<(), String>),
}

/// Why an acquisition failed.
#[derive(Debug)]
pub enum AcquireError {
    Store(String),
    Exchange(ExchangeError),
    /// An event came that the acquisition was not waiting for.
    OutOfOrder,
}

/// The next piece of outside work.
#[derive(Debug)]
pub enum Step {
    /// Read the identity's secret from the store.
    Load,
    /// Call the exchange with the request's `token_request`.
    Exchange,
    /// Write this secret for the identity.
    Save(StoredSecret),
    /// The acquisition is over.
    Done(Result<AccessToken, AcquireError>),
}

/// What the caller asks for.
#[derive(Debug)]
pub struct AcquireRequest {
    pub identity: Email,
    pub scopes: Scopes,
    pub lifetime: Lifetime,
    pub credential: AccessToken,
    /// Carried into the exchange only: a change of delegates alone does not
    /// make a cached secret stale.
    pub delegates: Option<Delegates>,
}

#[derive(Debug)]
pub enum Acquisition {
    /// Waiting for the store read.
    Lookup(AcquireRequest),
    /// Waiting for the exchange.
    Exchange(AcquireRequest),
    /// Waiting for the store write; the token to hand out once it is done.
    Save(AccessToken),
    Finished,
}

/// A cached secret may be handed out: it holds exactly the requested scopes
/// and expires strictly after `now`.
pub open spec fn is_fresh(secret: StoredSecret, scopes: Scopes, now: Timestamp) -> bool {
    secret.scopes@ == scopes@ && earlier(now, secret.expire_time)
}

/// The secret persisted after an exchange: the issued token, the requested scopes.
pub open spec fn issued_secret(req: AcquireRequest, issued: Issued) -> StoredSecret {
    StoredSecret { access_token: issued.access_token, scopes: req.scopes, expire_time: issued.expire_time }
}

/// One move of the machine: the new state and the step to do next.
pub open spec fn next(a: Acquisition, e: Event) -> (Acquisition, Step) {
    match a {
        Acquisition::Lookup(req) => match e {
            Event::Looked(Lookup::Found(c), now) => if is_fresh(c, req.scopes, now) {
                (Acquisition::Finished, Step::Done(Ok(c.access_token)))
            } else {
                (Acquisition::Exchange(req), Step::Exchange)
            },
            Event::Looked(Lookup::Missing, _) => (Acquisition::Exchange(req), Step::Exchange),
            Event::Looked(Lookup::Fault(f), _) => (Acquisition::Finished, Step::Done(Err(AcquireError::Store(f)))),
            _ => (Acquisition::Finished, Step::Done(Err(AcquireError::OutOfOrder))),
        },
        Acquisition::Exchange(req) => match e {
            Event::Exchanged(Ok(issued)) => (
                Acquisition::Save(issued.access_token),
                Step::Save(issued_secret(req, issued)),
            ),
            Event::Exchanged(Err(x)) => (Acquisition::Finished, Step::Done(Err(AcquireError::Exchange(x)))),
            _ => (Acquisition::Finished, Step::Done(Err(AcquireError::OutOfOrder))),
        },
        Acquisition::Save(token) => match e {
            Event::Saved(Ok(_)) => (Acquisition::Finished, Step::Done(Ok(token))),
            Event::Saved(Err(f)) => (Acquisition::Finished, Step::Done(Err(AcquireError::Store(f)))),
            _ => (Acquisition::Finished, Step::Done(Err(AcquireError::OutOfOrder))),
        },
        Acquisition::Finished => (Acquisition::Finished, Step::Done(Err(AcquireError::OutOfOrder))),
    }
}

impl StoredSecret {
    /// The same token, scopes and expiry.
    pub open spec fn same_record(&self, other: &StoredSecret) -> bool {
        &&& self.access_token@ == other.access_token@
        &&& self.scopes@ == other.scopes@
        &&& self.expire_time == other.expire_time
    }

    /// The record as plain values: token, scopes in code-point order, and the
    /// expiry's seconds and nanoseconds.
    pub fn to_parts(&self) -> (r: (String, Vec<String>, i64, u32))
        ensures
            r.0@ == self.access_token@,
            r.1@.map_values(|x: String| x@) == self.scopes@,
            r.2 == self.expire_time.secs,
            r.3 == self.expire_time.nanos,
    {
        let token = self.access_token.as_str().to_owned();
        let items = self.scopes.items();
        let scopes = items.clone();
        assert(scopes@.map_values(|x: String| x@) =~= items@.map_values(|x: String| x@));
        (token, scopes, self.expire_time.secs, self.expire_time.nanos)
    }

    /// A record from plain values; repeated scopes collapse.
    pub fn from_parts(token: String, scopes: Vec<String>, secs: i64, nanos: u32) -> (r: StoredSecret)
        requires
            nanos < 2_000_000_000,
        ensures
            r.access_token@ == token@,
            r.scopes.wf(),
            r.scopes.scope_set() == scopes@.map_values(|x: String| x@).to_set(),
            r.expire_time == (Timestamp { secs, nanos }),
    {
        StoredSecret {
            access_token: AccessToken::new(token),
            scopes: Scopes::from_list(scopes),
            expire_time: Timestamp::new(secs, nanos),
        }
    }
}

/// Taking a record apart with `to_parts` and rebuilding it with `from_parts`
/// gives back the same token, scopes and expiry.
pub proof fn lemma_parts_round_trip(
    s: StoredSecret,
    parts: (String, Vec<String>, i64, u32),
    back: StoredSecret,
)
    requires
        s.scopes.wf(),
        parts.0@ == s.access_token@,
        parts.1@.map_values(|x: String| x@) == s.scopes@,
        parts.2 == s.expire_time.secs,
        parts.3 == s.expire_time.nanos,
        back.access_token@ == parts.0@,
        back.scopes.wf(),
        back.scopes.scope_set() == parts.1@.map_values(|x: String| x@).to_set(),
        back.expire_time == (Timestamp { secs: parts.2, nanos: parts.3 }),
    ensures
        s.same_record(&back),
{
    lemma_scopes_equal_iff_same_set(&s.scopes, &back.scopes);
}

impl AcquireRequest {
    /// The exchange request for this acquisition.
    pub fn token_request(&self) -> (r: TokenRequest)
        ensures
            r.url@ == token_url(self.identity@),
            r.bearer@ == self.credential@,
            r.body@ == request_body(self.lifetime@, self.scopes@, delegates_view(self.delegates)),
    {
        build_token_request(&self.identity, &self.credential, &self.scopes, &self.lifetime, &self.delegates)
    }
}

impl Acquisition {
    /// Starts an acquisition: the first step reads the store.
    pub fn start(req: AcquireRequest) -> (r: (Acquisition, Step))
        ensures
            r == (Acquisition::Lookup(req), Step::Load),
    {
        (Acquisition::Lookup(req), Step::Load)
    }

    /// Takes in what came of the last step and returns the next one.
    pub fn advance(self, event: Event) -> (r: (Acquisition, Step))
        ensures
            r == next(self, event),
    {
        match self {
            Acquisition::Lookup(req) => match event {
                Event::Looked(Lookup::Found(c), now) => {
                    if c.scopes == req.scopes && now.is_before(&c.expire_time) {
                        (Acquisition::Finished, Step::Done(Ok(c.access_token)))
                    } else {
                        (Acquisition::Exchange(req), Step::Exchange)
                    }
                },
                Event::Looked(Lookup::Missing, _) => (Acquisition::Exchange(req), Step::Exchange),
                Event::Looked(Lookup::Fault(f), _) => (
                    Acquisition::Finished,
                    Step::Done(Err(AcquireError::Store(f))),
                ),
                _ => (Acquisition::Finished, Step::Done(Err(AcquireError::OutOfOrder))),
            },
            Acquisition::Exchange(req) => match event {
                Event::Exchanged(Ok(issued)) => {
                    let keep = issued.access_token.duplicate();
                    let secret = StoredSecret {
                        access_token: issued.access_token,
                        scopes: req.scopes,
                        expire_time: issued.expire_time,
                    };
                    (Acquisition::Save(keep), Step::Save(secret))
                },
                Event::Exchanged(Err(x)) => (
                    Acquisition::Finished,
                    Step::Done(Err(AcquireError::Exchange(x))),
                ),
                _ => (Acquisition::Finished, Step::Done(Err(AcquireError::OutOfOrder))),
            },
            Acquisition::Save(token) => match event {
                Event::Saved(Ok(_)) => (Acquisition::Finished, Step::Done(Ok(token))),
                Event::Saved(Err(f)) => (Acquisition::Finished, Step::Done(Err(AcquireError::Store(f)))),
                _ => (Acquisition::Finished, Step::Done(Err(AcquireError::OutOfOrder))),
            },
            Acquisition::Finished => (Acquisition::Finished, Step::Done(Err(AcquireError::OutOfOrder))),
        }
    }
}

// ---------------------------------------------------------------------------
// Laws of an acquisition.

/// After a successful exchange, the machine asks to persist exactly the issued
/// token with the requested scopes, and once that is written hands out the
/// issued token.
pub open spec fn refreshes_to(req: AcquireRequest, issued: Issued) -> bool {
    let (a2, s2) = next(Acquisition::Exchange(req), Event::Exchanged(Ok(issued)));
    let (a3, s3) = next(a2, Event::Saved(Ok(())));
    &&& s2 == Step::Save(issued_secret(req, issued))
    &&& s3 == Step::Done(Ok(issued.access_token))
    &&& a3 == Acquisition::Finished
}

/// A finished acquisition asks for no more outside work, so each of the laws
/// below describes every step it takes.
pub proof fn lemma_finished_asks_nothing(e: Event)
    ensures
        next(Acquisition::Finished, e) == (Acquisition::Finished, Step::Done(Err(AcquireError::OutOfOrder))),
{
}

/// With no cached secret, one exchange is made and its result is persisted and
/// returned.
pub proof fn lemma_absent_exchanges_once(req: AcquireRequest, now: Timestamp, issued: Issued)
    ensures
        next(Acquisition::Lookup(req), Event::Looked(Lookup::Missing, now)) == (
            Acquisition::Exchange(req),
            Step::Exchange,
        ),
        refreshes_to(req, issued),
{
}

/// A cached secret with the requested scopes that expires after `now` is
/// handed out as it is: no exchange and no store write.
pub proof fn lemma_fresh_is_reused(req: AcquireRequest, cached: StoredSecret, now: Timestamp)
    requires
        cached.scopes.scope_set() == req.scopes.scope_set(),
        cached.scopes.wf(),
        req.scopes.wf(),
        earlier(now, cached.expire_time),
    ensures
        next(Acquisition::Lookup(req), Event::Looked(Lookup::Found(cached), now)) == (
            Acquisition::Finished,
            Step::Done(Ok(cached.access_token)),
        ),
{
    lemma_scopes_equal_iff_same_set(&cached.scopes, &req.scopes);
}

/// A cached secret whose scopes differ from those requested, expired or not,
/// leads to one exchange, whose token (not the cached one) is persisted and
/// returned.
pub proof fn lemma_scope_change_refreshes(
    req: AcquireRequest,
    cached: StoredSecret,
    now: Timestamp,
    issued: Issued,
)
    requires
        cached.scopes.scope_set() != req.scopes.scope_set(),
    ensures
        next(Acquisition::Lookup(req), Event::Looked(Lookup::Found(cached), now)) == (
            Acquisition::Exchange(req),
            Step::Exchange,
        ),
        refreshes_to(req, issued),
{
}

/// A cached secret that does not expire strictly after `now` leads to one
/// exchange, whose token is persisted and returned.
pub proof fn lemma_expired_refreshes(req: AcquireRequest, cached: StoredSecret, now: Timestamp, issued: Issued)
    requires
        !earlier(now, cached.expire_time),
    ensures
        next(Acquisition::Lookup(req), Event::Looked(Lookup::Found(cached), now)) == (
            Acquisition::Exchange(req),
            Step::Exchange,
        ),
        refreshes_to(req, issued),
{
}

/// A store fault other than a missing entry ends the acquisition with that
/// fault, before any exchange.
pub proof fn lemma_store_fault_stops(req: AcquireRequest, fault: String, now: Timestamp)
    ensures
        next(Acquisition::Lookup(req), Event::Looked(Lookup::Fault(fault), now)) == (
            Acquisition::Finished,
            Step::Done(Err(AcquireError::Store(fault))),
        ),
{
}

/// A failed exchange ends the acquisition with its error and writes nothing.
pub proof fn lemma_failed_exchange_writes_nothing(req: AcquireRequest, error: ExchangeError)
    ensures
        next(Acquisition::Exchange(req), Event::Exchanged(Err(error))) == (
            Acquisition::Finished,
            Step::Done(Err(AcquireError::Exchange(error))),
        ),
{
}

} // verus!
