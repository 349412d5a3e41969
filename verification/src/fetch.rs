use vstd::prelude::*;

verus! {

/// The per-channel fetch lifecycle: one request, one immediate retry, then
/// a terminal success or failure. The caller performs the requests and
/// feeds each result back as an event.
#[derive(Clone, Copy, PartialEq, Eq, Structural, Debug)]
pub enum FetchState {
    /// No request has completed yet.
    Pending,
    /// The first request failed; the single retry is owed.
    RetryPending,
    /// A request delivered a payload.
    Succeeded,
    /// The retry failed too; the channel contributes nothing.
    Failed,
}

/// The result of one request.
#[derive(Clone, Copy, PartialEq, Eq, Structural, Debug)]
pub enum FetchEvent {
    /// The request delivered a payload.
    Delivered,
    /// The request failed: a network error, a timeout, or an unreadable
    /// body.
    Errored,
}

/// The transition table: a delivery succeeds from either live state, the
/// first error leaves the retry owed, the second error fails the channel,
/// and the terminal states absorb every further event.
pub open spec fn spec_fetch_step(s: FetchState, ev: FetchEvent) -> FetchState {
    match s {
        FetchState::Pending => match ev {
            FetchEvent::Delivered => FetchState::Succeeded,
            FetchEvent::Errored => FetchState::RetryPending,
        },
        FetchState::RetryPending => match ev {
            FetchEvent::Delivered => FetchState::Succeeded,
            FetchEvent::Errored => FetchState::Failed,
        },
        FetchState::Succeeded => FetchState::Succeeded,
        FetchState::Failed => FetchState::Failed,
    }
}

/// Advances one channel's fetch by the result of the request in flight.
pub fn fetch_step(s: FetchState, ev: FetchEvent) -> (r: FetchState)
    ensures
        r == spec_fetch_step(s, ev),
{
    match s {
        FetchState::Pending => match ev {
            FetchEvent::Delivered => FetchState::Succeeded,
            FetchEvent::Errored => FetchState::RetryPending,
        },
        FetchState::RetryPending => match ev {
            FetchEvent::Delivered => FetchState::Succeeded,
            FetchEvent::Errored => FetchState::Failed,
        },
        FetchState::Succeeded => FetchState::Succeeded,
        FetchState::Failed => FetchState::Failed,
    }
}

/// Whether another request is still owed in this state.
pub fn should_attempt(s: FetchState) -> (r: bool)
    ensures
        r == (s is Pending || s is RetryPending),
{
    match s {
        FetchState::Pending => true,
        FetchState::RetryPending => true,
        FetchState::Succeeded => false,
        FetchState::Failed => false,
    }
}

/// The terminal outcome of one channel's fetch from the result of each
/// attempt: the channel fails exactly when the first request and its one
/// retry both fail, and a first delivery needs no retry.
pub fn fetch_outcome(first: FetchEvent, second: FetchEvent) -> (r: FetchState)
    ensures
        r == spec_fetch_step(spec_fetch_step(FetchState::Pending, first), second),
        r is Failed <==> (first is Errored && second is Errored),
        first is Delivered ==> r is Succeeded,
{
    fetch_step(fetch_step(FetchState::Pending, first), second)
}

/// The retry policy: one error leaves exactly one retry owed, the retry's
/// error is terminal, and no later event revives or demotes a terminal
/// channel.
pub proof fn lemma_single_retry()
    ensures
        spec_fetch_step(FetchState::Pending, FetchEvent::Errored) == FetchState::RetryPending,
        spec_fetch_step(FetchState::RetryPending, FetchEvent::Errored) == FetchState::Failed,
        forall|ev: FetchEvent| spec_fetch_step(FetchState::Failed, ev) == FetchState::Failed,
        forall|ev: FetchEvent|
            spec_fetch_step(FetchState::Succeeded, ev) == FetchState::Succeeded,
{
}

} // verus!
