//! The negotiation canary: it probes a track again and again, and labels what
//! each probe came to.

use vstd::prelude::*;

use crate::serve::ServeError;
use crate::session::subscribe::{Subscribe, SubscribeRecv};
use crate::session::subscriber::{subscribe_ok_received, SubscriberView};
use crate::session::SessionError;
use crate::text::{occurs_in, str_contains};

verus! {

/// The label of a failed probe, out of a small fixed set.
pub open spec fn outcome_label(message: Seq<char>) -> Seq<char> {
    if occurs_in("did not complete within"@, message) {
        "timeout"@
    } else if occurs_in("connect_with_profile"@, message) {
        "connect_failed"@
    } else if occurs_in("SUBSCRIBE failed"@, message) {
        "subscribe_failed"@
    } else if occurs_in("carried no key 0x40"@, message) {
        "missing_history_window"@
    } else if occurs_in("session"@, message) {
        "session_failed"@
    } else {
        "other"@
    }
}

/// Labels a failed probe by the message of its error.
pub fn probe_error_outcome(message: &str) -> (r: &'static str)
    ensures
        r@ == outcome_label(message@),
{
    if str_contains(message, "did not complete within") {
        "timeout"
    } else if str_contains(message, "connect_with_profile") {
        "connect_failed"
    } else if str_contains(message, "SUBSCRIBE failed") {
        "subscribe_failed"
    } else if str_contains(message, "carried no key 0x40") {
        "missing_history_window"
    } else if str_contains(message, "session") {
        "session_failed"
    } else {
        "other"
    }
}

/// How a probe's task came back, once it was waited for.
pub enum ProbeEnd<T, E> {
    /// Before its deadline.
    Finished(Result<T, E>),
    /// It panicked or was cancelled by somebody else.
    Abnormal,
    /// At its deadline; it was cancelled and has ended.
    Expired,
    /// At its deadline; it was cancelled and ended in another way.
    ExpiredAbnormal,
}

/// Why a probe gave nothing.
#[derive(Debug, PartialEq, Eq)]
pub enum ProbeError<E> {
    Probe(E),
    Abnormal,
    DidNotComplete { timeout_seconds: u64 },
}

/// What a probe came to.
pub fn probe_result<T, E>(end: ProbeEnd<T, E>, timeout_seconds: u64) -> (r: Result<
    T,
    ProbeError<E>,
>)
    ensures
        match end {
            ProbeEnd::Finished(Ok(value)) => r == Ok::<T, ProbeError<E>>(value),
            ProbeEnd::Finished(Err(e)) => r == Err::<T, ProbeError<E>>(ProbeError::Probe(e)),
            ProbeEnd::Abnormal | ProbeEnd::ExpiredAbnormal => r == Err::<T, ProbeError<E>>(
                ProbeError::Abnormal,
            ),
            ProbeEnd::Expired => r == Err::<T, ProbeError<E>>(
                ProbeError::DidNotComplete { timeout_seconds },
            ),
        },
{
    match end {
        ProbeEnd::Finished(Ok(value)) => Ok(value),
        ProbeEnd::Finished(Err(e)) => Err(ProbeError::Probe(e)),
        ProbeEnd::Abnormal => Err(ProbeError::Abnormal),
        ProbeEnd::ExpiredAbnormal => Err(ProbeError::Abnormal),
        ProbeEnd::Expired => Err(ProbeError::DidNotComplete { timeout_seconds }),
    }
}

/// Why a probe's subscription gave no history window.
#[derive(Copy, Clone, Debug, PartialEq, Eq, Structural)]
pub enum ProbeFailure {
    /// The subscription failed.
    Subscribe(ServeError),
    /// It was accepted without a history window.
    MissingHistoryWindow,
    /// The session ended before the answer.
    SessionEnded,
    /// The session failed before the answer.
    SessionFailed,
}

/// What a probe's subscription came to, while the session runs or once it has
/// ended. Nothing, where the answer has not come yet.
pub open spec fn probe_answer(
    recv: SubscribeRecv,
    recv_gone: bool,
    session: Option<Result<(), SessionError>>,
) -> Option<Result<u64, ProbeFailure>> {
    match recv@.answer(recv_gone) {
        Some(Ok(())) => match recv.sink@.mode.window() {
            Some(window) => Some(Ok(window)),
            None => Some(Err(ProbeFailure::MissingHistoryWindow)),
        },
        Some(Err(e)) => Some(Err(ProbeFailure::Subscribe(e))),
        None => match session {
            Some(Ok(())) => Some(Err(ProbeFailure::SessionEnded)),
            Some(Err(_)) => Some(Err(ProbeFailure::SessionFailed)),
            None => None,
        },
    }
}

/// Looks at a probe's subscription.
pub fn probe_once(
    subscribe: &Subscribe,
    recv: &SubscribeRecv,
    recv_gone: bool,
    session: Option<Result<(), SessionError>>,
) -> (r: Option<Result<u64, ProbeFailure>>)
    ensures
        r == probe_answer(*recv, recv_gone, session),
{
    match subscribe.ok(recv, recv_gone) {
        Some(Ok(())) => match recv.history_window() {
            Some(window) => Some(Ok(window)),
            None => Some(Err(ProbeFailure::MissingHistoryWindow)),
        },
        Some(Err(e)) => Some(Err(ProbeFailure::Subscribe(e))),
        None => match session {
            Some(Ok(())) => Some(Err(ProbeFailure::SessionEnded)),
            Some(Err(_)) => Some(Err(ProbeFailure::SessionFailed)),
            None => None,
        },
    }
}

/// A probe decodes exactly the history window that the publisher accepted its
/// subscription with, and misses it where there is none.
pub proof fn law_probe_decodes_the_window(
    before: SubscriberView,
    after: SubscriberView,
    id: u64,
    track_alias: u64,
    history_window: Option<u64>,
    r: Result<(), SessionError>,
)
    requires
        before.subscribes.dom().contains(id),
        !before.alias_bound(track_alias),
        before.subscribes[id]@.live,
        !before.subscribes[id]@.ok,
        before.subscribes[id]@.closed is Ok,
        before.subscribes[id].sink@ == crate::session::subscribe::SinkView::fresh(),
        subscribe_ok_received(before, after, id, track_alias, history_window, r),
    ensures
        probe_answer(after.subscribes[id], false, None) == Some(
            match history_window {
                Some(window) => Ok::<u64, ProbeFailure>(window),
                None => Err(ProbeFailure::MissingHistoryWindow),
            },
        ),
{
}

/// How long to wait before the next probe, so that probes start an interval
/// apart.
pub fn sleep_before_next(interval_ms: u64, elapsed_ms: u64) -> (r: u64)
    ensures
        r == if elapsed_ms < interval_ms {
            (interval_ms - elapsed_ms) as u64
        } else {
            0
        },
{
    interval_ms.saturating_sub(elapsed_ms)
}

/// A failed probe is labelled by what its message says, the deadline before the
/// connection, the connection before the subscription, the subscription before a
/// missing history window, and all of these before the session.
pub proof fn law_probe_is_labelled_by_its_message(message: Seq<char>)
    ensures
        ({
            let label = outcome_label(message);
            let timeout = occurs_in("did not complete within"@, message);
            let connect = occurs_in("connect_with_profile"@, message);
            let subscribe = occurs_in("SUBSCRIBE failed"@, message);
            let window = occurs_in("carried no key 0x40"@, message);
            let session = occurs_in("session"@, message);
            &&& timeout ==> label == "timeout"@
            &&& !timeout && connect ==> label == "connect_failed"@
            &&& !timeout && !connect && subscribe ==> label == "subscribe_failed"@
            &&& !timeout && !connect && !subscribe && window ==> label
                == "missing_history_window"@
            &&& !timeout && !connect && !subscribe && !window && session ==> label
                == "session_failed"@
            &&& !timeout && !connect && !subscribe && !window && !session ==> label == "other"@
        }),
{
}

/// A probe waits as long as neither the subscription nor the session is decided.
/// A subscription that failed fails the probe with its error, whatever became of
/// the session; one that is not answered fails with the session.
pub proof fn law_probe_follows_its_subscription(
    recv: SubscribeRecv,
    recv_gone: bool,
    session: Option<Result<(), SessionError>>,
)
    ensures
        recv@.closed matches Err(e) ==> probe_answer(recv, recv_gone, session) == Some(
            Err::<u64, ProbeFailure>(ProbeFailure::Subscribe(e)),
        ),
        recv@.closed is Ok && recv@.ok ==> {
            &&& recv.sink@.mode.window() matches Some(w) ==> probe_answer(recv, recv_gone, session)
                == Some(Ok::<u64, ProbeFailure>(w))
            &&& recv.sink@.mode.window() is None ==> probe_answer(recv, recv_gone, session) == Some(
                Err::<u64, ProbeFailure>(ProbeFailure::MissingHistoryWindow),
            )
        },
        recv@.closed is Ok && !recv@.ok && recv_gone ==> probe_answer(recv, recv_gone, session)
            == Some(Err::<u64, ProbeFailure>(ProbeFailure::Subscribe(ServeError::Done))),
        recv@.closed is Ok && !recv@.ok && !recv_gone ==> match session {
            None => probe_answer(recv, recv_gone, session) is None,
            Some(Ok(_)) => probe_answer(recv, recv_gone, session) == Some(
                Err::<u64, ProbeFailure>(ProbeFailure::SessionEnded),
            ),
            Some(Err(_)) => probe_answer(recv, recv_gone, session) == Some(
                Err::<u64, ProbeFailure>(ProbeFailure::SessionFailed),
            ),
        },
{
}

} // verus!
