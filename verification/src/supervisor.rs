//! The judgment that the supervisor passes on each session: leave it,
//! signal its process, or drop its record.

use crate::config::Config;
use crate::session::{Session, SessionView};
use crate::signal::Signal;
use vstd::prelude::*;

verus! {

/// Seconds from `since` to `now`; zero when `now` is not later.
pub open spec fn elapsed(since: u64, now: u64) -> u64 {
    if now >= since {
        (now - since) as u64
    } else {
        0
    }
}

/// Computes [`elapsed`].
pub fn seconds_between(since: u64, now: u64) -> (r: u64)
    ensures
        r == elapsed(since, now),
{
    if now >= since {
        now - since
    } else {
        0
    }
}

/// What the supervisor decides about one session.
#[derive(Clone, Copy, Debug, PartialEq, Eq, Structural)]
pub enum Verdict {
    /// Nothing is due.
    Keep,
    /// The process is to be signalled: gracefully because the session idled
    /// too long, or by force because it outlived the grace period.
    Signal(Signal),
    /// The session finished long enough ago; its record is to be dropped.
    Purge,
}

/// The verdict on `s` at `now`.
///
/// - A finished session is purged once it has been finished for the
///   retention period.
/// - A live process that nobody asked to terminate is signalled gracefully
///   once the session has seen no traffic for longer than the idle timeout.
/// - A live process that was asked to terminate is killed, once, when the
///   grace period has passed since the first request.
pub open spec fn verdict(s: SessionView, now: u64, config: Config) -> Verdict {
    if s.state.is_finished() {
        match s.finished_at {
            Some(t) if elapsed(t, now) >= config.retention_seconds() => Verdict::Purge,
            _ => Verdict::Keep,
        }
    } else if s.process_alive() {
        match s.terminate_requested_at {
            None => if elapsed(s.last_activity_at, now) > config.idle_timeout_seconds() {
                Verdict::Signal(Signal::Graceful)
            } else {
                Verdict::Keep
            },
            Some(t) => if !s.kill_sent && elapsed(t, now) >= config.termination_grace_seconds() {
                Verdict::Signal(Signal::Forced)
            } else {
                Verdict::Keep
            },
        }
    } else {
        Verdict::Keep
    }
}

/// The effect of the verdict on the session itself: a signal goes through
/// `terminate`, and every other verdict leaves the session unchanged.
pub open spec fn supervised(s: SessionView, now: u64, config: Config) -> SessionView {
    match verdict(s, now, config) {
        Verdict::Signal(signal) => s.terminate(signal, now),
        _ => s,
    }
}

/// What the caller is to carry out after a round of supervision.
#[derive(Clone, Copy, Debug, PartialEq, Eq, Structural)]
pub enum Action {
    /// Deliver `signal` to the process of session `id`.
    Deliver { id: u64, signal: Signal },
    /// The record of session `id` is gone; forget whatever is kept under it.
    Forget { id: u64 },
}

/// The sessions after a round of supervision at `now`, in their old order:
/// purged ones are dropped, and each of the others is supervised on its own.
pub open spec fn swept(sessions: Seq<SessionView>, now: u64, config: Config) -> Seq<SessionView>
    decreases sessions.len(),
{
    if sessions.len() == 0 {
        Seq::empty()
    } else {
        let rest = swept(sessions.drop_last(), now, config);
        if verdict(sessions.last(), now, config) is Purge {
            rest
        } else {
            rest.push(supervised(sessions.last(), now, config))
        }
    }
}

/// The actions that a round of supervision at `now` asks for: one for each
/// session whose verdict is not `Keep`, in the order of the sessions.
pub open spec fn directives(sessions: Seq<SessionView>, now: u64, config: Config) -> Seq<Action>
    decreases sessions.len(),
{
    if sessions.len() == 0 {
        Seq::empty()
    } else {
        let rest = directives(sessions.drop_last(), now, config);
        let last = sessions.last();
        match verdict(last, now, config) {
            Verdict::Keep => rest,
            Verdict::Signal(signal) => rest.push(Action::Deliver { id: last.id, signal }),
            Verdict::Purge => rest.push(Action::Forget { id: last.id }),
        }
    }
}

/// Computes the verdict on `session` at `now`.
pub fn judge(session: &Session, now: u64, config: &Config) -> (v: Verdict)
    ensures
        v == verdict(session@, now, *config),
{
    if session.state().is_finished() {
        match session.finished_at() {
            Some(t) => {
                if seconds_between(t, now) >= config.retention_seconds() {
                    Verdict::Purge
                } else {
                    Verdict::Keep
                }
            },
            None => Verdict::Keep,
        }
    } else if session.process_alive() {
        match session.terminate_requested_at() {
            None => {
                if seconds_between(session.last_activity_at(), now)
                    > config.idle_timeout_seconds() {
                    Verdict::Signal(Signal::Graceful)
                } else {
                    Verdict::Keep
                }
            },
            Some(t) => {
                if !session.kill_sent() && seconds_between(t, now)
                    >= config.termination_grace_seconds() {
                    Verdict::Signal(Signal::Forced)
                } else {
                    Verdict::Keep
                }
            },
        }
    } else {
        Verdict::Keep
    }
}

} // verus!
