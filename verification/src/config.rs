//! Limits and timeouts that govern the service.

use vstd::prelude::*;

verus! {

/// The settings of one service instance. A value of this type always has a
/// positive session limit.
#[derive(Clone, Copy, Debug)]
pub struct Config {
    max_sessions: usize,
    idle_timeout_seconds: u64,
    output_buffer_bytes: usize,
    termination_grace_seconds: u64,
    retention_seconds: u64,
    client_queue_bytes: usize,
}

impl Config {
    /// The largest number of sessions that may be active at once.
    pub closed spec fn max_sessions_spec(&self) -> usize {
        self.max_sessions
    }

    /// Seconds without traffic after which a session is asked to terminate.
    pub closed spec fn idle_timeout_spec(&self) -> u64 {
        self.idle_timeout_seconds
    }

    /// Bytes of recent output kept per session for clients that attach late.
    pub closed spec fn output_buffer_spec(&self) -> usize {
        self.output_buffer_bytes
    }

    /// Seconds between a termination request and the forced kill.
    pub closed spec fn termination_grace_spec(&self) -> u64 {
        self.termination_grace_seconds
    }

    /// Seconds for which the record of a finished session is kept.
    pub closed spec fn retention_spec(&self) -> u64 {
        self.retention_seconds
    }

    /// Bytes of undelivered output kept per attached client.
    pub closed spec fn client_queue_spec(&self) -> usize {
        self.client_queue_bytes
    }

    /// The session limit is positive.
    pub closed spec fn wf(&self) -> bool {
        self.max_sessions > 0
    }

    pub proof fn lemma_wf(&self)
        requires
            self.wf(),
        ensures
            self.max_sessions_spec() > 0,
    {
    }

    /// Builds a configuration, or `None` when `max_sessions` is zero.
    pub fn new(
        max_sessions: usize,
        idle_timeout_seconds: u64,
        output_buffer_bytes: usize,
        termination_grace_seconds: u64,
        retention_seconds: u64,
        client_queue_bytes: usize,
    ) -> (r: Option<Config>)
        ensures
            r is Some <==> max_sessions > 0,
            r matches Some(c) ==> {
                &&& c.wf()
                &&& c.max_sessions_spec() == max_sessions
                &&& c.idle_timeout_spec() == idle_timeout_seconds
                &&& c.output_buffer_spec() == output_buffer_bytes
                &&& c.termination_grace_spec() == termination_grace_seconds
                &&& c.retention_spec() == retention_seconds
                &&& c.client_queue_spec() == client_queue_bytes
            },
    {
        if max_sessions == 0 {
            None
        } else {
            Some(
                Config {
                    max_sessions,
                    idle_timeout_seconds,
                    output_buffer_bytes,
                    termination_grace_seconds,
                    retention_seconds,
                    client_queue_bytes,
                },
            )
        }
    }

    /// One hundred sessions, thirty minutes of idle time, five seconds of
    /// grace before a forced kill, one minute of retention, and 64 KiB both
    /// of history per session and of queue per client.
    pub fn standard() -> (c: Config)
        ensures
            c.wf(),
            c.max_sessions_spec() == 100,
            c.idle_timeout_spec() == 1800,
            c.output_buffer_spec() == 65536,
            c.termination_grace_spec() == 5,
            c.retention_spec() == 60,
            c.client_queue_spec() == 65536,
    {
        Config {
            max_sessions: 100,
            idle_timeout_seconds: 1800,
            output_buffer_bytes: 65536,
            termination_grace_seconds: 5,
            retention_seconds: 60,
            client_queue_bytes: 65536,
        }
    }

    #[verifier::when_used_as_spec(max_sessions_spec)]
    pub fn max_sessions(&self) -> (n: usize)
        ensures
            n == self.max_sessions_spec(),
    {
        self.max_sessions
    }

    #[verifier::when_used_as_spec(idle_timeout_spec)]
    pub fn idle_timeout_seconds(&self) -> (n: u64)
        ensures
            n == self.idle_timeout_spec(),
    {
        self.idle_timeout_seconds
    }

    #[verifier::when_used_as_spec(output_buffer_spec)]
    pub fn output_buffer_bytes(&self) -> (n: usize)
        ensures
            n == self.output_buffer_spec(),
    {
        self.output_buffer_bytes
    }

    #[verifier::when_used_as_spec(termination_grace_spec)]
    pub fn termination_grace_seconds(&self) -> (n: u64)
        ensures
            n == self.termination_grace_spec(),
    {
        self.termination_grace_seconds
    }

    #[verifier::when_used_as_spec(retention_spec)]
    pub fn retention_seconds(&self) -> (n: u64)
        ensures
            n == self.retention_spec(),
    {
        self.retention_seconds
    }

    #[verifier::when_used_as_spec(client_queue_spec)]
    pub fn client_queue_bytes(&self) -> (n: usize)
        ensures
            n == self.client_queue_spec(),
    {
        self.client_queue_bytes
    }
}

} // verus!
