//! One session: a launched process, its terminal, the clients attached to
//! it, and the lifecycle that binds them.

use crate::buffer::{append_bytes, keep_last, BoundedBuffer};
use crate::clients::{fan_out, queues_bounded, ClientSet};
use crate::error::{LaunchError, ServiceError};
use crate::launcher::{check_dimensions, dimensions_valid, LaunchParams};
use crate::signal::Signal;
use vstd::prelude::*;

verus! {

/// Where a session stands in its lifecycle.
#[derive(Clone, Copy, Debug, PartialEq, Eq, Structural)]
pub enum SessionState {
    /// A slot is reserved and the launch is under way.
    Starting,
    /// The process runs and the terminal carries traffic.
    Running,
    /// The process has exited, closed its output, or was asked to terminate;
    /// the session waits for both the process and the output to finish.
    Exiting,
    /// The process has exited and its output is drained.
    Terminated,
    /// The launch failed or the terminal broke.
    Failed,
}

impl SessionState {
    /// Active sessions count against the registry's limit.
    pub open spec fn is_active_spec(self) -> bool {
        self is Starting || self is Running || self is Exiting
    }

    #[verifier::when_used_as_spec(is_active_spec)]
    pub fn is_active(self) -> (b: bool)
        ensures
            b == self.is_active_spec(),
    {
        match self {
            SessionState::Starting | SessionState::Running | SessionState::Exiting => true,
            _ => false,
        }
    }

    /// Finished sessions never change again; they await removal.
    pub open spec fn is_finished_spec(self) -> bool {
        self is Terminated || self is Failed
    }

    #[verifier::when_used_as_spec(is_finished_spec)]
    pub fn is_finished(self) -> (b: bool)
        ensures
            b == self.is_finished_spec(),
    {
        match self {
            SessionState::Terminated | SessionState::Failed => true,
            _ => false,
        }
    }

    /// The terminal exists exactly while the session runs or winds down.
    pub open spec fn holds_pty_spec(self) -> bool {
        self is Running || self is Exiting
    }

    #[verifier::when_used_as_spec(holds_pty_spec)]
    pub fn holds_pty(self) -> (b: bool)
        ensures
            b == self.holds_pty_spec(),
    {
        match self {
            SessionState::Running | SessionState::Exiting => true,
            _ => false,
        }
    }
}

/// The later of two instants.
pub open spec fn later(a: u64, b: u64) -> u64 {
    if a >= b {
        a
    } else {
        b
    }
}

/// The mathematical content of a session.
pub struct SessionView {
    pub id: u64,
    pub params: LaunchParams,
    pub requested_by: String,
    pub state: SessionState,
    pub created_at: u64,
    pub last_activity_at: u64,
    pub rows: u32,
    pub cols: u32,
    /// The exit code that the process reported, once it has exited.
    pub exit_status: Option<i32>,
    /// Why the session failed, once it has.
    pub failure: Option<ServiceError>,
    /// The process has closed its output and everything it wrote was relayed.
    pub output_closed: bool,
    /// When termination was first requested, if it was.
    pub terminate_requested_at: Option<u64>,
    /// A forced kill has been issued.
    pub kill_sent: bool,
    /// When the session reached `Terminated` or `Failed`.
    pub finished_at: Option<u64>,
    /// Recent output, kept for clients that attach late.
    pub backlog: Seq<u8>,
    pub backlog_cap: nat,
    /// Each attached client with the output queued for it.
    pub clients: Map<u64, Seq<u8>>,
    pub queue_cap: nat,
    /// Input accepted from clients and not yet handed to the process, in
    /// arrival order.
    pub pending_input: Seq<u8>,
}

impl SessionView {
    /// A session as it is right after its slot was reserved.
    pub open spec fn starting(
        id: u64,
        params: LaunchParams,
        requested_by: String,
        now: u64,
        backlog_cap: nat,
        queue_cap: nat,
    ) -> SessionView {
        SessionView {
            id,
            params,
            requested_by,
            state: SessionState::Starting,
            created_at: now,
            last_activity_at: now,
            rows: params.rows,
            cols: params.cols,
            exit_status: None,
            failure: None,
            output_closed: false,
            terminate_requested_at: None,
            kill_sent: false,
            finished_at: None,
            backlog: Seq::empty(),
            backlog_cap,
            clients: Map::empty(),
            queue_cap,
            pending_input: Seq::empty(),
        }
    }

    /// What holds of every session at every moment.
    pub open spec fn wf(self) -> bool {
        &&& self.created_at <= self.last_activity_at
        &&& dimensions_valid(self.rows, self.cols)
        &&& self.backlog.len() <= self.backlog_cap
        &&& queues_bounded(self.clients, self.queue_cap)
        &&& self.state.is_finished() <==> self.finished_at is Some
        &&& self.state is Failed <==> self.failure is Some
        &&& self.state is Terminated ==> self.exit_status is Some && self.output_closed
        &&& (self.state is Starting || self.state is Running) ==> {
            &&& self.exit_status is None
            &&& !self.output_closed
            &&& self.terminate_requested_at is None
        }
        &&& self.state is Starting ==> self.backlog.len() == 0 && self.pending_input.len() == 0
        &&& self.state is Exiting ==> {
            &&& self.exit_status is Some || self.output_closed || self.terminate_requested_at is Some
            &&& !(self.exit_status is Some && self.output_closed)
        }
        &&& self.kill_sent ==> self.terminate_requested_at is Some
    }

    /// The exit code as callers see it: present only once the session is
    /// finished.
    pub open spec fn exit_code(self) -> Option<i32> {
        if self.state.is_finished() {
            self.exit_status
        } else {
            None
        }
    }

    /// The process has been launched and has not yet exited.
    pub open spec fn process_alive(self) -> bool {
        self.state.holds_pty() && self.exit_status is None
    }

    /// Records traffic at `now`. The activity time never moves backwards.
    pub open spec fn touched(self, now: u64) -> SessionView {
        SessionView { last_activity_at: later(self.last_activity_at, now), ..self }
    }

    /// Records traffic at `now` if `len` bytes is any traffic at all.
    pub open spec fn touched_by(self, len: nat, now: u64) -> SessionView {
        if len > 0 {
            self.touched(now)
        } else {
            self
        }
    }

    /// The process was launched: `Starting` becomes `Running`.
    pub open spec fn launch_succeeded(self, now: u64) -> SessionView {
        if self.state is Starting {
            SessionView { state: SessionState::Running, ..self.touched(now) }
        } else {
            self
        }
    }

    /// The launch failed: `Starting` becomes `Failed`.
    pub open spec fn launch_failed(self, error: LaunchError, now: u64) -> SessionView {
        if self.state is Starting {
            SessionView {
                state: SessionState::Failed,
                failure: Some(ServiceError::Launch(error)),
                finished_at: Some(now),
                ..self
            }
        } else {
            self
        }
    }

    /// A launch outcome is accepted only while the launch is under way.
    pub open spec fn launch_result(self) -> Result<(), ServiceError> {
        if self.state is Starting {
            Ok(())
        } else {
            Err(ServiceError::SessionNotRunning)
        }
    }

    /// Clients may attach until the session begins to exit.
    pub open spec fn can_attach(self) -> bool {
        self.state is Starting || self.state is Running
    }

    pub open spec fn attach_result(self) -> Result<(), ServiceError> {
        if self.can_attach() {
            Ok(())
        } else {
            Err(ServiceError::SessionNotRunning)
        }
    }

    pub open spec fn write_result(self) -> Result<(), ServiceError> {
        if self.state is Running {
            Ok(())
        } else {
            Err(ServiceError::SessionNotRunning)
        }
    }

    /// A new client starts with the recent output in its queue; a client that
    /// is already attached keeps what it has.
    pub open spec fn attach(self, client: u64) -> SessionView {
        if self.can_attach() && !self.clients.contains_key(client) {
            SessionView {
                clients: self.clients.insert(client, keep_last(self.backlog, self.queue_cap)),
                ..self
            }
        } else {
            self
        }
    }

    pub open spec fn detach(self, client: u64) -> SessionView {
        SessionView { clients: self.clients.remove(client), ..self }
    }

    /// Input is queued whole, behind everything accepted before it.
    pub open spec fn write(self, bytes: Seq<u8>, now: u64) -> SessionView {
        if self.state is Running {
            SessionView {
                pending_input: self.pending_input + bytes,
                ..self.touched_by(bytes.len(), now)
            }
        } else {
            self
        }
    }

    pub open spec fn take_input(self) -> SessionView {
        SessionView { pending_input: Seq::empty(), ..self }
    }

    pub open spec fn resize_result(self, rows: u32, cols: u32) -> Result<(), ServiceError> {
        if !dimensions_valid(rows, cols) {
            Err(ServiceError::InvalidDimensions)
        } else if !(self.state is Running) {
            Err(ServiceError::SessionNotRunning)
        } else {
            Ok(())
        }
    }

    pub open spec fn resize(self, rows: u32, cols: u32) -> SessionView {
        if self.resize_result(rows, cols) is Ok {
            SessionView { rows, cols, ..self }
        } else {
            self
        }
    }

    /// Output is relayed while the terminal exists and has not reached its end.
    pub open spec fn accepts_output(self) -> bool {
        self.state.holds_pty() && !self.output_closed
    }

    pub open spec fn output_result(self) -> Result<(), ServiceError> {
        if self.accepts_output() {
            Ok(())
        } else {
            Err(ServiceError::SessionNotRunning)
        }
    }

    /// Output goes to the history and, identically, to every attached client.
    pub open spec fn output(self, bytes: Seq<u8>, now: u64) -> SessionView {
        if self.accepts_output() {
            SessionView {
                backlog: keep_last(self.backlog + bytes, self.backlog_cap),
                clients: fan_out(self.clients, bytes, self.queue_cap),
                ..self.touched_by(bytes.len(), now)
            }
        } else {
            self
        }
    }

    /// The output reached its end: the session begins to exit, or finishes
    /// if the process has exited already.
    pub open spec fn output_closed(self, now: u64) -> SessionView {
        if self.accepts_output() {
            if self.exit_status is Some {
                SessionView {
                    state: SessionState::Terminated,
                    output_closed: true,
                    finished_at: Some(now),
                    ..self
                }
            } else {
                SessionView { state: SessionState::Exiting, output_closed: true, ..self }
            }
        } else {
            self
        }
    }

    /// `Ok(true)` when the end of the output finishes the session.
    pub open spec fn output_closed_result(self) -> Result<bool, ServiceError> {
        if self.accepts_output() {
            Ok(self.exit_status is Some)
        } else {
            Err(ServiceError::SessionNotRunning)
        }
    }

    /// `Ok(true)` when the exit of the process finishes the session.
    pub open spec fn process_exited_result(self) -> Result<bool, ServiceError> {
        if self.process_alive() {
            Ok(self.output_closed)
        } else {
            Err(ServiceError::SessionNotRunning)
        }
    }

    pub open spec fn io_failed_result(self) -> Result<(), ServiceError> {
        if self.state.holds_pty() {
            Ok(())
        } else {
            Err(ServiceError::SessionNotRunning)
        }
    }

    /// The process exited: the session begins to exit, or finishes if the
    /// output is drained already.
    pub open spec fn process_exited(self, code: i32, now: u64) -> SessionView {
        if self.process_alive() {
            if self.output_closed {
                SessionView {
                    state: SessionState::Terminated,
                    exit_status: Some(code),
                    finished_at: Some(now),
                    ..self
                }
            } else {
                SessionView { state: SessionState::Exiting, exit_status: Some(code), ..self }
            }
        } else {
            self
        }
    }

    /// The terminal broke: a session that holds one fails.
    pub open spec fn io_failed(self, now: u64) -> SessionView {
        if self.state.holds_pty() {
            SessionView {
                state: SessionState::Failed,
                failure: Some(ServiceError::InternalIoError),
                finished_at: Some(now),
                ..self
            }
        } else {
            self
        }
    }

    /// What a termination request answers: the signal to deliver, nothing to
    /// deliver because the process is gone, or a refusal.
    pub open spec fn terminate_result(
        self,
        signal: Signal,
    ) -> Result<Option<Signal>, ServiceError> {
        if self.process_alive() {
            Ok(Some(signal))
        } else if self.state is Exiting {
            Ok(None)
        } else {
            Err(ServiceError::SessionNotRunning)
        }
    }

    /// A termination request moves a running session to `Exiting` at once and
    /// remembers when termination was first asked for.
    pub open spec fn terminate(self, signal: Signal, now: u64) -> SessionView {
        if self.process_alive() {
            SessionView {
                state: SessionState::Exiting,
                terminate_requested_at: match self.terminate_requested_at {
                    Some(t) => Some(t),
                    None => Some(now),
                },
                kill_sent: self.kill_sent || signal is Forced,
                ..self
            }
        } else {
            self
        }
    }

    /// What `poll` hands to `client`: up to `max` of its oldest queued bytes.
    pub open spec fn polled(self, client: u64, max: usize) -> Seq<u8> {
        if self.clients.contains_key(client) {
            let q = self.clients[client];
            q.take(if max <= q.len() { max as int } else { q.len() as int })
        } else {
            Seq::empty()
        }
    }

    pub open spec fn poll(self, client: u64, max: usize) -> SessionView {
        if self.clients.contains_key(client) {
            SessionView {
                clients: self.clients.insert(
                    client,
                    self.clients[client].skip(self.polled(client, max).len() as int),
                ),
                ..self
            }
        } else {
            self
        }
    }

    /// The answer to a status query.
    pub open spec fn status(self) -> SessionStatus {
        SessionStatus {
            state: self.state,
            exit_code: self.exit_code(),
            failure: self.failure,
            created_at: self.created_at,
            last_activity_at: self.last_activity_at,
            rows: self.rows,
            cols: self.cols,
        }
    }

    /// The entry for this session in a listing.
    pub open spec fn summary(self) -> SessionSummary {
        SessionSummary {
            id: self.id,
            command: self.params.command,
            requested_by: self.requested_by,
            state: self.state,
            created_at: self.created_at,
            last_activity_at: self.last_activity_at,
            attached_clients: self.clients.dom().len() as usize,
        }
    }
}

/// What a status query reports about one session.
#[derive(Clone, Copy, Debug, PartialEq, Eq, Structural)]
pub struct SessionStatus {
    pub state: SessionState,
    pub exit_code: Option<i32>,
    pub failure: Option<ServiceError>,
    pub created_at: u64,
    pub last_activity_at: u64,
    pub rows: u32,
    pub cols: u32,
}

/// One line of a session listing.
#[derive(Debug)]
pub struct SessionSummary {
    pub id: u64,
    pub command: String,
    pub requested_by: String,
    pub state: SessionState,
    pub created_at: u64,
    pub last_activity_at: u64,
    pub attached_clients: usize,
}

/// A session. Its content is its view; see [`SessionView`].
pub struct Session {
    id: u64,
    params: LaunchParams,
    requested_by: String,
    state: SessionState,
    created_at: u64,
    last_activity_at: u64,
    rows: u32,
    cols: u32,
    exit_status: Option<i32>,
    failure: Option<ServiceError>,
    output_closed: bool,
    terminate_requested_at: Option<u64>,
    kill_sent: bool,
    finished_at: Option<u64>,
    backlog: BoundedBuffer,
    clients: ClientSet,
    pending_input: Vec<u8>,
}

impl View for Session {
    type V = SessionView;

    closed spec fn view(&self) -> SessionView {
        SessionView {
            id: self.id,
            params: self.params,
            requested_by: self.requested_by,
            state: self.state,
            created_at: self.created_at,
            last_activity_at: self.last_activity_at,
            rows: self.rows,
            cols: self.cols,
            exit_status: self.exit_status,
            failure: self.failure,
            output_closed: self.output_closed,
            terminate_requested_at: self.terminate_requested_at,
            kill_sent: self.kill_sent,
            finished_at: self.finished_at,
            backlog: self.backlog@,
            backlog_cap: self.backlog.cap(),
            clients: self.clients@,
            queue_cap: self.clients.cap(),
            pending_input: self.pending_input@,
        }
    }
}

impl Session {
    /// The parts are well formed and so is the whole.
    pub closed spec fn wf(&self) -> bool {
        &&& self.backlog.wf()
        &&& self.clients.wf()
        &&& self@.wf()
    }

    /// A well-formed session has a well-formed view, with bounds that fit in
    /// memory.
    pub proof fn lemma_wf(&self)
        requires
            self.wf(),
        ensures
            self@.wf(),
            self@.backlog_cap <= usize::MAX,
            self@.queue_cap <= usize::MAX,
    {
        self.backlog.lemma_wf_len();
        self.clients.lemma_bounded();
    }

    /// Reserves a session for `params`, or refuses them. No process exists
    /// yet: the session is `Starting`.
    pub fn new(
        id: u64,
        params: LaunchParams,
        requested_by: String,
        now: u64,
        backlog_capacity: usize,
        queue_capacity: usize,
    ) -> (r: Result<Session, LaunchError>)
        ensures
            match r {
                Ok(s) => {
                    &&& params.refusal() is None
                    &&& s.wf()
                    &&& s@ == SessionView::starting(
                        id,
                        params,
                        requested_by,
                        now,
                        backlog_capacity as nat,
                        queue_capacity as nat,
                    )
                },
                Err(e) => params.refusal() == Some(e),
            },
    {
        match params.validate() {
            Err(e) => Err(e),
            Ok(_) => {
                let rows = params.rows;
                let cols = params.cols;
                let s = Session {
                    id,
                    params,
                    requested_by,
                    state: SessionState::Starting,
                    created_at: now,
                    last_activity_at: now,
                    rows,
                    cols,
                    exit_status: None,
                    failure: None,
                    output_closed: false,
                    terminate_requested_at: None,
                    kill_sent: false,
                    finished_at: None,
                    backlog: BoundedBuffer::new(backlog_capacity),
                    clients: ClientSet::new(queue_capacity),
                    pending_input: Vec::new(),
                };
                proof {
                    s.clients.lemma_bounded();
                }
                Ok(s)
            },
        }
    }

    pub fn id(&self) -> (r: u64)
        ensures
            r == self@.id,
    {
        self.id
    }

    pub fn params(&self) -> (r: &LaunchParams)
        ensures
            *r == self@.params,
    {
        &self.params
    }

    pub fn requested_by(&self) -> (r: &String)
        ensures
            *r == self@.requested_by,
    {
        &self.requested_by
    }

    pub fn state(&self) -> (r: SessionState)
        ensures
            r == self@.state,
    {
        self.state
    }

    pub fn created_at(&self) -> (r: u64)
        ensures
            r == self@.created_at,
    {
        self.created_at
    }

    pub fn last_activity_at(&self) -> (r: u64)
        ensures
            r == self@.last_activity_at,
    {
        self.last_activity_at
    }

    pub fn rows(&self) -> (r: u32)
        ensures
            r == self@.rows,
    {
        self.rows
    }

    pub fn cols(&self) -> (r: u32)
        ensures
            r == self@.cols,
    {
        self.cols
    }

    /// The exit code, present only once the session is finished.
    pub fn exit_code(&self) -> (r: Option<i32>)
        ensures
            r == self@.exit_code(),
    {
        if self.state.is_finished() {
            self.exit_status
        } else {
            None
        }
    }

    pub fn failure(&self) -> (r: Option<ServiceError>)
        ensures
            r == self@.failure,
    {
        self.failure
    }

    pub fn finished_at(&self) -> (r: Option<u64>)
        ensures
            r == self@.finished_at,
    {
        self.finished_at
    }

    pub fn terminate_requested_at(&self) -> (r: Option<u64>)
        ensures
            r == self@.terminate_requested_at,
    {
        self.terminate_requested_at
    }

    pub fn kill_sent(&self) -> (r: bool)
        ensures
            r == self@.kill_sent,
    {
        self.kill_sent
    }

    pub fn process_alive(&self) -> (r: bool)
        ensures
            r == self@.process_alive(),
    {
        self.state.holds_pty() && self.exit_status.is_none()
    }

    pub fn is_attached(&self, client: u64) -> (r: bool)
        requires
            self.wf(),
        ensures
            r == self@.clients.contains_key(client),
    {
        self.clients.contains(client)
    }

    pub fn attached_clients(&self) -> (r: usize)
        requires
            self.wf(),
        ensures
            r == self@.clients.dom().len(),
    {
        self.clients.count()
    }

    /// A copy of the recent output, oldest byte first.
    pub fn backlog(&self) -> (r: Vec<u8>)
        requires
            self.wf(),
        ensures
            r@ == self@.backlog,
    {
        self.backlog.to_vec()
    }

    pub fn status(&self) -> (r: SessionStatus)
        ensures
            r == self@.status(),
    {
        SessionStatus {
            state: self.state,
            exit_code: self.exit_code(),
            failure: self.failure,
            created_at: self.created_at,
            last_activity_at: self.last_activity_at,
            rows: self.rows,
            cols: self.cols,
        }
    }

    pub fn summary(&self) -> (r: SessionSummary)
        requires
            self.wf(),
        ensures
            r == self@.summary(),
    {
        SessionSummary {
            id: self.id,
            command: self.params.command.clone(),
            requested_by: self.requested_by.clone(),
            state: self.state,
            created_at: self.created_at,
            last_activity_at: self.last_activity_at,
            attached_clients: self.clients.count(),
        }
    }

    fn touch(&mut self, now: u64)
        ensures
            final(self)@ == old(self)@.touched(now),
            final(self).backlog == old(self).backlog,
            final(self).clients == old(self).clients,
    {
        if now > self.last_activity_at {
            self.last_activity_at = now;
        }
    }

    /// Reports that the process was launched.
    pub fn launch_succeeded(&mut self, now: u64) -> (r: Result<(), ServiceError>)
        requires
            old(self).wf(),
        ensures
            final(self).wf(),
            final(self)@ == old(self)@.launch_succeeded(now),
            r == old(self)@.launch_result(),
    {
        match self.state {
            SessionState::Starting => {
                self.touch(now);
                self.state = SessionState::Running;
                Ok(())
            },
            _ => Err(ServiceError::SessionNotRunning),
        }
    }

    /// Reports that the launch failed with `error`.
    pub fn launch_failed(&mut self, error: LaunchError, now: u64) -> (r: Result<(), ServiceError>)
        requires
            old(self).wf(),
        ensures
            final(self).wf(),
            final(self)@ == old(self)@.launch_failed(error, now),
            r == old(self)@.launch_result(),
    {
        match self.state {
            SessionState::Starting => {
                self.state = SessionState::Failed;
                self.failure = Some(ServiceError::Launch(error));
                self.finished_at = Some(now);
                Ok(())
            },
            _ => Err(ServiceError::SessionNotRunning),
        }
    }

    /// Attaches `client`. Refused once the session is exiting or finished;
    /// attaching twice is the same as attaching once.
    pub fn attach(&mut self, client: u64) -> (r: Result<(), ServiceError>)
        requires
            old(self).wf(),
        ensures
            final(self).wf(),
            final(self)@ == old(self)@.attach(client),
            r == old(self)@.attach_result(),
    {
        match self.state {
            SessionState::Starting | SessionState::Running => {
                self.clients.attach(client, &self.backlog);
                proof {
                    self.clients.lemma_bounded();
                }
                Ok(())
            },
            _ => Err(ServiceError::SessionNotRunning),
        }
    }

    /// Detaches `client`, attached or not. Nothing else changes.
    pub fn detach(&mut self, client: u64)
        requires
            old(self).wf(),
        ensures
            final(self).wf(),
            final(self)@ == old(self)@.detach(client),
    {
        self.clients.detach(client);
        proof {
            self.clients.lemma_bounded();
        }
    }

    /// Accepts input for the process. Refused unless the session is running.
    pub fn write(&mut self, bytes: &[u8], now: u64) -> (r: Result<(), ServiceError>)
        requires
            old(self).wf(),
        ensures
            final(self).wf(),
            final(self)@ == old(self)@.write(bytes@, now),
            r == old(self)@.write_result(),
    {
        match self.state {
            SessionState::Running => {
                if bytes.len() > 0 {
                    self.touch(now);
                }
                append_bytes(&mut self.pending_input, bytes);
                Ok(())
            },
            _ => Err(ServiceError::SessionNotRunning),
        }
    }

    /// Hands over the input accepted so far, in arrival order, and empties
    /// the queue.
    pub fn take_input(&mut self) -> (input: Vec<u8>)
        requires
            old(self).wf(),
        ensures
            final(self).wf(),
            input@ == old(self)@.pending_input,
            final(self)@ == old(self)@.take_input(),
    {
        let mut input: Vec<u8> = Vec::new();
        std::mem::swap(&mut input, &mut self.pending_input);
        input
    }

    /// Sets the terminal's dimensions. Bad dimensions are refused first, then
    /// a session that is not running.
    pub fn resize(&mut self, rows: u32, cols: u32) -> (r: Result<(), ServiceError>)
        requires
            old(self).wf(),
        ensures
            final(self).wf(),
            final(self)@ == old(self)@.resize(rows, cols),
            r == old(self)@.resize_result(rows, cols),
    {
        if check_dimensions(rows, cols).is_err() {
            return Err(ServiceError::InvalidDimensions);
        }
        match self.state {
            SessionState::Running => {
                self.rows = rows;
                self.cols = cols;
                Ok(())
            },
            _ => Err(ServiceError::SessionNotRunning),
        }
    }

    /// Relays output of the process to the history and to every attached
    /// client.
    pub fn output(&mut self, bytes: &[u8], now: u64) -> (r: Result<(), ServiceError>)
        requires
            old(self).wf(),
        ensures
            final(self).wf(),
            final(self)@ == old(self)@.output(bytes@, now),
            r == old(self)@.output_result(),
    {
        if self.state.holds_pty() && !self.output_closed {
            if bytes.len() > 0 {
                self.touch(now);
            }
            self.backlog.push_slice(bytes);
            self.clients.broadcast(bytes);
            proof {
                self.backlog.lemma_wf_len();
                self.clients.lemma_bounded();
            }
            Ok(())
        } else {
            Err(ServiceError::SessionNotRunning)
        }
    }

    /// Reports that the output reached its end. `Ok(true)` says that the
    /// session finished with this event, so its terminal is to be released.
    pub fn output_closed(&mut self, now: u64) -> (r: Result<bool, ServiceError>)
        requires
            old(self).wf(),
        ensures
            final(self).wf(),
            final(self)@ == old(self)@.output_closed(now),
            r == old(self)@.output_closed_result(),
    {
        if self.state.holds_pty() && !self.output_closed {
            self.output_closed = true;
            if self.exit_status.is_some() {
                self.state = SessionState::Terminated;
                self.finished_at = Some(now);
                Ok(true)
            } else {
                self.state = SessionState::Exiting;
                Ok(false)
            }
        } else {
            Err(ServiceError::SessionNotRunning)
        }
    }

    /// Reports that the process exited with `code`. `Ok(true)` says that the
    /// session finished with this event, so its terminal is to be released.
    pub fn process_exited(&mut self, code: i32, now: u64) -> (r: Result<bool, ServiceError>)
        requires
            old(self).wf(),
        ensures
            final(self).wf(),
            final(self)@ == old(self)@.process_exited(code, now),
            r == old(self)@.process_exited_result(),
    {
        if self.state.holds_pty() && self.exit_status.is_none() {
            self.exit_status = Some(code);
            if self.output_closed {
                self.state = SessionState::Terminated;
                self.finished_at = Some(now);
                Ok(true)
            } else {
                self.state = SessionState::Exiting;
                Ok(false)
            }
        } else {
            Err(ServiceError::SessionNotRunning)
        }
    }

    /// Reports that reading or writing the terminal failed. The session
    /// fails, and its terminal and process are to be released.
    pub fn io_failed(&mut self, now: u64) -> (r: Result<(), ServiceError>)
        requires
            old(self).wf(),
        ensures
            final(self).wf(),
            final(self)@ == old(self)@.io_failed(now),
            r == old(self)@.io_failed_result(),
    {
        if self.state.holds_pty() {
            self.state = SessionState::Failed;
            self.failure = Some(ServiceError::InternalIoError);
            self.finished_at = Some(now);
            Ok(())
        } else {
            Err(ServiceError::SessionNotRunning)
        }
    }

    /// Requests termination. A running session is `Exiting` when this
    /// returns. `Ok(Some(signal))` names the signal to deliver to the process;
    /// `Ok(None)` says that the process has exited already.
    pub fn terminate(&mut self, signal: Signal, now: u64) -> (r: Result<
        Option<Signal>,
        ServiceError,
    >)
        requires
            old(self).wf(),
        ensures
            final(self).wf(),
            final(self)@ == old(self)@.terminate(signal, now),
            r == old(self)@.terminate_result(signal),
    {
        if self.state.holds_pty() && self.exit_status.is_none() {
            self.state = SessionState::Exiting;
            if self.terminate_requested_at.is_none() {
                self.terminate_requested_at = Some(now);
            }
            match signal {
                Signal::Forced => {
                    self.kill_sent = true;
                },
                Signal::Graceful => {},
            }
            Ok(Some(signal))
        } else {
            match self.state {
                SessionState::Exiting => Ok(None),
                _ => Err(ServiceError::SessionNotRunning),
            }
        }
    }

    /// Hands `client` up to `max` bytes of the output queued for it, oldest
    /// first. No other client's queue changes.
    pub fn poll(&mut self, client: u64, max: usize) -> (out: Vec<u8>)
        requires
            old(self).wf(),
        ensures
            final(self).wf(),
            out@ == old(self)@.polled(client, max),
            final(self)@ == old(self)@.poll(client, max),
    {
        let out = self.clients.poll(client, max);
        proof {
            self.clients.lemma_bounded();
        }
        out
    }
}

} // verus!
