//! The session registry: every session of the service under its identifier,
//! with at most a fixed number of them active at once.

use crate::config::Config;
use crate::error::{LaunchError, ServiceError};
use crate::launcher::LaunchParams;
use crate::session::{Session, SessionState, SessionStatus, SessionSummary, SessionView};
use crate::signal::Signal;
use crate::supervisor::{directives, elapsed, judge, seconds_between, swept, Action, Verdict};
use vstd::prelude::*;

verus! {

/// How many of `sessions` fall in `class`.
pub open spec fn count_in(sessions: Seq<SessionView>, class: spec_fn(SessionView) -> bool) -> nat
    decreases sessions.len(),
{
    if sessions.len() == 0 {
        0
    } else {
        count_in(sessions.drop_last(), class) + if class(sessions.last()) {
            1nat
        } else {
            0nat
        }
    }
}

/// How many of `sessions` are starting, running or exiting.
pub open spec fn active_count(sessions: Seq<SessionView>) -> nat {
    count_in(sessions, |s: SessionView| s.state.is_active())
}

/// How many of `sessions` still await the outcome of their launch.
pub open spec fn starting_count(sessions: Seq<SessionView>) -> nat {
    count_in(sessions, |s: SessionView| s.state is Starting)
}

pub proof fn lemma_count_bound(sessions: Seq<SessionView>, class: spec_fn(SessionView) -> bool)
    ensures
        count_in(sessions, class) <= sessions.len(),
    decreases sessions.len(),
{
    if sessions.len() > 0 {
        lemma_count_bound(sessions.drop_last(), class);
    }
}

pub proof fn lemma_count_push(
    sessions: Seq<SessionView>,
    v: SessionView,
    class: spec_fn(SessionView) -> bool,
)
    ensures
        count_in(sessions.push(v), class) == count_in(sessions, class) + if class(v) {
            1nat
        } else {
            0nat
        },
{
    assert(sessions.push(v).drop_last() =~= sessions);
}

pub proof fn lemma_count_update(
    sessions: Seq<SessionView>,
    i: int,
    v: SessionView,
    class: spec_fn(SessionView) -> bool,
)
    requires
        0 <= i < sessions.len(),
    ensures
        count_in(sessions.update(i, v), class) + (if class(sessions[i]) {
            1nat
        } else {
            0nat
        }) == count_in(sessions, class) + (if class(v) {
            1nat
        } else {
            0nat
        }),
    decreases sessions.len(),
{
    let last = sessions.len() - 1;
    if i == last {
        assert(sessions.update(i, v).drop_last() =~= sessions.drop_last());
    } else {
        assert(sessions.update(i, v).drop_last() =~= sessions.drop_last().update(i, v));
        lemma_count_update(sessions.drop_last(), i, v, class);
    }
}

pub proof fn lemma_count_remove(
    sessions: Seq<SessionView>,
    i: int,
    class: spec_fn(SessionView) -> bool,
)
    requires
        0 <= i < sessions.len(),
    ensures
        count_in(sessions.remove(i), class) + (if class(sessions[i]) {
            1nat
        } else {
            0nat
        }) == count_in(sessions, class),
    decreases sessions.len(),
{
    let last = sessions.len() - 1;
    if i == last {
        assert(sessions.remove(i) =~= sessions.drop_last());
    } else {
        assert(sessions.remove(i).drop_last() =~= sessions.drop_last().remove(i));
        assert(sessions.remove(i).last() == sessions.last());
        lemma_count_remove(sessions.drop_last(), i, class);
    }
}

/// What a metrics query reports.
#[derive(Clone, Copy, Debug, PartialEq, Eq, Structural)]
pub struct Metrics {
    pub active_sessions: usize,
    pub max_sessions: usize,
    pub total_commands_executed: u64,
    pub uptime_seconds: u64,
}

/// The mathematical content of a registry: its sessions in the order of
/// their creation, which is the order of their identifiers.
pub struct RegistryView {
    pub config: Config,
    pub sessions: Seq<SessionView>,
    /// The identifier that the next session receives.
    pub next_id: u64,
    /// How many processes were launched successfully so far.
    pub launched: u64,
    /// When the service started.
    pub started_at: u64,
}

impl RegistryView {
    /// A registry without sessions.
    pub open spec fn empty(config: Config, now: u64) -> RegistryView {
        RegistryView { config, sessions: Seq::empty(), next_id: 1, launched: 0, started_at: now }
    }

    pub open spec fn contains(self, id: u64) -> bool {
        exists|i: int| 0 <= i < self.sessions.len() && self.sessions[i].id == id
    }

    /// Where the session `id` stands, if the registry contains it.
    pub open spec fn position(self, id: u64) -> int {
        choose|i: int| 0 <= i < self.sessions.len() && self.sessions[i].id == id
    }

    pub open spec fn lookup(self, id: u64) -> Option<SessionView> {
        if self.contains(id) {
            Some(self.sessions[self.position(id)])
        } else {
            None
        }
    }

    pub open spec fn active(self) -> nat {
        active_count(self.sessions)
    }

    /// Identifiers grow along the sequence, so none occurs twice.
    pub open spec fn sorted(self) -> bool {
        forall|i: int, j: int|
            0 <= i < j < self.sessions.len() ==> self.sessions[i].id < self.sessions[j].id
    }

    /// What holds of every registry at every moment: identifiers grow along
    /// the sequence and were all handed out already, every session is well
    /// formed with the configured bounds, no client is attached to two
    /// sessions, and the active sessions are within the limit.
    pub open spec fn wf(self) -> bool {
        &&& self.config.wf()
        &&& forall|i: int|
            0 <= i < self.sessions.len() ==> {
                &&& (#[trigger] self.sessions[i]).wf()
                &&& self.sessions[i].backlog_cap == self.config.output_buffer_bytes()
                &&& self.sessions[i].queue_cap == self.config.client_queue_bytes()
                &&& self.sessions[i].id < self.next_id
            }
        &&& self.sorted()
        &&& forall|i: int, j: int, c: u64|
            0 <= i < j < self.sessions.len() && #[trigger] self.sessions[i].clients.contains_key(c)
                ==> !#[trigger] self.sessions[j].clients.contains_key(c)
        &&& active_count(self.sessions) <= self.config.max_sessions()
        &&& self.launched + starting_count(self.sessions) < self.next_id
    }

    /// Putting `v` in place of the session at `i` attaches no client that is
    /// attached to another session.
    pub open spec fn admits(self, i: int, v: SessionView) -> bool {
        forall|c: u64, j: int|
            0 <= j < self.sessions.len() && j != i && #[trigger] v.clients.contains_key(c)
                && !self.sessions[i].clients.contains_key(c)
                ==> !#[trigger] self.sessions[j].clients.contains_key(c)
    }

    /// What `attach` answers.
    pub open spec fn attach_result(self, id: u64) -> Result<(), ServiceError> {
        self.answer(id, |s: SessionView| s.attach_result())
    }

    /// A successful `attach` attaches the client to the session `id` and
    /// detaches it from every other session; a refused one changes nothing.
    pub open spec fn attach(self, id: u64, client: u64) -> RegistryView {
        if self.attach_result(id) is Ok {
            RegistryView {
                sessions: Seq::new(
                    self.sessions.len(),
                    |i: int|
                        if self.sessions[i].id == id {
                            self.sessions[i].attach(client)
                        } else {
                            self.sessions[i].detach(client)
                        },
                ),
                ..self
            }
        } else {
            self
        }
    }

    /// The registry in which the session `id`, if there is one, went through
    /// `f`, and nothing else changed.
    pub open spec fn map_session(
        self,
        id: u64,
        f: spec_fn(SessionView) -> SessionView,
    ) -> RegistryView {
        RegistryView {
            sessions: Seq::new(
                self.sessions.len(),
                |i: int|
                    if self.sessions[i].id == id {
                        f(self.sessions[i])
                    } else {
                        self.sessions[i]
                    },
            ),
            ..self
        }
    }

    /// What `create` answers: a full registry refuses first, then bad
    /// parameters, then an exhausted identifier space.
    pub open spec fn create_result(self, params: LaunchParams) -> Result<u64, ServiceError> {
        if self.active() >= self.config.max_sessions() {
            Err(ServiceError::RegistryFull)
        } else if let Some(e) = params.refusal() {
            Err(ServiceError::Launch(e))
        } else if self.next_id == u64::MAX {
            Err(ServiceError::Launch(LaunchError::ResourceExhausted))
        } else {
            Ok(self.next_id)
        }
    }

    /// A successful `create` appends one starting session; a refused one
    /// changes nothing.
    pub open spec fn create(
        self,
        params: LaunchParams,
        requested_by: String,
        now: u64,
    ) -> RegistryView {
        if self.create_result(params) is Ok {
            RegistryView {
                sessions: self.sessions.push(
                    SessionView::starting(
                        self.next_id,
                        params,
                        requested_by,
                        now,
                        self.config.output_buffer_bytes() as nat,
                        self.config.client_queue_bytes() as nat,
                    ),
                ),
                next_id: (self.next_id + 1) as u64,
                ..self
            }
        } else {
            self
        }
    }

    /// The registry without the session `id`.
    pub open spec fn remove(self, id: u64) -> RegistryView {
        if self.contains(id) {
            RegistryView { sessions: self.sessions.remove(self.position(id)), ..self }
        } else {
            self
        }
    }

    /// What an operation on the session `id` answers: `NotFound` when there
    /// is no such session, else what the session itself answers.
    pub open spec fn answer<T>(
        self,
        id: u64,
        f: spec_fn(SessionView) -> Result<T, ServiceError>,
    ) -> Result<T, ServiceError> {
        match self.lookup(id) {
            Some(s) => f(s),
            None => Err(ServiceError::NotFound),
        }
    }

    /// The registry with `v` in place of the session at `i`.
    pub open spec fn with_session(self, i: int, v: SessionView) -> RegistryView {
        RegistryView { sessions: self.sessions.update(i, v), ..self }
    }

    /// A round of supervision touches nothing but the sessions.
    pub open spec fn tick(self, now: u64) -> RegistryView {
        RegistryView { sessions: swept(self.sessions, now, self.config), ..self }
    }

    /// A successful launch is counted.
    pub open spec fn launch_succeeded(self, id: u64, now: u64) -> RegistryView {
        RegistryView {
            launched: match self.lookup(id) {
                Some(s) if s.state is Starting => (self.launched + 1) as u64,
                _ => self.launched,
            },
            ..self.map_session(id, |s: SessionView| s.launch_succeeded(now))
        }
    }

    pub open spec fn listing(self) -> Seq<SessionSummary> {
        Seq::new(self.sessions.len(), |i: int| self.sessions[i].summary())
    }

    pub open spec fn metrics(self, now: u64) -> Metrics {
        Metrics {
            active_sessions: self.active() as usize,
            max_sessions: self.config.max_sessions(),
            total_commands_executed: self.launched,
            uptime_seconds: elapsed(self.started_at, now),
        }
    }

    /// Where identifiers grow, a session is found under its identifier.
    pub proof fn lemma_lookup(self, i: int)
        requires
            self.sorted(),
            0 <= i < self.sessions.len(),
        ensures
            self.contains(self.sessions[i].id),
            self.position(self.sessions[i].id) == i,
            self.lookup(self.sessions[i].id) == Some(self.sessions[i]),
    {
        let id = self.sessions[i].id;
        let p = self.position(id);
        assert(0 <= p < self.sessions.len() && self.sessions[p].id == id);
        if p < i {
            assert(self.sessions[p].id < self.sessions[i].id);
        } else if i < p {
            assert(self.sessions[i].id < self.sessions[p].id);
        }
    }

    /// Mapping the session at `i` replaces exactly that element.
    pub proof fn lemma_map_session(self, i: int, f: spec_fn(SessionView) -> SessionView)
        requires
            self.sorted(),
            0 <= i < self.sessions.len(),
        ensures
            self.map_session(self.sessions[i].id, f).sessions == self.sessions.update(
                i,
                f(self.sessions[i]),
            ),
    {
        let id = self.sessions[i].id;
        assert forall|j: int| 0 <= j < self.sessions.len() && j != i implies self.sessions[j].id
            != id by {
            if j < i {
                assert(self.sessions[j].id < self.sessions[i].id);
            } else {
                assert(self.sessions[i].id < self.sessions[j].id);
            }
        }
        assert(self.map_session(id, f).sessions =~= self.sessions.update(i, f(self.sessions[i])));
    }

    /// Mapping a session that is not there changes nothing.
    pub proof fn lemma_map_absent(self, id: u64, f: spec_fn(SessionView) -> SessionView)
        requires
            !self.contains(id),
        ensures
            self.map_session(id, f) == self,
    {
        assert(self.map_session(id, f).sessions =~= self.sessions);
    }
}

/// The registry. Its content is its view; see [`RegistryView`].
pub struct Registry {
    config: Config,
    sessions: Vec<Session>,
    next_id: u64,
    active: usize,
    launched: u64,
    started_at: u64,
}

impl View for Registry {
    type V = RegistryView;

    closed spec fn view(&self) -> RegistryView {
        RegistryView {
            config: self.config,
            sessions: Seq::new(self.sessions@.len(), |i: int| self.sessions@[i]@),
            next_id: self.next_id,
            launched: self.launched,
            started_at: self.started_at,
        }
    }
}

impl Registry {
    /// Every session is well formed, the whole is, and the cached count of
    /// active sessions is right.
    pub closed spec fn wf(&self) -> bool {
        &&& forall|i: int| 0 <= i < self.sessions@.len() ==> (#[trigger] self.sessions@[i]).wf()
        &&& self@.wf()
        &&& self.active == active_count(self@.sessions)
    }

    /// A well-formed registry has a well-formed view.
    pub proof fn lemma_wf(&self)
        requires
            self.wf(),
        ensures
            self@.wf(),
    {
    }

    /// An empty registry for a service that starts at `now`.
    pub fn new(config: Config, now: u64) -> (r: Registry)
        requires
            config.wf(),
        ensures
            r.wf(),
            r@ == RegistryView::empty(config, now),
    {
        let r = Registry {
            config,
            sessions: Vec::new(),
            next_id: 1,
            active: 0,
            launched: 0,
            started_at: now,
        };
        assert(r@.sessions =~= Seq::<SessionView>::empty());
        r
    }

    pub fn config(&self) -> (c: Config)
        ensures
            c == self@.config,
    {
        self.config
    }

    /// The number of sessions on record, finished ones included.
    pub fn len(&self) -> (n: usize)
        ensures
            n == self@.sessions.len(),
    {
        self.sessions.len()
    }

    /// The number of sessions that count against the limit.
    pub fn active_sessions(&self) -> (n: usize)
        requires
            self.wf(),
        ensures
            n == self@.active(),
            n <= self@.config.max_sessions(),
    {
        self.active
    }

    fn find(&self, id: u64) -> (r: Option<usize>)
        requires
            self.wf(),
        ensures
            match r {
                Some(i) => i < self@.sessions.len() && self@.sessions[i as int].id == id
                    && self@.lookup(id) == Some(self@.sessions[i as int]),
                None => !self@.contains(id),
            },
    {
        let n: usize = self.sessions.len();
        let mut i: usize = 0;
        while i < n
            invariant
                self.wf(),
                n == self.sessions@.len(),
                i <= n,
                forall|j: int| 0 <= j < i ==> self@.sessions[j].id != id,
            decreases n - i,
        {
            if self.sessions[i].id() == id {
                proof {
                    self@.lemma_lookup(i as int);
                }
                return Some(i);
            }
            i += 1;
        }
        None
    }

    /// Reserves a slot and a fresh identifier for a session that will run
    /// `params`, in one step. On `Ok(id)` the session is `Starting`: the
    /// caller launches the process and reports the outcome under `id`.
    pub fn create(&mut self, params: LaunchParams, requested_by: String, now: u64) -> (r: Result<
        u64,
        ServiceError,
    >)
        requires
            old(self).wf(),
        ensures
            final(self).wf(),
            r == old(self)@.create_result(params),
            final(self)@ == old(self)@.create(params, requested_by, now),
    {
        if self.active >= self.config.max_sessions() {
            return Err(ServiceError::RegistryFull);
        }
        if self.next_id == u64::MAX {
            return match params.validate() {
                Err(e) => Err(ServiceError::Launch(e)),
                Ok(_) => Err(ServiceError::Launch(LaunchError::ResourceExhausted)),
            };
        }
        let id = self.next_id;
        match Session::new(
            id,
            params,
            requested_by,
            now,
            self.config.output_buffer_bytes(),
            self.config.client_queue_bytes(),
        ) {
            Err(e) => Err(ServiceError::Launch(e)),
            Ok(session) => {
                let ghost pre = self@;
                let ghost v = session@;
                proof {
                    session.lemma_wf();
                    lemma_count_push(pre.sessions, v, |s: SessionView| s.state.is_active());
                    lemma_count_push(pre.sessions, v, |s: SessionView| s.state is Starting);
                }
                self.sessions.push(session);
                self.next_id = id + 1;
                self.active = self.active + 1;
                assert(self@.sessions =~= pre.sessions.push(v));
                Ok(id)
            },
        }
    }

    /// Brings the cached count of active sessions up to date after the
    /// session at `i` changed, and concludes that the registry is well formed.
    fn settle(&mut self, i: usize, Ghost(pre): Ghost<RegistryView>, was_active: bool)
        requires
            pre.wf(),
            i < pre.sessions.len(),
            old(self).sessions@.len() == pre.sessions.len(),
            old(self).config == pre.config,
            old(self).next_id == pre.next_id,
            old(self).launched == pre.launched,
            old(self).started_at == pre.started_at,
            old(self).active == active_count(pre.sessions),
            was_active == pre.sessions[i as int].state.is_active(),
            forall|j: int|
                0 <= j < pre.sessions.len() ==> (#[trigger] old(self).sessions@[j]).wf(),
            forall|j: int|
                0 <= j < pre.sessions.len() && j != i ==> (#[trigger] old(self).sessions@[j])@
                    == pre.sessions[j],
            old(self).sessions@[i as int]@.id == pre.sessions[i as int].id,
            old(self).sessions@[i as int]@.backlog_cap == pre.sessions[i as int].backlog_cap,
            old(self).sessions@[i as int]@.queue_cap == pre.sessions[i as int].queue_cap,
            old(self).sessions@[i as int]@.state.is_active()
                ==> pre.sessions[i as int].state.is_active(),
            old(self).sessions@[i as int]@.state is Starting
                ==> pre.sessions[i as int].state is Starting,
            pre.admits(i as int, old(self).sessions@[i as int]@),
        ensures
            final(self).wf(),
            final(self)@ == pre.with_session(i as int, old(self).sessions@[i as int]@),
            starting_count(final(self)@.sessions) + (if pre.sessions[i as int].state is Starting {
                1nat
            } else {
                0nat
            }) == starting_count(pre.sessions) + (if final(self)@.sessions[i as int].state
                is Starting {
                1nat
            } else {
                0nat
            }),
    {
        let ghost v = self.sessions@[i as int]@;
        let now_active = self.sessions[i].state().is_active();
        proof {
            self.sessions@[i as int].lemma_wf();
            lemma_count_update(pre.sessions, i as int, v, |s: SessionView| s.state.is_active());
            lemma_count_update(pre.sessions, i as int, v, |s: SessionView| s.state is Starting);
        }
        if was_active && !now_active {
            self.active = self.active - 1;
        }
        proof {
            let post = self@;
            assert(post.sessions =~= pre.sessions.update(i as int, v));
            assert forall|a: int, b: int, c: u64|
                0 <= a < b < post.sessions.len() && #[trigger] post.sessions[a].clients.contains_key(
                    c,
                ) implies !#[trigger] post.sessions[b].clients.contains_key(c) by {
                if a == i {
                    if pre.sessions[a].clients.contains_key(c) {
                        assert(!pre.sessions[b].clients.contains_key(c));
                    } else {
                        assert(v.clients.contains_key(c));
                        assert(!pre.sessions[b].clients.contains_key(c));
                    }
                } else if b == i {
                    assert(pre.sessions[a].clients.contains_key(c));
                    if v.clients.contains_key(c) {
                        if pre.sessions[b].clients.contains_key(c) {
                        } else {
                            assert(!pre.sessions[a].clients.contains_key(c));
                        }
                    }
                } else {
                    assert(pre.sessions[a].clients.contains_key(c));
                }
            }
        }
    }

    /// Reports that the process of session `id` was launched. The session
    /// becomes `Running` and the launch is counted.
    pub fn launch_succeeded(&mut self, id: u64, now: u64) -> (r: Result<(), ServiceError>)
        requires
            old(self).wf(),
        ensures
            final(self).wf(),
            final(self)@ == old(self)@.launch_succeeded(id, now),
            r == old(self)@.answer(id, |s: SessionView| s.launch_result()),
    {
        match self.find(id) {
            None => {
                proof {
                    self@.lemma_map_absent(id, |s: SessionView| s.launch_succeeded(now));
                }
                Err(ServiceError::NotFound)
            },
            Some(i) => {
                let ghost pre = self@;
                let was_active = self.sessions[i].state().is_active();
                let r = self.sessions[i].launch_succeeded(now);
                self.settle(i, Ghost(pre), was_active);
                proof {
                    pre.lemma_map_session(i as int, |s: SessionView| s.launch_succeeded(now));
                }
                if r.is_ok() {
                    self.launched = self.launched + 1;
                }
                r
            },
        }
    }

    /// Reports that the launch of session `id` failed. The session becomes
    /// `Failed` and its slot is free again.
    pub fn launch_failed(&mut self, id: u64, error: LaunchError, now: u64) -> (r: Result<
        (),
        ServiceError,
    >)
        requires
            old(self).wf(),
        ensures
            final(self).wf(),
            final(self)@ == old(self)@.map_session(
                id,
                |s: SessionView| s.launch_failed(error, now),
            ),
            r == old(self)@.answer(id, |s: SessionView| s.launch_result()),
    {
        match self.find(id) {
            None => {
                proof {
                    self@.lemma_map_absent(id, |s: SessionView| s.launch_failed(error, now));
                }
                Err(ServiceError::NotFound)
            },
            Some(i) => {
                let ghost pre = self@;
                let was_active = self.sessions[i].state().is_active();
                let r = self.sessions[i].launch_failed(error, now);
                self.settle(i, Ghost(pre), was_active);
                proof {
                    pre.lemma_map_session(i as int, |s: SessionView| s.launch_failed(error, now));
                }
                r
            },
        }
    }

    fn detach_at(&mut self, i: usize, client: u64)
        requires
            old(self).wf(),
            i < old(self)@.sessions.len(),
        ensures
            final(self).wf(),
            final(self)@ == old(self)@.with_session(
                i as int,
                old(self)@.sessions[i as int].detach(client),
            ),
    {
        let ghost pre = self@;
        let was_active = self.sessions[i].state().is_active();
        self.sessions[i].detach(client);
        self.settle(i, Ghost(pre), was_active);
    }

    /// Attaches `client` to session `id`: from now on the client's queue
    /// receives the session's output, after the recent history. A client is
    /// attached to one session at a time: it leaves any other session.
    pub fn attach(&mut self, id: u64, client: u64) -> (r: Result<(), ServiceError>)
        requires
            old(self).wf(),
        ensures
            final(self).wf(),
            final(self)@ == old(self)@.attach(id, client),
            r == old(self)@.attach_result(id),
    {
        let target = match self.find(id) {
            None => {
                return Err(ServiceError::NotFound);
            },
            Some(i) => i,
        };
        match self.sessions[target].state() {
            SessionState::Starting | SessionState::Running => {},
            _ => {
                return Err(ServiceError::SessionNotRunning);
            },
        }
        let ghost pre = self@;
        let n: usize = self.sessions.len();
        let mut k: usize = 0;
        while k < n
            invariant
                self.wf(),
                pre.wf(),
                target < n,
                n == pre.sessions.len(),
                k <= n,
                self@.config == pre.config,
                self@.next_id == pre.next_id,
                self@.launched == pre.launched,
                self@.started_at == pre.started_at,
                self@.sessions.len() == n,
                forall|j: int|
                    0 <= j < n ==> #[trigger] self@.sessions[j] == if j < k && j != target {
                        pre.sessions[j].detach(client)
                    } else {
                        pre.sessions[j]
                    },
            decreases n - k,
        {
            if k != target {
                self.detach_at(k, client);
            }
            k = k + 1;
        }
        let ghost mid = self@;
        let was_active = self.sessions[target].state().is_active();
        let r = self.sessions[target].attach(client);
        proof {
            let v = self.sessions@[target as int]@;
            assert forall|c: u64, j: int|
                0 <= j < mid.sessions.len() && j != target && #[trigger] v.clients.contains_key(c)
                    && !mid.sessions[target as int].clients.contains_key(c) implies !(
            #[trigger] mid.sessions[j].clients.contains_key(c)) by {
                assert(c == client);
                assert(mid.sessions[j] == pre.sessions[j].detach(client));
            }
        }
        self.settle(target, Ghost(mid), was_active);
        proof {
            assert forall|j: int| 0 <= j < n && j != target implies pre.sessions[j].id
                != id by {
                if j < target {
                    assert(pre.sessions[j].id < pre.sessions[target as int].id);
                } else {
                    assert(pre.sessions[target as int].id < pre.sessions[j].id);
                }
            }
            assert(self@.sessions =~= pre.attach(id, client).sessions);
        }
        r
    }

    /// Accepts input from a client for the process of session `id`.
    pub fn write(&mut self, id: u64, bytes: &[u8], now: u64) -> (r: Result<(), ServiceError>)
        requires
            old(self).wf(),
        ensures
            final(self).wf(),
            final(self)@ == old(self)@.map_session(id, |s: SessionView| s.write(bytes@, now)),
            r == old(self)@.answer(id, |s: SessionView| s.write_result()),
    {
        match self.find(id) {
            None => {
                proof {
                    self@.lemma_map_absent(id, |s: SessionView| s.write(bytes@, now));
                }
                Err(ServiceError::NotFound)
            },
            Some(i) => {
                let ghost pre = self@;
                let was_active = self.sessions[i].state().is_active();
                let r = self.sessions[i].write(bytes, now);
                self.settle(i, Ghost(pre), was_active);
                proof {
                    pre.lemma_map_session(i as int, |s: SessionView| s.write(bytes@, now));
                }
                r
            },
        }
    }

    /// Sets the terminal dimensions of session `id`. On `Ok` the caller
    /// passes them on to the terminal.
    pub fn resize(&mut self, id: u64, rows: u32, cols: u32) -> (r: Result<(), ServiceError>)
        requires
            old(self).wf(),
        ensures
            final(self).wf(),
            final(self)@ == old(self)@.map_session(id, |s: SessionView| s.resize(rows, cols)),
            r == old(self)@.answer(id, |s: SessionView| s.resize_result(rows, cols)),
    {
        match self.find(id) {
            None => {
                proof {
                    self@.lemma_map_absent(id, |s: SessionView| s.resize(rows, cols));
                }
                Err(ServiceError::NotFound)
            },
            Some(i) => {
                let ghost pre = self@;
                let was_active = self.sessions[i].state().is_active();
                let r = self.sessions[i].resize(rows, cols);
                self.settle(i, Ghost(pre), was_active);
                proof {
                    pre.lemma_map_session(i as int, |s: SessionView| s.resize(rows, cols));
                }
                r
            },
        }
    }

    /// Relays output of the process of session `id` to its history and to
    /// every client attached to it.
    pub fn output(&mut self, id: u64, bytes: &[u8], now: u64) -> (r: Result<(), ServiceError>)
        requires
            old(self).wf(),
        ensures
            final(self).wf(),
            final(self)@ == old(self)@.map_session(id, |s: SessionView| s.output(bytes@, now)),
            r == old(self)@.answer(id, |s: SessionView| s.output_result()),
    {
        match self.find(id) {
            None => {
                proof {
                    self@.lemma_map_absent(id, |s: SessionView| s.output(bytes@, now));
                }
                Err(ServiceError::NotFound)
            },
            Some(i) => {
                let ghost pre = self@;
                let was_active = self.sessions[i].state().is_active();
                let r = self.sessions[i].output(bytes, now);
                self.settle(i, Ghost(pre), was_active);
                proof {
                    pre.lemma_map_session(i as int, |s: SessionView| s.output(bytes@, now));
                }
                r
            },
        }
    }

    /// Reports that the output of session `id` reached its end. `Ok(true)`
    /// says that the session finished: its terminal is to be released.
    pub fn output_closed(&mut self, id: u64, now: u64) -> (r: Result<bool, ServiceError>)
        requires
            old(self).wf(),
        ensures
            final(self).wf(),
            final(self)@ == old(self)@.map_session(id, |s: SessionView| s.output_closed(now)),
            r == old(self)@.answer(id, |s: SessionView| s.output_closed_result()),
    {
        match self.find(id) {
            None => {
                proof {
                    self@.lemma_map_absent(id, |s: SessionView| s.output_closed(now));
                }
                Err(ServiceError::NotFound)
            },
            Some(i) => {
                let ghost pre = self@;
                let was_active = self.sessions[i].state().is_active();
                let r = self.sessions[i].output_closed(now);
                self.settle(i, Ghost(pre), was_active);
                proof {
                    pre.lemma_map_session(i as int, |s: SessionView| s.output_closed(now));
                }
                r
            },
        }
    }

    /// Reports that the process of session `id` exited with `code`.
    /// `Ok(true)` says that the session finished: its terminal is to be
    /// released.
    pub fn process_exited(&mut self, id: u64, code: i32, now: u64) -> (r: Result<
        bool,
        ServiceError,
    >)
        requires
            old(self).wf(),
        ensures
            final(self).wf(),
            final(self)@ == old(self)@.map_session(
                id,
                |s: SessionView| s.process_exited(code, now),
            ),
            r == old(self)@.answer(id, |s: SessionView| s.process_exited_result()),
    {
        match self.find(id) {
            None => {
                proof {
                    self@.lemma_map_absent(id, |s: SessionView| s.process_exited(code, now));
                }
                Err(ServiceError::NotFound)
            },
            Some(i) => {
                let ghost pre = self@;
                let was_active = self.sessions[i].state().is_active();
                let r = self.sessions[i].process_exited(code, now);
                self.settle(i, Ghost(pre), was_active);
                proof {
                    pre.lemma_map_session(i as int, |s: SessionView| s.process_exited(code, now));
                }
                r
            },
        }
    }

    /// Reports that the terminal of session `id` failed. The session becomes
    /// `Failed`; its terminal and process are to be released. No other
    /// session is touched.
    pub fn io_failed(&mut self, id: u64, now: u64) -> (r: Result<(), ServiceError>)
        requires
            old(self).wf(),
        ensures
            final(self).wf(),
            final(self)@ == old(self)@.map_session(id, |s: SessionView| s.io_failed(now)),
            r == old(self)@.answer(id, |s: SessionView| s.io_failed_result()),
    {
        match self.find(id) {
            None => {
                proof {
                    self@.lemma_map_absent(id, |s: SessionView| s.io_failed(now));
                }
                Err(ServiceError::NotFound)
            },
            Some(i) => {
                let ghost pre = self@;
                let was_active = self.sessions[i].state().is_active();
                let r = self.sessions[i].io_failed(now);
                self.settle(i, Ghost(pre), was_active);
                proof {
                    pre.lemma_map_session(i as int, |s: SessionView| s.io_failed(now));
                }
                r
            },
        }
    }

    /// Requests termination of session `id`. A running session is `Exiting`
    /// when this returns. `Ok(Some(signal))` names the signal to deliver;
    /// `Ok(None)` says that the process has exited already.
    pub fn terminate(&mut self, id: u64, signal: Signal, now: u64) -> (r: Result<
        Option<Signal>,
        ServiceError,
    >)
        requires
            old(self).wf(),
        ensures
            final(self).wf(),
            final(self)@ == old(self)@.map_session(id, |s: SessionView| s.terminate(signal, now)),
            r == old(self)@.answer(id, |s: SessionView| s.terminate_result(signal)),
    {
        match self.find(id) {
            None => {
                proof {
                    self@.lemma_map_absent(id, |s: SessionView| s.terminate(signal, now));
                }
                Err(ServiceError::NotFound)
            },
            Some(i) => {
                let ghost pre = self@;
                let was_active = self.sessions[i].state().is_active();
                let r = self.sessions[i].terminate(signal, now);
                self.settle(i, Ghost(pre), was_active);
                proof {
                    pre.lemma_map_session(i as int, |s: SessionView| s.terminate(signal, now));
                }
                r
            },
        }
    }

    /// Detaches `client` from session `id`, attached or not. No other client
    /// and no other session is touched.
    pub fn detach(&mut self, id: u64, client: u64) -> (r: Result<(), ServiceError>)
        requires
            old(self).wf(),
        ensures
            final(self).wf(),
            final(self)@ == old(self)@.map_session(id, |s: SessionView| s.detach(client)),
            r == if old(self)@.contains(id) {
                Ok::<(), ServiceError>(())
            } else {
                Err::<(), ServiceError>(ServiceError::NotFound)
            },
    {
        match self.find(id) {
            None => {
                proof {
                    self@.lemma_map_absent(id, |s: SessionView| s.detach(client));
                }
                Err(ServiceError::NotFound)
            },
            Some(i) => {
                let ghost pre = self@;
                let was_active = self.sessions[i].state().is_active();
                self.sessions[i].detach(client);
                self.settle(i, Ghost(pre), was_active);
                proof {
                    pre.lemma_map_session(i as int, |s: SessionView| s.detach(client));
                }
                Ok(())
            },
        }
    }

    /// Hands over the input that session `id` accepted and has not handed
    /// over yet, in arrival order.
    pub fn take_input(&mut self, id: u64) -> (r: Result<Vec<u8>, ServiceError>)
        requires
            old(self).wf(),
        ensures
            final(self).wf(),
            final(self)@ == old(self)@.map_session(id, |s: SessionView| s.take_input()),
            match old(self)@.lookup(id) {
                Some(s) => r matches Ok(input) && input@ == s.pending_input,
                None => r matches Err(e) && e == ServiceError::NotFound,
            },
    {
        match self.find(id) {
            None => {
                proof {
                    self@.lemma_map_absent(id, |s: SessionView| s.take_input());
                }
                Err(ServiceError::NotFound)
            },
            Some(i) => {
                let ghost pre = self@;
                let was_active = self.sessions[i].state().is_active();
                let input = self.sessions[i].take_input();
                self.settle(i, Ghost(pre), was_active);
                proof {
                    pre.lemma_map_session(i as int, |s: SessionView| s.take_input());
                }
                Ok(input)
            },
        }
    }

    /// Hands `client` up to `max` bytes of the output queued for it in
    /// session `id`, oldest first.
    pub fn poll(&mut self, id: u64, client: u64, max: usize) -> (r: Result<Vec<u8>, ServiceError>)
        requires
            old(self).wf(),
        ensures
            final(self).wf(),
            final(self)@ == old(self)@.map_session(id, |s: SessionView| s.poll(client, max)),
            match old(self)@.lookup(id) {
                Some(s) => r matches Ok(out) && out@ == s.polled(client, max),
                None => r matches Err(e) && e == ServiceError::NotFound,
            },
    {
        match self.find(id) {
            None => {
                proof {
                    self@.lemma_map_absent(id, |s: SessionView| s.poll(client, max));
                }
                Err(ServiceError::NotFound)
            },
            Some(i) => {
                let ghost pre = self@;
                let was_active = self.sessions[i].state().is_active();
                let out = self.sessions[i].poll(client, max);
                self.settle(i, Ghost(pre), was_active);
                proof {
                    pre.lemma_map_session(i as int, |s: SessionView| s.poll(client, max));
                }
                Ok(out)
            },
        }
    }

    fn remove_at(&mut self, i: usize)
        requires
            old(self).wf(),
            i < old(self)@.sessions.len(),
        ensures
            final(self).wf(),
            final(self)@ == (RegistryView {
                sessions: old(self)@.sessions.remove(i as int),
                ..old(self)@
            }),
    {
        let ghost pre = self@;
        let removed = self.sessions.remove(i);
        proof {
            lemma_count_remove(pre.sessions, i as int, |s: SessionView| s.state.is_active());
            lemma_count_remove(pre.sessions, i as int, |s: SessionView| s.state is Starting);
        }
        if removed.state().is_active() {
            self.active = self.active - 1;
        }
        proof {
            assert(self@.sessions =~= pre.sessions.remove(i as int));
            assert forall|j: int| 0 <= j < self@.sessions.len() implies #[trigger] self@.sessions[j]
                == pre.sessions[if j < i { j } else { j + 1 }] by {}
        }
    }

    /// Drops the record of session `id`, whatever its state, and answers with
    /// its last status. The supervisor drops finished sessions this way; who
    /// drops an active one takes over its process and terminal.
    pub fn remove(&mut self, id: u64) -> (r: Result<SessionStatus, ServiceError>)
        requires
            old(self).wf(),
        ensures
            final(self).wf(),
            final(self)@ == old(self)@.remove(id),
            r == old(self)@.answer(
                id,
                |s: SessionView| Ok::<SessionStatus, ServiceError>(s.status()),
            ),
    {
        match self.find(id) {
            None => Err(ServiceError::NotFound),
            Some(i) => {
                let status = self.sessions[i].status();
                self.remove_at(i);
                Ok(status)
            },
        }
    }

    /// One round of supervision at `now`. Every session is judged on its own:
    /// idle ones are asked to terminate, overdue ones are killed, and
    /// finished ones whose retention has passed are dropped. The result lists
    /// what the caller is to carry out.
    pub fn tick(&mut self, now: u64) -> (actions: Vec<Action>)
        requires
            old(self).wf(),
        ensures
            final(self).wf(),
            final(self)@ == old(self)@.tick(now),
            actions@ == directives(old(self)@.sessions, now, old(self)@.config),
    {
        let ghost pre = self@;
        let ghost mut i: int = 0;
        let mut k: usize = 0;
        let mut actions: Vec<Action> = Vec::new();
        proof {
            assert(pre.sessions.take(0) =~= Seq::<SessionView>::empty());
            assert(pre.sessions.skip(0) =~= pre.sessions);
            assert(self@.sessions =~= swept(pre.sessions.take(0), now, pre.config)
                + pre.sessions.skip(0));
        }
        while k < self.sessions.len()
            invariant
                self.wf(),
                pre.wf(),
                self@.config == pre.config,
                self@.next_id == pre.next_id,
                self@.launched == pre.launched,
                self@.started_at == pre.started_at,
                0 <= i <= pre.sessions.len(),
                k == swept(pre.sessions.take(i), now, pre.config).len(),
                self@.sessions == swept(pre.sessions.take(i), now, pre.config) + pre.sessions.skip(
                    i,
                ),
                actions@ == directives(pre.sessions.take(i), now, pre.config),
            decreases pre.sessions.len() - i,
        {
            let ghost done = swept(pre.sessions.take(i), now, pre.config);
            let ghost cur = pre.sessions[i];
            proof {
                assert(self@.sessions.len() == done.len() + pre.sessions.skip(i).len());
                assert(i < pre.sessions.len());
                assert(self@.sessions[k as int] == pre.sessions.skip(i)[0]);
                assert(pre.sessions.take(i + 1).drop_last() =~= pre.sessions.take(i));
                assert(pre.sessions.take(i + 1).last() == cur);
            }
            let id = self.sessions[k].id();
            let v = judge(&self.sessions[k], now, &self.config);
            match v {
                Verdict::Keep => {
                    proof {
                        assert(self@.sessions =~= done.push(cur) + pre.sessions.skip(i + 1));
                    }
                    k = k + 1;
                },
                Verdict::Signal(signal) => {
                    let ghost before = self@;
                    let was_active = self.sessions[k].state().is_active();
                    let _ = self.sessions[k].terminate(signal, now);
                    self.settle(k, Ghost(before), was_active);
                    actions.push(Action::Deliver { id, signal });
                    proof {
                        assert(self@.sessions =~= done.push(cur.terminate(signal, now))
                            + pre.sessions.skip(i + 1));
                    }
                    k = k + 1;
                },
                Verdict::Purge => {
                    self.remove_at(k);
                    actions.push(Action::Forget { id });
                    proof {
                        assert(self@.sessions =~= done + pre.sessions.skip(i + 1));
                    }
                },
            }
            proof {
                i = i + 1;
            }
        }
        proof {
            assert(pre.sessions.skip(i).len() == 0);
            assert(pre.sessions.take(i) =~= pre.sessions);
            assert(self@.sessions =~= swept(pre.sessions, now, pre.config));
        }
        actions
    }

    /// The session `id`.
    pub fn get(&self, id: u64) -> (r: Result<&Session, ServiceError>)
        requires
            self.wf(),
        ensures
            match r {
                Ok(s) => s.wf() && self@.lookup(id) == Some(s@),
                Err(e) => e == ServiceError::NotFound && self@.lookup(id) is None,
            },
    {
        match self.find(id) {
            Some(i) => Ok(&self.sessions[i]),
            None => Err(ServiceError::NotFound),
        }
    }

    /// The status of the session `id`.
    pub fn status(&self, id: u64) -> (r: Result<SessionStatus, ServiceError>)
        requires
            self.wf(),
        ensures
            r == match self@.lookup(id) {
                Some(s) => Ok::<SessionStatus, ServiceError>(s.status()),
                None => Err::<SessionStatus, ServiceError>(ServiceError::NotFound),
            },
    {
        match self.find(id) {
            Some(i) => Ok(self.sessions[i].status()),
            None => Err(ServiceError::NotFound),
        }
    }

    /// A snapshot of all sessions on record, in the order of their creation.
    pub fn list(&self) -> (r: Vec<SessionSummary>)
        requires
            self.wf(),
        ensures
            r@ == self@.listing(),
    {
        let n: usize = self.sessions.len();
        let mut out: Vec<SessionSummary> = Vec::new();
        let mut i: usize = 0;
        while i < n
            invariant
                self.wf(),
                n == self.sessions@.len(),
                i <= n,
                out@.len() == i,
                forall|j: int| 0 <= j < i ==> out@[j] == self@.sessions[j].summary(),
            decreases n - i,
        {
            out.push(self.sessions[i].summary());
            i += 1;
        }
        assert(out@ =~= self@.listing());
        out
    }

    /// The service's counters as of `now`.
    pub fn metrics(&self, now: u64) -> (m: Metrics)
        requires
            self.wf(),
        ensures
            m == self@.metrics(now),
    {
        Metrics {
            active_sessions: self.active,
            max_sessions: self.config.max_sessions(),
            total_commands_executed: self.launched,
            uptime_seconds: seconds_between(self.started_at, now),
        }
    }
}

} // verus!
