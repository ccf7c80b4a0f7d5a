//! What the service guarantees, proved over the mathematical content of
//! sessions and registries.

use crate::buffer::{keep_last, lemma_keep_last_append};
use crate::config::Config;
use crate::error::{LaunchError, ServiceError};
use crate::launcher::LaunchParams;
use crate::registry::{
    active_count, lemma_count_push, lemma_count_remove, lemma_count_update, starting_count,
    Registry, RegistryView,
};
use crate::session::SessionView;
use crate::signal::Signal;
use crate::supervisor::{elapsed, supervised, swept, verdict, Verdict};
use vstd::prelude::*;

verus! {

/// Every transition of a session keeps it well formed.
pub proof fn lemma_transitions_keep_sessions_well_formed(
    s: SessionView,
    now: u64,
    client: u64,
    bytes: Seq<u8>,
    rows: u32,
    cols: u32,
    code: i32,
    error: LaunchError,
    signal: Signal,
    max: usize,
    config: Config,
)
    requires
        s.wf(),
    ensures
        s.launch_succeeded(now).wf(),
        s.launch_failed(error, now).wf(),
        s.attach(client).wf(),
        s.detach(client).wf(),
        s.write(bytes, now).wf(),
        s.take_input().wf(),
        s.resize(rows, cols).wf(),
        s.output(bytes, now).wf(),
        s.output_closed(now).wf(),
        s.process_exited(code, now).wf(),
        s.io_failed(now).wf(),
        s.terminate(signal, now).wf(),
        s.poll(client, max).wf(),
        supervised(s, now, config).wf(),
{
    let out = s.output(bytes, now);
    assert(out.clients.dom() =~= s.clients.dom());
    assert(s.poll(client, max).clients.dom() =~= s.clients.dom());
}

/// Attaching twice is the same as attaching once, and is answered alike.
pub proof fn lemma_attach_is_idempotent(s: SessionView, client: u64)
    ensures
        s.attach(client).attach(client) == s.attach(client),
        s.attach(client).attach_result() == s.attach_result(),
{
}

/// Detaching twice is the same as detaching once, and detaching a client
/// that is not attached changes nothing.
pub proof fn lemma_detach_is_idempotent(s: SessionView, client: u64)
    ensures
        s.detach(client).detach(client) == s.detach(client),
        !s.clients.contains_key(client) ==> s.detach(client) == s,
{
    assert(s.clients.remove(client).remove(client) =~= s.clients.remove(client));
    if !s.clients.contains_key(client) {
        assert(s.clients.remove(client) =~= s.clients);
    }
}

/// Detaching one client leaves every other client attached with its queue
/// untouched, and leaves the session's state and everything else as it was.
pub proof fn lemma_detach_touches_one_client(s: SessionView, leaving: u64, other: u64)
    requires
        other != leaving,
    ensures
        s.detach(leaving).clients.contains_key(other) == s.clients.contains_key(other),
        s.clients.contains_key(other) ==> s.detach(leaving).clients[other] == s.clients[other],
        !s.detach(leaving).clients.contains_key(leaving),
        s.detach(leaving) == (SessionView { clients: s.detach(leaving).clients, ..s }),
        s.detach(leaving).state == s.state,
{
}

/// Output reaches all attached clients alike. Each queue receives the same
/// bytes in the same order, behind what it held, and is trimmed on its own:
/// two clients with room for the bytes both receive exactly them, two
/// clients with equal queues keep equal queues, and the newest bytes of any
/// two queues are the same.
pub proof fn lemma_output_reaches_all_clients_alike(
    s: SessionView,
    bytes: Seq<u8>,
    now: u64,
    a: u64,
    b: u64,
)
    requires
        s.wf(),
        s.accepts_output(),
        s.clients.contains_key(a),
        s.clients.contains_key(b),
    ensures
        ({
            let after = s.output(bytes, now);
            let newest = keep_last(bytes, s.queue_cap);
            &&& after.clients.contains_key(a)
            &&& after.clients.contains_key(b)
            &&& after.clients[a] == keep_last(s.clients[a] + bytes, s.queue_cap)
            &&& after.clients[b] == keep_last(s.clients[b] + bytes, s.queue_cap)
            &&& s.clients[a].len() + bytes.len() <= s.queue_cap ==> after.clients[a]
                == s.clients[a] + bytes
            &&& s.clients[b].len() + bytes.len() <= s.queue_cap ==> after.clients[b]
                == s.clients[b] + bytes
            &&& s.clients[a] == s.clients[b] ==> after.clients[a] == after.clients[b]
            &&& keep_last(after.clients[a], newest.len()) == newest
            &&& keep_last(after.clients[b], newest.len()) == newest
        }),
{
    let after = s.output(bytes, now);
    let newest = keep_last(bytes, s.queue_cap);
    assert(keep_last(after.clients[a], newest.len()) =~= newest);
    assert(keep_last(after.clients[b], newest.len()) =~= newest);
}

/// The chunks of output joined in the order in which they were produced.
pub open spec fn joined(chunks: Seq<Seq<u8>>) -> Seq<u8>
    decreases chunks.len(),
{
    if chunks.len() == 0 {
        Seq::empty()
    } else {
        joined(chunks.drop_last()) + chunks.last()
    }
}

/// The session after it relayed `chunks` one after the other.
pub open spec fn after_outputs(s: SessionView, chunks: Seq<Seq<u8>>, now: u64) -> SessionView
    decreases chunks.len(),
{
    if chunks.len() == 0 {
        s
    } else {
        after_outputs(s, chunks.drop_last(), now).output(chunks.last(), now)
    }
}

/// However the output is cut into chunks, an attached client that collects
/// nothing meanwhile holds what it held followed by the whole output in
/// order, less only the oldest bytes beyond its own bound; the history holds
/// the same of its own. So two clients that start alike hold the same
/// stream, and with room for it each holds all of it.
pub proof fn lemma_queue_holds_the_newest_output(
    s: SessionView,
    chunks: Seq<Seq<u8>>,
    now: u64,
    a: u64,
    b: u64,
)
    requires
        s.wf(),
        s.accepts_output(),
        s.clients.contains_key(a),
        s.clients.contains_key(b),
    ensures
        ({
            let after = after_outputs(s, chunks, now);
            let stream = joined(chunks);
            &&& after.accepts_output()
            &&& after.state == s.state
            &&& after.queue_cap == s.queue_cap
            &&& after.backlog_cap == s.backlog_cap
            &&& after.clients.contains_key(a)
            &&& after.clients.contains_key(b)
            &&& after.clients[a] == keep_last(s.clients[a] + stream, s.queue_cap)
            &&& after.clients[b] == keep_last(s.clients[b] + stream, s.queue_cap)
            &&& after.backlog == keep_last(s.backlog + stream, s.backlog_cap)
            &&& s.clients[a] == s.clients[b] ==> after.clients[a] == after.clients[b]
            &&& s.clients[a].len() + stream.len() <= s.queue_cap ==> after.clients[a]
                == s.clients[a] + stream
        }),
    decreases chunks.len(),
{
    if chunks.len() == 0 {
        assert(s.clients[a] + joined(chunks) =~= s.clients[a]);
        assert(s.clients[b] + joined(chunks) =~= s.clients[b]);
        assert(s.backlog + joined(chunks) =~= s.backlog);
    } else {
        let front = chunks.drop_last();
        let last = chunks.last();
        lemma_queue_holds_the_newest_output(s, front, now, a, b);
        let mid = after_outputs(s, front, now);
        lemma_keep_last_append(s.clients[a] + joined(front), last, s.queue_cap);
        lemma_keep_last_append(s.clients[b] + joined(front), last, s.queue_cap);
        lemma_keep_last_append(s.backlog + joined(front), last, s.backlog_cap);
        assert((s.clients[a] + joined(front)) + last =~= s.clients[a] + joined(chunks));
        assert((s.clients[b] + joined(front)) + last =~= s.clients[b] + joined(chunks));
        assert((s.backlog + joined(front)) + last =~= s.backlog + joined(chunks));
    }
}

/// Collecting output loses nothing and keeps the order: what is handed out,
/// followed by what stays queued, is what was queued; and no other client's
/// queue changes.
pub proof fn lemma_poll_hands_out_in_order(s: SessionView, client: u64, max: usize, other: u64)
    requires
        s.clients.contains_key(client),
        other != client,
    ensures
        s.polled(client, max) + s.poll(client, max).clients[client] == s.clients[client],
        s.polled(client, max).len() <= max,
        s.poll(client, max).clients.contains_key(other) == s.clients.contains_key(other),
        s.clients.contains_key(other) ==> s.poll(client, max).clients[other] == s.clients[other],
{
    assert(s.polled(client, max) + s.poll(client, max).clients[client] =~= s.clients[client]);
}

/// Two clients that attach one after the other, with no output in between,
/// start from the same history.
pub proof fn lemma_attached_together_start_alike(s: SessionView, a: u64, b: u64)
    requires
        s.can_attach(),
        !s.clients.contains_key(a),
        !s.clients.contains_key(b),
    ensures
        s.attach(a).attach(b).clients[a] == s.attach(a).attach(b).clients[b],
        s.attach(a).attach(b).clients[a] == keep_last(s.backlog, s.queue_cap),
{
}

/// Input from several writes reaches the process whole and in the order of
/// arrival: no write is split by another.
pub proof fn lemma_input_keeps_arrival_order(
    s: SessionView,
    first: Seq<u8>,
    second: Seq<u8>,
    now: u64,
    later: u64,
)
    requires
        s.state is Running,
    ensures
        s.write(first, now).write(second, later).pending_input == s.pending_input + first + second,
        s.write(first, now).write(second, later).take_input().pending_input.len() == 0,
{
}

/// Resizing twice to the same dimensions is the same as resizing once, and
/// is answered alike.
pub proof fn lemma_resize_is_idempotent(s: SessionView, rows: u32, cols: u32)
    ensures
        s.resize(rows, cols).resize(rows, cols) == s.resize(rows, cols),
        s.resize(rows, cols).resize_result(rows, cols) == s.resize_result(rows, cols),
{
}

/// A finished session never changes its lifecycle again: every request and
/// every event that bears on the process or the terminal leaves it as it is.
/// Only a client's leaving, or its collecting what was queued for it, still
/// touches the session.
pub proof fn lemma_finished_sessions_stay_as_they_are(
    s: SessionView,
    now: u64,
    client: u64,
    bytes: Seq<u8>,
    rows: u32,
    cols: u32,
    code: i32,
    error: LaunchError,
    signal: Signal,
    config: Config,
)
    requires
        s.state.is_finished(),
    ensures
        s.launch_succeeded(now) == s,
        s.launch_failed(error, now) == s,
        s.attach(client) == s,
        s.write(bytes, now) == s,
        s.resize(rows, cols) == s,
        s.output(bytes, now) == s,
        s.output_closed(now) == s,
        s.process_exited(code, now) == s,
        s.io_failed(now) == s,
        s.terminate(signal, now) == s,
        supervised(s, now, config) == s,
        s.detach(client).state == s.state,
        s.detach(client).exit_code() == s.exit_code(),
{
}

/// The terminal is released once: it exists exactly while the session runs
/// or winds down, the events that finish a session are the ones that end
/// that time, and no transition brings it back.
pub proof fn lemma_terminal_is_released_once(
    s: SessionView,
    now: u64,
    code: i32,
)
    requires
        s.wf(),
    ensures
        s.output_closed_result() == Ok::<bool, ServiceError>(true) <==> s.state.holds_pty()
            && s.output_closed(now).state is Terminated,
        s.process_exited_result() == Ok::<bool, ServiceError>(true) <==> s.state.holds_pty()
            && s.process_exited(code, now).state is Terminated,
        s.io_failed_result() is Ok <==> s.state.holds_pty() && s.io_failed(now).state is Failed,
        s.state.is_finished() ==> !s.output_closed(now).state.holds_pty()
            && !s.process_exited(code, now).state.holds_pty()
            && !s.io_failed(now).state.holds_pty(),
{
}

/// A running session that has seen no traffic for longer than the idle
/// timeout is asked to terminate by the supervisor and is `Exiting`
/// afterwards, with no request from outside.
pub proof fn lemma_idle_session_begins_to_exit(s: SessionView, now: u64, config: Config)
    requires
        s.wf(),
        s.state is Running,
        elapsed(s.last_activity_at, now) > config.idle_timeout_seconds(),
    ensures
        verdict(s, now, config) == Verdict::Signal(Signal::Graceful),
        supervised(s, now, config).state is Exiting,
        supervised(s, now, config).terminate_requested_at == Some(now),
{
}

/// A process that was asked to terminate and is still alive when the grace
/// period has passed is killed by the supervisor, and only once.
pub proof fn lemma_overdue_process_is_killed_once(
    s: SessionView,
    requested: u64,
    now: u64,
    later: u64,
    config: Config,
)
    requires
        s.wf(),
        s.process_alive(),
        s.terminate_requested_at == Some(requested),
        !s.kill_sent,
    ensures
        elapsed(requested, now) < config.termination_grace_seconds() ==> verdict(s, now, config)
            == Verdict::Keep,
        elapsed(requested, now) >= config.termination_grace_seconds() ==> {
            &&& verdict(s, now, config) == Verdict::Signal(Signal::Forced)
            &&& supervised(s, now, config).kill_sent
            &&& supervised(s, now, config).state is Exiting
            &&& verdict(supervised(s, now, config), later, config) == Verdict::Keep
        },
{
}

/// An operation on one session leaves every other session exactly as it
/// was, whatever the operation does: one session's failure is its own.
pub proof fn lemma_other_sessions_are_untouched(
    reg: RegistryView,
    id: u64,
    f: spec_fn(SessionView) -> SessionView,
    j: int,
)
    requires
        0 <= j < reg.sessions.len(),
        reg.sessions[j].id != id,
    ensures
        reg.map_session(id, f).sessions.len() == reg.sessions.len(),
        reg.map_session(id, f).sessions[j] == reg.sessions[j],
{
}

/// At every moment the active sessions of a registry are within its limit,
/// and no client is attached to two of its sessions.
pub proof fn lemma_registry_stays_within_its_limits(
    registry: &Registry,
    i: int,
    j: int,
    client: u64,
)
    requires
        registry.wf(),
        0 <= i < registry@.sessions.len(),
        0 <= j < registry@.sessions.len(),
        i != j,
    ensures
        registry@.active() <= registry@.config.max_sessions(),
        !(registry@.sessions[i].clients.contains_key(client)
            && registry@.sessions[j].clients.contains_key(client)),
        registry@.sessions[i].id != registry@.sessions[j].id,
{
    registry.lemma_wf();
    let reg = registry@;
    if i < j {
        assert(reg.sessions[i].id < reg.sessions[j].id);
        if reg.sessions[i].clients.contains_key(client) {
            assert(!reg.sessions[j].clients.contains_key(client));
        }
    } else {
        assert(reg.sessions[j].id < reg.sessions[i].id);
        if reg.sessions[j].clients.contains_key(client) {
            assert(!reg.sessions[i].clients.contains_key(client));
        }
    }
}

/// A successful `create` keeps the registry well formed and adds exactly
/// one active session.
pub proof fn lemma_create_keeps_registry_well_formed(
    reg: RegistryView,
    params: LaunchParams,
    requested_by: String,
    now: u64,
)
    requires
        reg.wf(),
    ensures
        reg.create(params, requested_by, now).wf(),
        reg.create(params, requested_by, now).active() == reg.active() + if reg.create_result(
            params,
        ) is Ok {
            1nat
        } else {
            0nat
        },
{
    if reg.create_result(params) is Ok {
        let v = SessionView::starting(
            reg.next_id,
            params,
            requested_by,
            now,
            reg.config.output_buffer_bytes() as nat,
            reg.config.client_queue_bytes() as nat,
        );
        lemma_count_push(reg.sessions, v, |s: SessionView| s.state.is_active());
        lemma_count_push(reg.sessions, v, |s: SessionView| s.state is Starting);
        assert(v.wf());
    }
}

/// With room in the registry, `create` answers valid parameters with a new
/// session and nothing else with anything but a launch error. The new
/// session is `Starting`; it is `Running` once the launch is reported to
/// have succeeded, and `Failed` with the reported error once it is reported
/// to have failed. No outcome leaves it starting.
pub proof fn lemma_create_ends_running_or_with_launch_error(
    reg: RegistryView,
    params: LaunchParams,
    requested_by: String,
    now: u64,
    error: LaunchError,
    later: u64,
)
    requires
        reg.wf(),
        reg.active() < reg.config.max_sessions(),
    ensures
        match reg.create_result(params) {
            Err(e) => e is Launch && reg.create(params, requested_by, now) == reg,
            Ok(id) => {
                let created = reg.create(params, requested_by, now);
                let launched = created.launch_succeeded(id, later);
                let failed = created.map_session(
                    id,
                    |s: SessionView| s.launch_failed(error, later),
                );
                &&& params.refusal() is None
                &&& created.lookup(id) matches Some(s) && s.state is Starting
                &&& launched.lookup(id) matches Some(s) && s.state is Running
                &&& failed.lookup(id) matches Some(s) && s.state is Failed && s.failure == Some(
                    ServiceError::Launch(error),
                )
            },
        },
{
    if let Ok(id) = reg.create_result(params) {
        let created = reg.create(params, requested_by, now);
        lemma_create_keeps_registry_well_formed(reg, params, requested_by, now);
        let last = reg.sessions.len() as int;
        assert(created.sessions[last].id == id);
        created.lemma_lookup(last);
        let f = |s: SessionView| s.launch_succeeded(later);
        created.lemma_map_session(last, f);
        let launched = created.launch_succeeded(id, later);
        assert(launched.sessions[last] == created.sessions[last].launch_succeeded(later));
        assert(launched.sorted());
        launched.lemma_lookup(last);
        let g = |s: SessionView| s.launch_failed(error, later);
        created.lemma_map_session(last, g);
        let failed = created.map_session(id, g);
        assert(failed.sorted());
        failed.lemma_lookup(last);
    }
}

/// How many of `requests`, made one after the other, `create` accepts.
pub open spec fn accepted(
    reg: RegistryView,
    requests: Seq<LaunchParams>,
    requested_by: String,
    now: u64,
) -> nat
    decreases requests.len(),
{
    if requests.len() == 0 {
        0
    } else {
        (if reg.create_result(requests[0]) is Ok {
            1nat
        } else {
            0nat
        }) + accepted(
            reg.create(requests[0], requested_by, now),
            requests.skip(1),
            requested_by,
            now,
        )
    }
}

/// How many of `requests`, made one after the other, `create` refuses
/// because the registry is full.
pub open spec fn refused_as_full(
    reg: RegistryView,
    requests: Seq<LaunchParams>,
    requested_by: String,
    now: u64,
) -> nat
    decreases requests.len(),
{
    if requests.len() == 0 {
        0
    } else {
        (if reg.create_result(requests[0]) == Err::<u64, ServiceError>(ServiceError::RegistryFull) {
            1nat
        } else {
            0nat
        }) + refused_as_full(
            reg.create(requests[0], requested_by, now),
            requests.skip(1),
            requested_by,
            now,
        )
    }
}

/// The number of slots that are free.
pub open spec fn free_slots(reg: RegistryView) -> nat {
    (reg.config.max_sessions() - reg.active()) as nat
}

/// Of any number of valid requests made in any order, `create` accepts as
/// many as there are free slots and refuses all the others because the
/// registry is full. Each `create` is one step, so requests that arrive
/// together are served in some order, and this holds of every order.
pub proof fn lemma_creates_fill_the_free_slots(
    reg: RegistryView,
    requests: Seq<LaunchParams>,
    requested_by: String,
    now: u64,
)
    requires
        reg.wf(),
        forall|i: int| 0 <= i < requests.len() ==> (#[trigger] requests[i]).refusal() is None,
        reg.next_id + requests.len() <= u64::MAX,
    ensures
        accepted(reg, requests, requested_by, now) == if requests.len() <= free_slots(reg) {
            requests.len()
        } else {
            free_slots(reg)
        },
        accepted(reg, requests, requested_by, now) + refused_as_full(
            reg,
            requests,
            requested_by,
            now,
        ) == requests.len(),
    decreases requests.len(),
{
    if requests.len() > 0 {
        let next = reg.create(requests[0], requested_by, now);
        lemma_create_keeps_registry_well_formed(reg, requests[0], requested_by, now);
        assert(requests[0].refusal() is None);
        assert forall|i: int| 0 <= i < requests.skip(1).len() implies (#[trigger] requests.skip(
            1,
        )[i]).refusal() is None by {
            assert(requests.skip(1)[i] == requests[i + 1]);
        }
        lemma_creates_fill_the_free_slots(next, requests.skip(1), requested_by, now);
    }
}

/// Detaching a client from one session leaves every other client of that
/// session, every other session, and the state of every session as it was.
pub proof fn lemma_detach_touches_nothing_else(
    reg: RegistryView,
    id: u64,
    leaving: u64,
    j: int,
    other: u64,
)
    requires
        0 <= j < reg.sessions.len(),
        other != leaving,
    ensures
        ({
            let after = reg.map_session(id, |s: SessionView| s.detach(leaving));
            &&& after.sessions.len() == reg.sessions.len()
            &&& after.sessions[j].state == reg.sessions[j].state
            &&& after.sessions[j].clients.contains_key(other) == reg.sessions[j].clients.contains_key(
                other,
            )
            &&& reg.sessions[j].clients.contains_key(other) ==> after.sessions[j].clients[other]
                == reg.sessions[j].clients[other]
            &&& reg.sessions[j].id != id ==> after.sessions[j] == reg.sessions[j]
            &&& after.active() == reg.active()
        }),
{
    let after = reg.map_session(id, |s: SessionView| s.detach(leaving));
    lemma_same_states_same_count(reg.sessions, after.sessions);
}

/// Sessions with the same states, one for one, count the same.
pub proof fn lemma_same_states_same_count(a: Seq<SessionView>, b: Seq<SessionView>)
    requires
        a.len() == b.len(),
        forall|i: int| 0 <= i < a.len() ==> a[i].state == b[i].state,
    ensures
        active_count(a) == active_count(b),
        starting_count(a) == starting_count(b),
    decreases a.len(),
{
    if a.len() > 0 {
        lemma_same_states_same_count(a.drop_last(), b.drop_last());
    }
}

/// Resizing a session twice to the same dimensions leaves the registry as
/// the first resize left it, and is answered alike.
pub proof fn lemma_resize_twice_is_resize_once(reg: RegistryView, id: u64, rows: u32, cols: u32)
    ensures
        ({
            let once = reg.map_session(id, |s: SessionView| s.resize(rows, cols));
            &&& once.map_session(id, |s: SessionView| s.resize(rows, cols)) == once
            &&& reg.sorted() ==> once.answer(id, |s: SessionView| s.resize_result(rows, cols))
                == reg.answer(id, |s: SessionView| s.resize_result(rows, cols))
        }),
{
    let f = |s: SessionView| s.resize(rows, cols);
    let once = reg.map_session(id, f);
    assert(once.map_session(id, f).sessions =~= once.sessions);
    if reg.sorted() {
        if reg.contains(id) {
            let i = reg.position(id);
            reg.lemma_map_session(i, f);
            assert(once.sorted());
            once.lemma_lookup(i);
        } else {
            reg.lemma_map_absent(id, f);
        }
    }
}

/// A round of supervision keeps every session that is not purged, in place
/// of itself and supervised on its own: what happens to one session does
/// not depend on any other.
pub proof fn lemma_sweep_judges_each_session_alone(
    sessions: Seq<SessionView>,
    now: u64,
    config: Config,
    i: int,
)
    requires
        0 <= i < sessions.len(),
    ensures
        ({
            let k = swept(sessions.take(i), now, config).len() as int;
            let after = swept(sessions, now, config);
            &&& k <= i
            &&& after.len() <= sessions.len()
            &&& !(verdict(sessions[i], now, config) is Purge) ==> k < after.len() && after[k]
                == supervised(sessions[i], now, config)
        }),
    decreases sessions.len(),
{
    let last = sessions.len() - 1;
    let front = sessions.drop_last();
    lemma_swept_len(sessions.take(i), now, config);
    lemma_swept_len(sessions, now, config);
    if i == last {
        assert(sessions.take(i) =~= front);
    } else {
        assert(front.take(i) =~= sessions.take(i));
        lemma_sweep_judges_each_session_alone(front, now, config, i);
    }
}

/// A round of supervision never adds a session.
pub proof fn lemma_swept_len(sessions: Seq<SessionView>, now: u64, config: Config)
    ensures
        swept(sessions, now, config).len() <= sessions.len(),
    decreases sessions.len(),
{
    if sessions.len() > 0 {
        lemma_swept_len(sessions.drop_last(), now, config);
    }
}

/// Every session after a round of supervision is a session from before it
/// that was not purged, supervised on its own, and the order of the
/// identifiers is kept.
pub proof fn lemma_sweep_keeps_order(sessions: Seq<SessionView>, now: u64, config: Config)
    requires
        forall|i: int, j: int| 0 <= i < j < sessions.len() ==> sessions[i].id < sessions[j].id,
    ensures
        ({
            let after = swept(sessions, now, config);
            &&& forall|k: int|
                0 <= k < after.len() ==> exists|j: int|
                    0 <= j < sessions.len() && #[trigger] after[k] == supervised(
                        #[trigger] sessions[j],
                        now,
                        config,
                    )
            &&& forall|a: int, b: int| 0 <= a < b < after.len() ==> after[a].id < after[b].id
        }),
    decreases sessions.len(),
{
    if sessions.len() > 0 {
        let front = sessions.drop_last();
        let last = sessions.last();
        lemma_sweep_keeps_order(front, now, config);
        let rest = swept(front, now, config);
        let after = swept(sessions, now, config);
        assert forall|k: int| 0 <= k < rest.len() implies (#[trigger] rest[k]).id < last.id by {
            let j = choose|j: int|
                0 <= j < front.len() && #[trigger] rest[k] == supervised(
                    #[trigger] front[j],
                    now,
                    config,
                );
            assert(sessions[j].id < sessions[sessions.len() - 1].id);
        }
        assert forall|k: int| 0 <= k < after.len() implies exists|j: int|
            0 <= j < sessions.len() && #[trigger] after[k] == supervised(
                #[trigger] sessions[j],
                now,
                config,
            ) by {
            if k < rest.len() {
                let j = choose|j: int|
                    0 <= j < front.len() && #[trigger] rest[k] == supervised(
                        #[trigger] front[j],
                        now,
                        config,
                    );
                assert(after[k] == supervised(sessions[j], now, config));
            } else {
                assert(after[k] == supervised(sessions[sessions.len() - 1], now, config));
            }
        }
    }
}

/// A round of supervision adds no active session and no starting one.
pub proof fn lemma_sweep_frees_slots_only(sessions: Seq<SessionView>, now: u64, config: Config)
    ensures
        active_count(swept(sessions, now, config)) <= active_count(sessions),
        starting_count(swept(sessions, now, config)) <= starting_count(sessions),
    decreases sessions.len(),
{
    if sessions.len() > 0 {
        let front = sessions.drop_last();
        lemma_sweep_frees_slots_only(front, now, config);
        let rest = swept(front, now, config);
        let kept = supervised(sessions.last(), now, config);
        lemma_count_push(rest, kept, |s: SessionView| s.state.is_active());
        lemma_count_push(rest, kept, |s: SessionView| s.state is Starting);
    }
}

/// One session's step in the eyes of the registry: the session stays well
/// formed and keeps its identifier and bounds, it neither becomes active nor
/// starts again, and no client joins it.
pub open spec fn is_step(s: SessionView, t: SessionView) -> bool {
    &&& t.wf()
    &&& t.id == s.id
    &&& t.backlog_cap == s.backlog_cap
    &&& t.queue_cap == s.queue_cap
    &&& t.state.is_active() ==> s.state.is_active()
    &&& t.state is Starting ==> s.state is Starting
    &&& forall|c: u64| #[trigger] t.clients.contains_key(c) ==> s.clients.contains_key(c)
}

/// A step of one session keeps the registry well formed and takes up no
/// further slot.
pub proof fn lemma_step_keeps_registry_well_formed(
    reg: RegistryView,
    id: u64,
    f: spec_fn(SessionView) -> SessionView,
)
    requires
        reg.wf(),
        reg.lookup(id) matches Some(s) ==> is_step(s, f(s)),
    ensures
        reg.map_session(id, f).wf(),
        reg.map_session(id, f).active() <= reg.active(),
        starting_count(reg.map_session(id, f).sessions) <= starting_count(reg.sessions),
{
    if reg.contains(id) {
        let i = reg.position(id);
        let t = f(reg.sessions[i]);
        reg.lemma_map_session(i, f);
        let after = reg.map_session(id, f);
        lemma_count_update(reg.sessions, i, t, |s: SessionView| s.state.is_active());
        lemma_count_update(reg.sessions, i, t, |s: SessionView| s.state is Starting);
        assert forall|a: int, b: int, c: u64|
            0 <= a < b < after.sessions.len() && #[trigger] after.sessions[a].clients.contains_key(
                c,
            ) implies !#[trigger] after.sessions[b].clients.contains_key(c) by {
            assert(reg.sessions[a].clients.contains_key(c));
            if after.sessions[b].clients.contains_key(c) {
                assert(reg.sessions[b].clients.contains_key(c));
            }
        }
    } else {
        reg.lemma_map_absent(id, f);
    }
}

/// Every request and every event that bears on one session keeps the
/// registry well formed: whatever is asked of a session and whatever befalls
/// it, the active sessions stay within the limit.
pub proof fn lemma_operations_keep_registry_well_formed(
    reg: RegistryView,
    id: u64,
    now: u64,
    client: u64,
    bytes: Seq<u8>,
    rows: u32,
    cols: u32,
    code: i32,
    error: LaunchError,
    signal: Signal,
    max: usize,
)
    requires
        reg.wf(),
    ensures
        reg.launch_succeeded(id, now).wf(),
        reg.map_session(id, |s: SessionView| s.launch_failed(error, now)).wf(),
        reg.attach(id, client).wf(),
        reg.map_session(id, |s: SessionView| s.detach(client)).wf(),
        reg.map_session(id, |s: SessionView| s.write(bytes, now)).wf(),
        reg.map_session(id, |s: SessionView| s.take_input()).wf(),
        reg.map_session(id, |s: SessionView| s.resize(rows, cols)).wf(),
        reg.map_session(id, |s: SessionView| s.output(bytes, now)).wf(),
        reg.map_session(id, |s: SessionView| s.output_closed(now)).wf(),
        reg.map_session(id, |s: SessionView| s.process_exited(code, now)).wf(),
        reg.map_session(id, |s: SessionView| s.io_failed(now)).wf(),
        reg.map_session(id, |s: SessionView| s.terminate(signal, now)).wf(),
        reg.map_session(id, |s: SessionView| s.poll(client, max)).wf(),
        reg.remove(id).wf(),
        reg.tick(now).wf(),
{
    if reg.contains(id) {
        let s = reg.sessions[reg.position(id)];
        lemma_transitions_keep_sessions_well_formed(
            s,
            now,
            client,
            bytes,
            rows,
            cols,
            code,
            error,
            signal,
            max,
            reg.config,
        );
    }
    lemma_step_keeps_registry_well_formed(reg, id, |s: SessionView| s.launch_failed(error, now));
    lemma_step_keeps_registry_well_formed(reg, id, |s: SessionView| s.detach(client));
    lemma_step_keeps_registry_well_formed(reg, id, |s: SessionView| s.write(bytes, now));
    lemma_step_keeps_registry_well_formed(reg, id, |s: SessionView| s.take_input());
    lemma_step_keeps_registry_well_formed(reg, id, |s: SessionView| s.resize(rows, cols));
    lemma_step_keeps_registry_well_formed(reg, id, |s: SessionView| s.output(bytes, now));
    lemma_step_keeps_registry_well_formed(reg, id, |s: SessionView| s.output_closed(now));
    lemma_step_keeps_registry_well_formed(reg, id, |s: SessionView| s.process_exited(code, now));
    lemma_step_keeps_registry_well_formed(reg, id, |s: SessionView| s.io_failed(now));
    lemma_step_keeps_registry_well_formed(reg, id, |s: SessionView| s.terminate(signal, now));
    lemma_step_keeps_registry_well_formed(reg, id, |s: SessionView| s.poll(client, max));
    lemma_launch_keeps_registry_well_formed(reg, id, now);
    lemma_attach_keeps_registry_well_formed(reg, id, client);
    lemma_remove_keeps_registry_well_formed(reg, id);
    lemma_supervision_keeps_registry_well_formed(reg, now);
}

/// Counting a launch keeps the registry well formed: fewer launches are
/// counted than identifiers were handed out.
pub proof fn lemma_launch_keeps_registry_well_formed(reg: RegistryView, id: u64, now: u64)
    requires
        reg.wf(),
    ensures
        reg.launch_succeeded(id, now).wf(),
{
    let f = |s: SessionView| s.launch_succeeded(now);
    lemma_step_keeps_registry_well_formed(reg, id, f);
    if reg.contains(id) {
        let i = reg.position(id);
        reg.lemma_map_session(i, f);
        let launched = f(reg.sessions[i]);
        lemma_count_update(reg.sessions, i, launched, |s: SessionView| s.state is Starting);
    }
    let mapped = reg.map_session(id, f);
    let after = reg.launch_succeeded(id, now);
    assert(after.sessions == mapped.sessions);
}

/// Attaching a client keeps the registry well formed: the client leaves
/// every other session as it joins the one.
pub proof fn lemma_attach_keeps_registry_well_formed(reg: RegistryView, id: u64, client: u64)
    requires
        reg.wf(),
    ensures
        reg.attach(id, client).wf(),
        reg.attach(id, client).active() == reg.active(),
{
    let after = reg.attach(id, client);
    if reg.attach_result(id) is Ok {
        let i = reg.position(id);
        assert forall|j: int| 0 <= j < reg.sessions.len() && j != i implies reg.sessions[j].id
            != id by {
            if j < i {
                assert(reg.sessions[j].id < reg.sessions[i].id);
            } else {
                assert(reg.sessions[i].id < reg.sessions[j].id);
            }
        }
        lemma_same_states_same_count(reg.sessions, after.sessions);
        assert forall|j: int| 0 <= j < after.sessions.len() implies (
        #[trigger] after.sessions[j]).wf() by {
            assert(reg.sessions[j].wf());
        }
        assert forall|a: int, b: int, c: u64|
            0 <= a < b < after.sessions.len() && #[trigger] after.sessions[a].clients.contains_key(
                c,
            ) implies !#[trigger] after.sessions[b].clients.contains_key(c) by {
            if c != client {
                assert(reg.sessions[a].clients.contains_key(c));
                if after.sessions[b].clients.contains_key(c) {
                    assert(reg.sessions[b].clients.contains_key(c));
                }
            }
        }
    }
}

/// Dropping a record keeps the registry well formed.
pub proof fn lemma_remove_keeps_registry_well_formed(reg: RegistryView, id: u64)
    requires
        reg.wf(),
    ensures
        reg.remove(id).wf(),
        reg.remove(id).active() <= reg.active(),
{
    if reg.contains(id) {
        let i = reg.position(id);
        let after = reg.remove(id);
        lemma_count_remove(reg.sessions, i, |s: SessionView| s.state.is_active());
        lemma_count_remove(reg.sessions, i, |s: SessionView| s.state is Starting);
        assert forall|j: int| 0 <= j < after.sessions.len() implies #[trigger] after.sessions[j]
            == reg.sessions[if j < i { j } else { j + 1 }] by {}
        assert forall|j: int| 0 <= j < after.sessions.len() implies (
        #[trigger] after.sessions[j]).wf() by {
            assert(reg.sessions[if j < i { j } else { j + 1 }].wf());
        }
    }
}

/// A round of supervision keeps the registry well formed and takes up no
/// further slot.
pub proof fn lemma_supervision_keeps_registry_well_formed(reg: RegistryView, now: u64)
    requires
        reg.wf(),
    ensures
        reg.tick(now).wf(),
        reg.tick(now).active() <= reg.active(),
{
    let after = reg.tick(now);
    lemma_sweep_keeps_order(reg.sessions, now, reg.config);
    lemma_sweep_frees_slots_only(reg.sessions, now, reg.config);
    assert forall|k: int| 0 <= k < after.sessions.len() implies {
        &&& (#[trigger] after.sessions[k]).wf()
        &&& after.sessions[k].backlog_cap == reg.config.output_buffer_bytes()
        &&& after.sessions[k].queue_cap == reg.config.client_queue_bytes()
        &&& after.sessions[k].id < reg.next_id
    } by {
        let j = choose|j: int|
            0 <= j < reg.sessions.len() && #[trigger] after.sessions[k] == supervised(
                #[trigger] reg.sessions[j],
                now,
                reg.config,
            );
        assert(reg.sessions[j].wf());
    }
    assert forall|a: int, b: int, c: u64|
        0 <= a < b < after.sessions.len() && #[trigger] after.sessions[a].clients.contains_key(
            c,
        ) implies !#[trigger] after.sessions[b].clients.contains_key(c) by {
        let ja = choose|j: int|
            0 <= j < reg.sessions.len() && #[trigger] after.sessions[a] == supervised(
                #[trigger] reg.sessions[j],
                now,
                reg.config,
            );
        let jb = choose|j: int|
            0 <= j < reg.sessions.len() && #[trigger] after.sessions[b] == supervised(
                #[trigger] reg.sessions[j],
                now,
                reg.config,
            );
        assert(after.sessions[a].id < after.sessions[b].id);
        if ja < jb {
            assert(reg.sessions[ja].clients.contains_key(c));
            assert(!reg.sessions[jb].clients.contains_key(c));
        } else if jb < ja {
            assert(reg.sessions[jb].id < reg.sessions[ja].id);
        }
    }
}

/// After a round of supervision, a running session that has seen no traffic
/// for longer than the idle timeout is found in the registry as `Exiting`.
pub proof fn lemma_supervision_ends_idle_sessions(reg: RegistryView, id: u64, now: u64)
    requires
        reg.wf(),
        reg.lookup(id) matches Some(s) && s.state is Running && elapsed(s.last_activity_at, now)
            > reg.config.idle_timeout_seconds(),
    ensures
        reg.tick(now).lookup(id) matches Some(s) && s.state is Exiting && s.id == id,
{
    let i = reg.position(id);
    let s = reg.sessions[i];
    lemma_idle_session_begins_to_exit(s, now, reg.config);
    lemma_sweep_judges_each_session_alone(reg.sessions, now, reg.config, i);
    lemma_sweep_keeps_order(reg.sessions, now, reg.config);
    let after = reg.tick(now);
    let k = swept(reg.sessions.take(i), now, reg.config).len() as int;
    assert(after.sessions[k] == supervised(s, now, reg.config));
    assert(after.sorted());
    after.lemma_lookup(k);
}

} // verus!
