//! One supervised tunnel: the decisions the daemon takes for it, as a state
//! machine driven by what the daemon observes of its `ssh` process.
//!
//! Times are milliseconds on the daemon's monotonic clock. The daemon holds
//! the process itself; this state records its pid while one is tracked, and
//! each transition says which process, if any, must be killed.
use vstd::prelude::*;

use crate::config::{grace_secs, ConnectionConfig, ConnectionConfigView};
use crate::ipc::{opt_view, ConnectionState, ConnectionStatus, ConnectionStatusView};
use crate::text::{decimal, push_decimal};

verus! {

/// The state kept for one configured connection.
#[derive(Debug)]
pub struct ManagedConnection {
    pub config: ConnectionConfig,
    /// The pid of the tracked `ssh` process, while there is one.
    pub process_id: Option<u32>,
    pub process_alive: bool,
    pub port_reachable: bool,
    /// Set by an explicit stop; no restart happens until a refresh.
    pub restart_suppressed: bool,
    pub last_error: Option<String>,
    /// When the next start attempt is due.
    pub next_retry_at: Option<u128>,
    /// When that attempt was scheduled.
    pub retry_scheduled_at: Option<u64>,
    /// When the tracked process was started.
    pub last_started_at: Option<u64>,
}

/// The mathematical value of a [`ManagedConnection`].
pub struct ManagedView {
    pub config: ConnectionConfigView,
    pub process_id: Option<u32>,
    pub process_alive: bool,
    pub port_reachable: bool,
    pub restart_suppressed: bool,
    pub last_error: Option<Seq<char>>,
    pub next_retry_at: Option<u128>,
    pub retry_scheduled_at: Option<u64>,
    pub last_started_at: Option<u64>,
}

impl View for ManagedConnection {
    type V = ManagedView;

    open spec fn view(&self) -> ManagedView {
        ManagedView {
            config: self.config@,
            process_id: self.process_id,
            process_alive: self.process_alive,
            port_reachable: self.port_reachable,
            restart_suppressed: self.restart_suppressed,
            last_error: opt_view(self.last_error),
            next_retry_at: self.next_retry_at,
            retry_scheduled_at: self.retry_scheduled_at,
            last_started_at: self.last_started_at,
        }
    }
}

/// What became of an attempt to start the `ssh` process.
pub enum SpawnOutcome {
    Started { pid: u32 },
    Failed { error: String },
}

/// What the daemon observed of the tracked `ssh` process.
pub enum ProcessProbe {
    /// The process has exited.
    Exited,
    /// Asking whether it is alive failed.
    CheckFailed { error: String },
    /// It runs; whether the forwarded local port accepts a connection.
    Running { port_reachable: bool },
}

/// A process is tracked exactly while it is taken to be alive, the port is
/// only reachable through a live process, and a pending retry is due one
/// reconnect delay after it was scheduled.
pub open spec fn managed_wf(m: ManagedView) -> bool {
    &&& m.process_alive == (m.process_id is Some)
    &&& m.port_reachable ==> m.process_alive
    &&& match (m.next_retry_at, m.retry_scheduled_at) {
        (Some(deadline), Some(scheduled)) => deadline == after_secs(
            scheduled,
            m.config.reconnect_delay_seconds,
        ),
        (None, None) => true,
        _ => false,
    }
}

/// A connection as first configured: nothing started, nothing suppressed.
pub open spec fn fresh(c: ConnectionConfigView) -> ManagedView {
    ManagedView {
        config: c,
        process_id: None,
        process_alive: false,
        port_reachable: false,
        restart_suppressed: false,
        last_error: None,
        next_retry_at: None,
        retry_scheduled_at: None,
        last_started_at: None,
    }
}

/// The time `secs` seconds after `now`.
pub open spec fn after_secs(now: u64, secs: u64) -> u128 {
    (now + secs * 1000) as u128
}

/// A start is attempted only when no restart is suppressed and no process is
/// tracked.
pub open spec fn may_start(m: ManagedView) -> bool {
    !m.restart_suppressed && m.process_id is None
}

/// The state after an attempt to start the process.
pub open spec fn after_spawn(m: ManagedView, outcome: SpawnOutcome, now: u64) -> ManagedView {
    match outcome {
        SpawnOutcome::Started { pid } => ManagedView {
            process_id: Some(pid),
            process_alive: true,
            port_reachable: false,
            last_error: None,
            next_retry_at: None,
            retry_scheduled_at: None,
            last_started_at: Some(now),
            ..m
        },
        SpawnOutcome::Failed { error } => ManagedView {
            process_id: None,
            process_alive: false,
            port_reachable: false,
            last_error: Some(error@),
            next_retry_at: Some(after_secs(now, m.config.reconnect_delay_seconds)),
            retry_scheduled_at: Some(now),
            last_started_at: None,
            ..m
        },
    }
}

/// When the next start is due after a failure: never while a restart is
/// suppressed or for a connection that does not start on its own, else
/// after the reconnect delay.
pub open spec fn retry_deadline(m: ManagedView, now: u64) -> Option<u128> {
    if m.restart_suppressed || !m.config.auto_start {
        None
    } else {
        Some(after_secs(now, m.config.reconnect_delay_seconds))
    }
}

/// When the retry that `retry_deadline` gives was scheduled.
pub open spec fn retry_scheduled(m: ManagedView, now: u64) -> Option<u64> {
    if m.restart_suppressed || !m.config.auto_start {
        None
    } else {
        Some(now)
    }
}

/// `m` with its next retry scheduled at `now`.
pub open spec fn with_retry(m: ManagedView, now: u64) -> ManagedView {
    ManagedView {
        next_retry_at: retry_deadline(m, now),
        retry_scheduled_at: retry_scheduled(m, now),
        ..m
    }
}

/// The state after the tracked process is killed or forgotten.
pub open spec fn stopped(m: ManagedView) -> ManagedView {
    ManagedView {
        process_id: None,
        process_alive: false,
        port_reachable: false,
        last_started_at: None,
        ..m
    }
}

/// Milliseconds from `start` to `now`, zero when `now` is earlier.
pub open spec fn elapsed_ms(start: u64, now: u64) -> int {
    if now >= start {
        now - start
    } else {
        0
    }
}

/// The startup grace period of the tracked process is over.
pub open spec fn grace_expired(m: ManagedView, now: u64) -> bool {
    match m.last_started_at {
        Some(started) => elapsed_ms(started, now) >= grace_secs(m.config) * 1000,
        None => true,
    }
}

/// The error recorded when the forwarded port stays unreachable.
pub open spec fn unreachable_message(port: u16, grace: u64) -> Seq<char> {
    "forwarded port is not reachable on local port "@ + decimal(port as nat) + " after "@
        + decimal(grace as nat) + "s startup grace period"@
}

/// The state after a health check, and the process to kill, if any.
pub open spec fn after_probe(m: ManagedView, probe: Option<ProcessProbe>, now: u64) -> (
    ManagedView,
    Option<u32>,
) {
    if m.process_id is None {
        (ManagedView { process_alive: false, port_reachable: false, ..m }, None)
    } else {
        match probe {
            Some(ProcessProbe::Exited) => {
                let m1 = ManagedView {
                    process_alive: false,
                    last_error: Some("ssh process exited"@),
                    process_id: None,
                    port_reachable: false,
                    ..m
                };
                (with_retry(m1, now), None)
            },
            Some(ProcessProbe::CheckFailed { error }) => {
                let m1 = ManagedView {
                    process_alive: false,
                    last_error: Some(error@),
                    process_id: None,
                    port_reachable: false,
                    ..m
                };
                (with_retry(m1, now), None)
            },
            Some(ProcessProbe::Running { port_reachable }) => {
                let m1 = ManagedView { port_reachable, ..m };
                if !port_reachable && grace_expired(m1, now) {
                    let m2 = stopped(
                        ManagedView {
                            last_error: Some(
                                unreachable_message(m.config.local_port, grace_secs(m.config)),
                            ),
                            ..m1
                        },
                    );
                    (with_retry(m2, now), m.process_id)
                } else {
                    (m1, None)
                }
            },
            None => (m, None),
        }
    }
}

/// On a periodic tick, a start is due: nothing is suppressed or running, and
/// either a retry deadline has passed, or there is none and the connection
/// starts on its own.
pub open spec fn tick_due(m: ManagedView, now: u64) -> bool {
    &&& may_start(m)
    &&& match m.next_retry_at {
        Some(deadline) => now >= deadline,
        None => m.config.auto_start,
    }
}

/// The state a connection is reported in.
pub open spec fn state_of(m: ManagedView) -> ConnectionState {
    if m.restart_suppressed {
        ConnectionState::Stopped
    } else if m.process_alive && m.port_reachable {
        ConnectionState::Healthy
    } else if m.process_alive {
        ConnectionState::Starting
    } else if m.next_retry_at is Some {
        ConnectionState::WaitingToRetry
    } else {
        ConnectionState::Failed
    }
}

/// Whole seconds from `now` until `deadline`, zero once it has passed.
pub open spec fn secs_until(deadline: u128, now: u64) -> u64 {
    if deadline <= now {
        0
    } else if (deadline - now) / 1000 > u64::MAX {
        u64::MAX
    } else {
        ((deadline - now) / 1000) as u64
    }
}

/// What is reported about a connection at time `now`.
pub open spec fn status_of(m: ManagedView, now: u64) -> ConnectionStatusView {
    ConnectionStatusView {
        name: m.config.name,
        ssh_host: m.config.ssh_host,
        local_port: m.config.local_port,
        remote_host: m.config.remote_host,
        remote_port: m.config.remote_port,
        auto_start: m.config.auto_start,
        reconnect_delay_seconds: m.config.reconnect_delay_seconds,
        process_id: m.process_id,
        process_alive: m.process_alive,
        port_reachable: m.port_reachable,
        state: state_of(m),
        restart_suppressed: m.restart_suppressed,
        last_error: m.last_error,
        next_retry_in_seconds: match m.next_retry_at {
            Some(deadline) => Some(secs_until(deadline, now)),
            None => None,
        },
    }
}

/// The state after an explicit stop: restarts suppressed, no retry pending,
/// the process gone.
pub open spec fn suppressed(m: ManagedView) -> ManagedView {
    stopped(
        ManagedView {
            restart_suppressed: true,
            next_retry_at: None,
            retry_scheduled_at: None,
            ..m
        },
    )
}

/// The state after a refresh has stopped the process and cleared the
/// suppression, the pending retry and the last error.
pub open spec fn reset(m: ManagedView) -> ManagedView {
    ManagedView {
        restart_suppressed: false,
        next_retry_at: None,
        retry_scheduled_at: None,
        last_error: None,
        ..stopped(m)
    }
}

fn clone_opt_string(s: &Option<String>) -> (res: Option<String>)
    ensures
        opt_view(res) == opt_view(*s),
{
    match s {
        Some(s) => Some(s.clone()),
        None => None,
    }
}

fn deadline_after(now: u64, secs: u64) -> (res: u128)
    ensures
        res == after_secs(now, secs),
{
    now as u128 + secs as u128 * 1000
}

impl ManagedConnection {
    /// The well-formedness of this state.
    pub open spec fn wf(&self) -> bool {
        managed_wf(self@)
    }

    /// A connection as first configured.
    pub fn new(config: ConnectionConfig) -> (res: Self)
        ensures
            res@ == fresh(config@),
            res.wf(),
    {
        ManagedConnection {
            config,
            process_id: None,
            process_alive: false,
            port_reachable: false,
            restart_suppressed: false,
            last_error: None,
            next_retry_at: None,
            retry_scheduled_at: None,
            last_started_at: None,
        }
    }

    /// Whether a start may be attempted now.
    pub fn start_allowed(&self) -> (res: bool)
        ensures
            res == may_start(self@),
    {
        !self.restart_suppressed && self.process_id.is_none()
    }

    /// Records what came of an attempt to start the process at `now`.
    pub fn record_spawn(&mut self, outcome: SpawnOutcome, now: u64)
        requires
            old(self).wf(),
        ensures
            final(self)@ == after_spawn(old(self)@, outcome, now),
            final(self).wf(),
    {
        match outcome {
            SpawnOutcome::Started { pid } => {
                self.process_id = Some(pid);
                self.process_alive = true;
                self.port_reachable = false;
                self.last_error = None;
                self.next_retry_at = None;
                self.retry_scheduled_at = None;
                self.last_started_at = Some(now);
            },
            SpawnOutcome::Failed { error } => {
                self.process_id = None;
                self.process_alive = false;
                self.port_reachable = false;
                self.last_error = Some(error);
                self.next_retry_at = Some(
                    deadline_after(now, self.config.reconnect_delay_seconds),
                );
                self.retry_scheduled_at = Some(now);
                self.last_started_at = None;
            },
        }
    }

    fn schedule_retry(&mut self, now: u64)
        ensures
            final(self)@ == with_retry(old(self)@, now),
    {
        if self.restart_suppressed || !self.config.auto_start {
            self.next_retry_at = None;
            self.retry_scheduled_at = None;
            return;
        }
        self.next_retry_at = Some(deadline_after(now, self.config.reconnect_delay_seconds));
        self.retry_scheduled_at = Some(now);
    }

    /// Forgets the tracked process; returns its pid, which the caller kills
    /// and reaps.
    pub fn stop(&mut self) -> (kill: Option<u32>)
        requires
            old(self).wf(),
        ensures
            final(self)@ == stopped(old(self)@),
            kill == old(self)@.process_id,
            final(self).wf(),
    {
        let kill = self.process_id;
        self.process_id = None;
        self.process_alive = false;
        self.port_reachable = false;
        self.last_started_at = None;
        kill
    }

    /// Applies a health check taken at `now`: `probe` is what was observed of
    /// the tracked process, `None` when there is none. Returns the pid of a
    /// process to kill.
    pub fn refresh_runtime(&mut self, probe: Option<ProcessProbe>, now: u64) -> (kill: Option<
        u32,
    >)
        requires
            old(self).wf(),
            (old(self)@.process_id is Some) == (probe is Some),
        ensures
            (final(self)@, kill) == after_probe(old(self)@, probe, now),
            final(self).wf(),
    {
        if self.process_id.is_none() {
            self.process_alive = false;
            self.port_reachable = false;
            return None;
        }
        match probe {
            Some(ProcessProbe::Exited) => {
                self.process_alive = false;
                self.last_error = Some(String::from_str("ssh process exited"));
                self.process_id = None;
                self.port_reachable = false;
                self.schedule_retry(now);
                None
            },
            Some(ProcessProbe::CheckFailed { error }) => {
                self.process_alive = false;
                self.last_error = Some(error);
                self.process_id = None;
                self.port_reachable = false;
                self.schedule_retry(now);
                None
            },
            Some(ProcessProbe::Running { port_reachable }) => {
                self.port_reachable = port_reachable;
                let grace = self.config.startup_grace_period_secs();
                let expired = match self.last_started_at {
                    Some(started) => {
                        let elapsed: u64 = if now >= started {
                            now - started
                        } else {
                            0
                        };
                        elapsed as u128 >= grace as u128 * 1000
                    },
                    None => true,
                };
                if !port_reachable && expired {
                    let mut message = String::from_str("forwarded port is not reachable on local port ");
                    push_decimal(&mut message, self.config.local_port as u64);
                    message.append(" after ");
                    push_decimal(&mut message, grace);
                    message.append("s startup grace period");
                    self.last_error = Some(message);
                    let kill = self.stop();
                    self.schedule_retry(now);
                    kill
                } else {
                    None
                }
            },
            None => None,
        }
    }

    /// Whether a periodic tick at `now` should start the connection.
    pub fn tick_wants_start(&self, now: u64) -> (res: bool)
        ensures
            res == tick_due(self@, now),
    {
        if self.restart_suppressed || self.process_id.is_some() {
            return false;
        }
        if !self.config.auto_start && self.next_retry_at.is_none() {
            return false;
        }
        match self.next_retry_at {
            Some(deadline) => now as u128 >= deadline,
            None => self.config.auto_start,
        }
    }

    /// Stops the connection for good: no restart until a refresh. Returns the
    /// pid to kill.
    pub fn suppress(&mut self) -> (kill: Option<u32>)
        requires
            old(self).wf(),
        ensures
            final(self)@ == suppressed(old(self)@),
            kill == old(self)@.process_id,
            final(self).wf(),
    {
        self.restart_suppressed = true;
        self.next_retry_at = None;
        self.retry_scheduled_at = None;
        self.stop()
    }

    /// Stops the process and clears suppression, pending retry and last
    /// error, ahead of a fresh start. Returns the pid to kill.
    pub fn reset(&mut self) -> (kill: Option<u32>)
        requires
            old(self).wf(),
        ensures
            final(self)@ == reset(old(self)@),
            kill == old(self)@.process_id,
            final(self).wf(),
    {
        let kill = self.stop();
        self.restart_suppressed = false;
        self.next_retry_at = None;
        self.retry_scheduled_at = None;
        self.last_error = None;
        kill
    }

    /// What is reported about this connection at `now`.
    pub fn status(&self, now: u64) -> (res: ConnectionStatus)
        requires
            self.wf(),
        ensures
            res@ == status_of(self@, now),
            res.next_retry_in_seconds is Some == self.retry_scheduled_at is Some,
            self.retry_scheduled_at is Some && self.retry_scheduled_at->0 <= now
                ==> res.next_retry_in_seconds->0 <= self.config.reconnect_delay_seconds,
    {
        proof {
            lemma_retry_seconds_bounded(self@, now);
        }
        let state = if self.restart_suppressed {
            ConnectionState::Stopped
        } else if self.process_alive && self.port_reachable {
            ConnectionState::Healthy
        } else if self.process_alive {
            ConnectionState::Starting
        } else if self.next_retry_at.is_some() {
            ConnectionState::WaitingToRetry
        } else {
            ConnectionState::Failed
        };
        let next_retry_in_seconds = match self.next_retry_at {
            Some(deadline) => {
                let now_wide = now as u128;
                if deadline <= now_wide {
                    Some(0u64)
                } else {
                    let secs = (deadline - now_wide) / 1000;
                    if secs > 0xffff_ffff_ffff_ffffu128 {
                        Some(0xffff_ffff_ffff_ffffu64)
                    } else {
                        Some(secs as u64)
                    }
                }
            },
            None => None,
        };
        ConnectionStatus {
            name: self.config.name.clone(),
            ssh_host: self.config.ssh_host.clone(),
            local_port: self.config.local_port,
            remote_host: self.config.remote_host.clone(),
            remote_port: self.config.remote_port,
            auto_start: self.config.auto_start,
            reconnect_delay_seconds: self.config.reconnect_delay_seconds,
            process_id: self.process_id,
            process_alive: self.process_alive,
            port_reachable: self.port_reachable,
            state,
            restart_suppressed: self.restart_suppressed,
            last_error: clone_opt_string(&self.last_error),
            next_retry_in_seconds,
        }
    }
}


/// A connection is reported healthy exactly when no stop suppresses it, its
/// process is alive and its forwarded port accepts connections.
pub proof fn lemma_healthy_iff(m: ManagedView)
    ensures
        (state_of(m) == ConnectionState::Healthy) == (!m.restart_suppressed && m.process_alive
            && m.port_reachable),
{
}

/// A stopped connection stays stopped: it is reported `Stopped`, no tick
/// starts it whatever the time, no start is allowed, and health checks leave
/// it so, until a refresh.
pub proof fn lemma_stop_keeps_connection_down(m: ManagedView, now: u64, later: u64)
    requires
        managed_wf(m),
    ensures
        state_of(suppressed(m)) == ConnectionState::Stopped,
        suppressed(m).restart_suppressed,
        suppressed(m).process_id is None,
        !may_start(suppressed(m)),
        !tick_due(suppressed(m), later),
        after_probe(suppressed(m), None, later).1 is None,
        state_of(after_probe(suppressed(m), None, later).0) == ConnectionState::Stopped,
        !tick_due(after_probe(suppressed(m), None, later).0, later),
{
}

/// A refresh lifts a stop: the connection may be started again, with no
/// suppression, pending retry or error left.
pub proof fn lemma_refresh_allows_start(m: ManagedView)
    requires
        managed_wf(m),
    ensures
        may_start(reset(m)),
        !reset(m).restart_suppressed,
        reset(m).next_retry_at is None,
        reset(m).last_error is None,
        managed_wf(reset(m)),
{
}

/// A connection that has never been started and does not start on its own is
/// reported `Failed`, with no retry pending, and ticks never start it.
pub proof fn lemma_fresh_manual_connection_idles(c: ConnectionConfigView, now: u64)
    requires
        !c.auto_start,
    ensures
        state_of(fresh(c)) == ConnectionState::Failed,
        status_of(fresh(c), now).next_retry_in_seconds is None,
        !status_of(fresh(c), now).restart_suppressed,
        !tick_due(fresh(c), now),
{
}

/// A connection that starts on its own is started by the first tick.
pub proof fn lemma_fresh_auto_connection_starts(c: ConnectionConfigView, now: u64)
    requires
        c.auto_start,
    ensures
        tick_due(fresh(c), now),
{
}

/// When the tracked process of an auto-started, unsuppressed connection
/// exits, it is reported waiting to retry with the error "ssh process
/// exited", and the next tick at or after the reconnect delay starts it
/// again, none before.
pub proof fn lemma_exit_schedules_retry(m: ManagedView, now: u64, later: u64)
    requires
        managed_wf(m),
        m.process_id is Some,
        m.config.auto_start,
        !m.restart_suppressed,
    ensures
        ({
            let (m2, kill) = after_probe(m, Some(ProcessProbe::Exited), now);
            &&& kill is None
            &&& managed_wf(m2)
            &&& state_of(m2) == ConnectionState::WaitingToRetry
            &&& m2.last_error == Some("ssh process exited"@)
            &&& tick_due(m2, later) == (later >= now + m.config.reconnect_delay_seconds * 1000)
        }),
{
}

/// A failed start of an unsuppressed connection, whether or not it starts on
/// its own, is retried by the first tick once the reconnect delay has passed,
/// and not before; it is reported waiting to retry meanwhile.
pub proof fn lemma_failed_start_retries(
    m: ManagedView,
    error: String,
    now: u64,
    later: u64,
)
    requires
        managed_wf(m),
        may_start(m),
    ensures
        ({
            let m2 = after_spawn(m, SpawnOutcome::Failed { error }, now);
            &&& managed_wf(m2)
            &&& state_of(m2) == ConnectionState::WaitingToRetry
            &&& m2.last_error == Some(error@)
            &&& tick_due(m2, later) == (later >= now + m.config.reconnect_delay_seconds * 1000)
        }),
{
}

/// A started process is reported `Starting` until a health check finds its
/// port reachable, and `Healthy` from then on.
pub proof fn lemma_started_then_healthy(m: ManagedView, pid: u32, now: u64, later: u64)
    requires
        managed_wf(m),
        may_start(m),
    ensures
        ({
            let m2 = after_spawn(m, SpawnOutcome::Started { pid }, now);
            let (m3, kill) = after_probe(m2, Some(ProcessProbe::Running { port_reachable: true }), later);
            &&& state_of(m2) == ConnectionState::Starting
            &&& !may_start(m2)
            &&& kill is None
            &&& state_of(m3) == ConnectionState::Healthy
        }),
{
}

/// A process whose port is still unreachable once the startup grace period
/// is over is killed, and the connection is reported waiting to retry (or
/// failed, when it does not start on its own) with an error that says the
/// forwarded port is not reachable.
pub proof fn lemma_unreachable_port_is_retried(m: ManagedView, now: u64)
    requires
        managed_wf(m),
        m.process_id is Some,
        !m.restart_suppressed,
        grace_expired(m, now),
    ensures
        ({
            let (m2, kill) = after_probe(m, Some(ProcessProbe::Running { port_reachable: false }), now);
            &&& kill == m.process_id
            &&& m2.process_id is None
            &&& managed_wf(m2)
            &&& state_of(m2) == if m.config.auto_start {
                ConnectionState::WaitingToRetry
            } else {
                ConnectionState::Failed
            }
            &&& m2.last_error == Some(unreachable_message(m.config.local_port, grace_secs(m.config)))
        }),
{
}


/// The seconds reported until the next retry never exceed the reconnect
/// delay, once the clock has reached the time the retry was scheduled; a
/// retry is reported exactly while one is scheduled.
pub proof fn lemma_retry_seconds_bounded(m: ManagedView, now: u64)
    requires
        managed_wf(m),
    ensures
        status_of(m, now).next_retry_in_seconds is Some == m.retry_scheduled_at is Some,
        m.retry_scheduled_at is Some && m.retry_scheduled_at->0 <= now
            ==> status_of(m, now).next_retry_in_seconds->0 <= m.config.reconnect_delay_seconds,
{
    if let Some(scheduled) = m.retry_scheduled_at {
        if scheduled <= now {
            let deadline = m.next_retry_at->0;
            let delay = m.config.reconnect_delay_seconds;
            if deadline > now {
                let diff: int = deadline - now;
                assert(diff <= delay * 1000);
                assert(diff / 1000 <= delay) by (nonlinear_arith)
                    requires
                        0 < diff <= delay * 1000,
                        delay >= 0,
                ;
            }
        }
    }
}


/// A refresh kills the tracked process and attempts a restart at once: the
/// reset connection may start; a failed attempt leaves it waiting to retry
/// with the spawn's error; a started one is reported `Starting` with no
/// error, and a health check within the startup grace period keeps it,
/// `Healthy` when its port answers and `Starting` otherwise.
pub proof fn lemma_refresh_restarts(
    m: ManagedView,
    outcome: SpawnOutcome,
    now: u64,
    later: u64,
    port_reachable: bool,
)
    requires
        managed_wf(m),
    ensures
        may_start(reset(m)),
        reset(m).process_id is None,
        !reset(m).restart_suppressed,
        managed_wf(reset(m)),
        ({
            let a = after_spawn(reset(m), outcome, now);
            &&& managed_wf(a)
            &&& !a.restart_suppressed
            &&& match outcome {
                SpawnOutcome::Failed { error } => {
                    &&& state_of(a) == ConnectionState::WaitingToRetry
                    &&& a.last_error == Some(error@)
                },
                SpawnOutcome::Started { pid } => {
                    &&& state_of(a) == ConnectionState::Starting
                    &&& a.process_id == Some(pid)
                    &&& a.last_error is None
                    &&& (elapsed_ms(now, later) < grace_secs(m.config) * 1000 ==> {
                        let (b, kill) = after_probe(
                            a,
                            Some(ProcessProbe::Running { port_reachable }),
                            later,
                        );
                        &&& kill is None
                        &&& managed_wf(b)
                        &&& b.last_error is None
                        &&& state_of(b) == if port_reachable {
                            ConnectionState::Healthy
                        } else {
                            ConnectionState::Starting
                        }
                    })
                },
            }
        }),
{
}


/// A successful start leaves no error behind, whatever error the connection
/// had before: the new process is tracked and alive, its port not yet known
/// to answer, no retry is pending, and the stop flag is untouched.
pub proof fn lemma_started_clears_error(m: ManagedView, pid: u32, now: u64)
    ensures
        ({
            let m2 = after_spawn(m, SpawnOutcome::Started { pid }, now);
            &&& m2.last_error is None
            &&& m2.process_id == Some(pid)
            &&& m2.process_alive
            &&& !m2.port_reachable
            &&& m2.next_retry_at is None
            &&& m2.last_started_at == Some(now)
            &&& m2.restart_suppressed == m.restart_suppressed
            &&& m2.config == m.config
            &&& (!m.restart_suppressed ==> state_of(m2) == ConnectionState::Starting)
        }),
{
}

/// When the process of a connection that does not start on its own, or whose
/// restarts are suppressed, exits or cannot be checked, no retry is
/// scheduled: it is reported `Failed` (or `Stopped`), with no next retry, and
/// no tick ever starts it again.
pub proof fn lemma_exit_without_auto_start_is_not_retried(
    m: ManagedView,
    error: String,
    now: u64,
    later: u64,
)
    requires
        managed_wf(m),
        m.process_id is Some,
        !m.config.auto_start || m.restart_suppressed,
    ensures
        ({
            let (m2, kill) = after_probe(m, Some(ProcessProbe::Exited), now);
            &&& kill is None
            &&& m2.process_id is None
            &&& m2.next_retry_at is None
            &&& status_of(m2, later).next_retry_in_seconds is None
            &&& state_of(m2) == if m.restart_suppressed {
                ConnectionState::Stopped
            } else {
                ConnectionState::Failed
            }
            &&& !tick_due(m2, later)
        }),
        ({
            let (m2, kill) = after_probe(m, Some(ProcessProbe::CheckFailed { error }), now);
            &&& kill is None
            &&& m2.process_id is None
            &&& m2.next_retry_at is None
            &&& m2.last_error == Some(error@)
            &&& state_of(m2) == if m.restart_suppressed {
                ConnectionState::Stopped
            } else {
                ConnectionState::Failed
            }
            &&& !tick_due(m2, later)
        }),
{
}

} // verus!
