//! The dashboard's mutable state: bounded event history, the pending event
//! queue, rolling load windows and the small state machines.
use std::collections::VecDeque;
use sysinfo::System;
use vstd::prelude::*;

use crate::metrics::{ratio_permille, saturate, SystemMetrics, TaskFetchInfo, ZkVMMetrics};

verus! {

/// Declares `sysinfo::System`, the operating system probe, so that the
/// dashboard can hold it; nothing is assumed of what is inside it.
#[verifier::external_type_specification]
#[verifier::external_body]
pub struct ExSystem(System);

/// How many events the activity log keeps.
pub const MAX_ACTIVITY_LOGS: usize = 100;

/// How many samples each load window keeps.
pub const HISTORY_LEN: usize = 60;

/// Whether a task fetch is outstanding. Times are milliseconds on a monotonic clock.
#[derive(Clone, Copy, Debug, PartialEq, Eq, Structural)]
pub enum FetchingState {
    Idle,
    Active { started_at: u64 },
    Timeout,
}

/// What the prover is doing.
#[derive(Clone, Copy, Debug, PartialEq, Eq, Structural)]
pub enum ProverState {
    Proving,
    Waiting,
}

/// The kind of a worker event.
#[derive(Clone, Copy, Debug, PartialEq, Eq, Structural)]
pub enum EventType {
    Success,
    Error,
    Refresh,
    Waiting,
    StateChange,
}

/// An event reported by the worker.
pub struct Event {
    pub msg: String,
    /// `"YYYY-MM-DD HH:MM:SS"`.
    pub timestamp: String,
    pub event_type: EventType,
    /// Whether the event belongs in the visible feed.
    pub display_eligible: bool,
}

impl Event {
    pub fn new(msg: String, timestamp: String, event_type: EventType, display_eligible: bool) -> (e: Event)
        ensures
            e.msg == msg,
            e.timestamp == timestamp,
            e.event_type == event_type,
            e.display_eligible == display_eligible,
    {
        Event { msg, timestamp, event_type, display_eligible }
    }

    /// Whether the event is shown in the activity feed.
    pub fn should_display(&self) -> (b: bool)
        ensures
            b == self.display_eligible,
    {
        self.display_eligible
    }
}

/// The network the node works for.
pub enum Environment {
    Production,
    Custom { orchestrator_url: String },
}

/// Settings of the dashboard given at startup.
#[derive(Clone, Copy, Debug, PartialEq, Eq, Structural)]
pub struct UIConfig {
    /// Estimated throughput in hundredths of a GFLOP/s.
    pub gflops_centi: u64,
    pub num_threads: usize,
}

/// `window` with `x` appended; when it already holds `cap` items the oldest leaves.
pub open spec fn slide<T>(window: Seq<T>, x: T, cap: nat) -> Seq<T> {
    if window.len() >= cap && window.len() > 0 {
        window.drop_first().push(x)
    } else {
        window.push(x)
    }
}

/// `window` after sliding in each of `xs` in order.
pub open spec fn slide_all<T>(window: Seq<T>, xs: Seq<T>, cap: nat) -> Seq<T>
    decreases xs.len(),
{
    if xs.len() == 0 {
        window
    } else {
        slide(slide_all(window, xs.drop_last(), cap), xs.last(), cap)
    }
}

/// One more slide extends a run: sliding `x` into the window that `xs`
/// produced is the window that `xs` followed by `x` produces. A caller that
/// admits events one call at a time carries `slide_all` along with this.
pub proof fn lemma_slide_all_push<T>(window: Seq<T>, xs: Seq<T>, x: T, cap: nat)
    ensures
        slide(slide_all(window, xs, cap), x, cap) == slide_all(window, xs.push(x), cap),
{
    assert(xs.push(x).drop_last() =~= xs);
}

/// A bounded window keeps exactly the newest `cap` items of all it was
/// given, oldest first; fewer only while fewer were given.
pub proof fn lemma_window_keeps_newest<T>(window: Seq<T>, xs: Seq<T>, cap: nat)
    requires
        0 < cap,
        window.len() <= cap,
    ensures
        slide_all(window, xs, cap) == (window + xs).skip(
            if window.len() + xs.len() > cap {
                window.len() + xs.len() - cap
            } else {
                0
            },
        ),
        slide_all(window, xs, cap).len() == if window.len() + xs.len() > cap {
            cap
        } else {
            window.len() + xs.len()
        },
    decreases xs.len(),
{
    if xs.len() == 0 {
        assert((window + xs).skip(0) =~= window);
    } else {
        let rest = xs.drop_last();
        lemma_window_keeps_newest(window, rest, cap);
        let all = window + xs;
        assert(window + rest =~= all.drop_last());
        assert(all.last() == xs.last());
        let before = slide_all(window, rest, cap);
        if window.len() + rest.len() >= cap {
            assert(before.drop_first().push(xs.last()) =~= all.skip(window.len() + xs.len() - cap));
        } else {
            assert(before.push(xs.last()) =~= all.skip(0));
        }
    }
}

/// Activity log admission: past the bound, the log holds exactly the most
/// recent `MAX_ACTIVITY_LOGS` events in arrival order.
pub proof fn lemma_activity_log_bounded(log: Seq<Event>, events: Seq<Event>)
    requires
        log.len() <= MAX_ACTIVITY_LOGS,
        log.len() + events.len() >= MAX_ACTIVITY_LOGS,
    ensures
        slide_all(log, events, MAX_ACTIVITY_LOGS as nat).len() == MAX_ACTIVITY_LOGS,
        slide_all(log, events, MAX_ACTIVITY_LOGS as nat) == (log + events).skip(
            log.len() + events.len() - MAX_ACTIVITY_LOGS,
        ),
{
    lemma_window_keeps_newest(log, events, MAX_ACTIVITY_LOGS as nat);
    if log.len() + events.len() == MAX_ACTIVITY_LOGS {
        assert((log + events).skip(0) == (log + events).skip(
            log.len() + events.len() - MAX_ACTIVITY_LOGS,
        ));
    }
}

/// Load windows: a full window stays `HISTORY_LEN` long, and after any
/// samples it holds the newest `HISTORY_LEN` values, oldest first.
pub proof fn lemma_history_fixed_length(window: Seq<u64>, values: Seq<u64>)
    requires
        window.len() == HISTORY_LEN,
    ensures
        slide_all(window, values, HISTORY_LEN as nat).len() == HISTORY_LEN,
        slide_all(window, values, HISTORY_LEN as nat) == (window + values).skip(values.len() as int),
{
    lemma_window_keeps_newest(window, values, HISTORY_LEN as nat);
    if values.len() == 0 {
        assert((window + values).skip(0) == (window + values).skip(values.len() as int));
    }
}

/// The CPU figure as a whole percent for the load window.
pub open spec fn cpu_percent_sample(m: SystemMetrics) -> u64 {
    m.cpu_permille / 10
}

/// The memory share as a whole percent for the load window.
pub open spec fn ram_percent_sample(m: SystemMetrics) -> u64 {
    saturate(ratio_permille(m.ram_bytes, m.total_ram_bytes) as int) / 10
}

/// The dashboard's state; the rendering layer reads it between ticks.
pub struct DashboardState {
    /// Absent until the node is registered.
    pub node_id: Option<u64>,
    pub environment: Environment,
    /// Milliseconds on a monotonic clock.
    pub start_time: u64,
    pub last_task: Option<String>,
    pub current_task: Option<String>,
    pub total_ram_bytes: u64,
    pub num_threads: usize,
    /// Events that arrived and wait for the activity log.
    pub pending_events: VecDeque<Event>,
    /// Admitted events, oldest first, at most `MAX_ACTIVITY_LOGS`.
    pub activity_logs: VecDeque<Event>,
    pub system_metrics: SystemMetrics,
    pub zkvm_metrics: ZkVMMetrics,
    pub task_fetch_info: TaskFetchInfo,
    /// Frames drawn so far.
    pub tick: usize,
    /// CPU usage in percent, oldest first.
    pub cpu_history: Vec<u64>,
    /// Memory share in percent, oldest first.
    pub ram_history: Vec<u64>,
    pub fetching_state: FetchingState,
    /// The operating system probe that the tick loop refreshes.
    pub sysinfo: System,
    pub current_prover_state: ProverState,
    pub step2_start_time: Option<u64>,
    pub waiting_start_info: Option<(u64, u64)>,
}

fn zeroed_history() -> (v: Vec<u64>)
    ensures
        v@ == Seq::new(HISTORY_LEN as nat, |i: int| 0u64),
{
    let mut v: Vec<u64> = Vec::new();
    while v.len() < HISTORY_LEN
        invariant
            v@.len() <= HISTORY_LEN,
            forall|i: int| 0 <= i < v@.len() ==> v@[i] == 0,
        decreases HISTORY_LEN - v@.len(),
    {
        v.push(0);
    }
    assert(v@ =~= Seq::new(HISTORY_LEN as nat, |i: int| 0u64));
    v
}

fn slide_in(window: &mut Vec<u64>, x: u64)
    ensures
        final(window)@ == slide(old(window)@, x, HISTORY_LEN as nat),
{
    if window.len() >= HISTORY_LEN {
        window.remove(0);
        assert(old(window)@.remove(0) =~= old(window)@.drop_first());
    }
    window.push(x);
}

impl DashboardState {
    /// Creates the state of a freshly started dashboard.
    pub fn new(
        node_id: Option<u64>,
        environment: Environment,
        start_time: u64,
        ui_config: UIConfig,
        total_ram_bytes: u64,
        sysinfo: System,
    ) -> (s: DashboardState)
        ensures
            s.node_id == node_id,
            s.environment == environment,
            s.start_time == start_time,
            s.last_task is None,
            s.current_task is None,
            s.total_ram_bytes == total_ram_bytes,
            s.num_threads == ui_config.num_threads,
            s.pending_events@.len() == 0,
            s.activity_logs@.len() == 0,
            s.system_metrics == (SystemMetrics {
                cpu_permille: 0,
                ram_bytes: 0,
                peak_ram_bytes: 0,
                total_ram_bytes,
                gflops_centi: ui_config.gflops_centi,
                last_cpu_update: None,
            }),
            s.zkvm_metrics.tasks_fetched == 0,
            s.zkvm_metrics.tasks_submitted == 0,
            s.zkvm_metrics.zkvm_runtime_secs == 0,
            s.zkvm_metrics.last_task_status@ == "None"@,
            s.zkvm_metrics.total_points == 0,
            s.tick == 0,
            s.cpu_history@ == Seq::new(HISTORY_LEN as nat, |i: int| 0u64),
            s.ram_history@ == Seq::new(HISTORY_LEN as nat, |i: int| 0u64),
            s.fetching_state == FetchingState::Idle,
            s.current_prover_state == ProverState::Waiting,
            s.sysinfo == sysinfo,
            s.step2_start_time is None,
            s.waiting_start_info is None,
    {
        let system_metrics = SystemMetrics::new(total_ram_bytes, ui_config.gflops_centi);
        DashboardState {
            node_id,
            environment,
            start_time,
            last_task: None,
            current_task: None,
            total_ram_bytes,
            num_threads: ui_config.num_threads,
            pending_events: VecDeque::new(),
            activity_logs: VecDeque::new(),
            system_metrics,
            zkvm_metrics: ZkVMMetrics::default(),
            task_fetch_info: TaskFetchInfo {},
            tick: 0,
            cpu_history: zeroed_history(),
            ram_history: zeroed_history(),
            fetching_state: FetchingState::Idle,
            sysinfo,
            current_prover_state: ProverState::Waiting,
            step2_start_time: None,
            waiting_start_info: None,
        }
    }

    pub fn fetching_state(&self) -> (r: &FetchingState)
        ensures
            *r == self.fetching_state,
    {
        &self.fetching_state
    }

    /// Moves the fetch state machine; the caller decides on timeouts.
    pub fn set_fetching_state(&mut self, state: FetchingState)
        ensures
            *final(self) == (DashboardState { fetching_state: state, ..*old(self) }),
            final(self).fetching_state == state,
    {
        self.fetching_state = state;
    }

    pub fn current_prover_state(&self) -> (r: ProverState)
        ensures
            r == self.current_prover_state,
    {
        self.current_prover_state
    }

    pub fn set_current_prover_state(&mut self, state: ProverState)
        ensures
            *final(self) == (DashboardState { current_prover_state: state, ..*old(self) }),
            final(self).current_prover_state == state,
    {
        self.current_prover_state = state;
    }

    /// The probe, to be refreshed by the owner of the tick loop.
    pub fn get_sysinfo_mut(&mut self) -> (r: &mut System)
        ensures
            *r == old(self).sysinfo,
            *final(self) == (DashboardState { sysinfo: *final(r), ..*old(self) }),
    {
        &mut self.sysinfo
    }
}

/// Indices of the events of `log` that are shown, newest first, at most `max`.
pub open spec fn visible_newest_first(log: Seq<Event>, max: nat) -> Seq<int>
    decreases log.len(),
{
    if log.len() == 0 || max == 0 {
        Seq::empty()
    } else if log.last().display_eligible {
        seq![log.len() - 1] + visible_newest_first(log.drop_last(), (max - 1) as nat)
    } else {
        visible_newest_first(log.drop_last(), max)
    }
}

impl DashboardState {
    /// Admits an event to the activity log, evicting the oldest entry when the
    /// log is full.
    pub fn add_to_activity_log(&mut self, event: Event)
        ensures
            final(self).activity_logs@ == slide(old(self).activity_logs@, event, MAX_ACTIVITY_LOGS as nat),
            *final(self) == (DashboardState { activity_logs: final(self).activity_logs, ..*old(self) }),
    {
        if self.activity_logs.len() >= MAX_ACTIVITY_LOGS {
            self.activity_logs.pop_front();
        }
        self.activity_logs.push_back(event);
    }

    /// Queues an event; it reaches the activity log when pending events are drained.
    pub fn add_event(&mut self, event: Event)
        ensures
            final(self).pending_events@ == old(self).pending_events@.push(event),
            *final(self) == (DashboardState { pending_events: final(self).pending_events, ..*old(self) }),
    {
        self.pending_events.push_back(event);
    }

    /// Moves up to `max` of the oldest pending events, in order, into the
    /// activity log, and returns how many moved. The rest stay queued.
    pub fn drain_pending_events(&mut self, max: usize) -> (moved: usize)
        ensures
            moved as int == if old(self).pending_events@.len() < max {
                old(self).pending_events@.len() as int
            } else {
                max as int
            },
            final(self).pending_events@ == old(self).pending_events@.skip(moved as int),
            final(self).activity_logs@ == slide_all(
                old(self).activity_logs@,
                old(self).pending_events@.take(moved as int),
                MAX_ACTIVITY_LOGS as nat,
            ),
            *final(self) == (DashboardState {
                pending_events: final(self).pending_events,
                activity_logs: final(self).activity_logs,
                ..*old(self)
            }),
    {
        let ghost queued = self.pending_events@;
        let mut moved: usize = 0;
        assert(queued.skip(0) =~= queued);
        assert(queued.take(0) =~= Seq::<Event>::empty());
        while moved < max && self.pending_events.len() > 0
            invariant
                moved <= max,
                moved <= queued.len(),
                self.pending_events@ == queued.skip(moved as int),
                self.activity_logs@ == slide_all(
                    old(self).activity_logs@,
                    queued.take(moved as int),
                    MAX_ACTIVITY_LOGS as nat,
                ),
                *self == (DashboardState {
                    pending_events: self.pending_events,
                    activity_logs: self.activity_logs,
                    ..*old(self)
                }),
                queued == old(self).pending_events@,
            decreases queued.len() - moved,
        {
            let ghost before = self.activity_logs@;
            match self.pending_events.pop_front() {
                Some(event) => {
                    assert(event == queued[moved as int]);
                    self.add_to_activity_log(event);
                    proof {
                        assert(queued.take(moved + 1).drop_last() =~= queued.take(moved as int));
                        assert(queued.take(moved + 1).last() == queued[moved as int]);
                        assert(queued.skip(moved as int).subrange(1, queued.skip(moved as int).len() as int)
                            =~= queued.skip(moved + 1));
                    }
                    moved = moved + 1;
                },
                None => {},
            }
        }
        moved
    }

    /// Takes a new metrics snapshot and slides its CPU and memory percentages
    /// into the load windows.
    pub fn record_system_metrics(&mut self, metrics: SystemMetrics)
        ensures
            final(self).system_metrics == metrics,
            final(self).cpu_history@ == slide(old(self).cpu_history@, cpu_percent_sample(metrics), HISTORY_LEN as nat),
            final(self).ram_history@ == slide(old(self).ram_history@, ram_percent_sample(metrics), HISTORY_LEN as nat),
            *final(self) == (DashboardState {
                system_metrics: metrics,
                cpu_history: final(self).cpu_history,
                ram_history: final(self).ram_history,
                ..*old(self)
            }),
    {
        let cpu = metrics.cpu_permille / 10;
        let ram = metrics.ram_ratio() / 10;
        slide_in(&mut self.cpu_history, cpu);
        slide_in(&mut self.ram_history, ram);
        self.system_metrics = metrics;
    }

    /// Advances the frame counter by one.
    pub fn advance_tick(&mut self)
        requires
            old(self).tick < usize::MAX,
        ensures
            *final(self) == (DashboardState { tick: (old(self).tick + 1) as usize, ..*old(self) }),
    {
        self.tick = self.tick + 1;
    }

    /// Indices into the activity log of the events to show, newest first, at most `max`.
    pub fn visible_log_indices(&self, max: usize) -> (r: Vec<usize>)
        ensures
            r@.map_values(|i: usize| i as int) == visible_newest_first(self.activity_logs@, max as nat),
    {
        let ghost log = self.activity_logs@;
        let mut r: Vec<usize> = Vec::new();
        let mut i: usize = self.activity_logs.len();
        assert(log.take(i as int) =~= log);
        while i > 0 && r.len() < max
            invariant
                log == self.activity_logs@,
                i <= log.len(),
                r@.len() <= max,
                r@.map_values(|j: usize| j as int) + visible_newest_first(log.take(i as int), (max - r@.len()) as nat)
                    == visible_newest_first(log, max as nat),
            decreases i,
        {
            let ghost prefix = log.take(i as int);
            let ghost left = (max - r@.len()) as nat;
            proof {
                assert(prefix.drop_last() =~= log.take(i - 1));
                assert(prefix.last() == log[i - 1]);
            }
            if self.activity_logs[i - 1].should_display() {
                let ghost old_r = r@;
                r.push(i - 1);
                assert(r@.map_values(|j: usize| j as int) =~= old_r.map_values(|j: usize| j as int).push(i - 1));
                assert(r@.map_values(|j: usize| j as int) + visible_newest_first(log.take(i - 1), (max - r@.len()) as nat)
                    =~= old_r.map_values(|j: usize| j as int) + visible_newest_first(prefix, left));
            }
            i = i - 1;
        }
        proof {
            let left = (max - r@.len()) as nat;
            assert(visible_newest_first(log.take(i as int), left) =~= Seq::<int>::empty());
            assert(r@.map_values(|j: usize| j as int) + Seq::<int>::empty() =~= r@.map_values(|j: usize| j as int));
        }
        r
    }
}

} // verus!
