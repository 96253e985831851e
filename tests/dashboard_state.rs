use prover_dashboard::metrics::SystemMetrics;
use prover_dashboard::state::{
    DashboardState, Environment, Event, EventType, FetchingState, ProverState, UIConfig,
    HISTORY_LEN, MAX_ACTIVITY_LOGS,
};

fn state() -> DashboardState {
    DashboardState::new(
        Some(7),
        Environment::Production,
        1_000,
        UIConfig { gflops_centi: 1_250, num_threads: 4 },
        16_000_000_000,
        sysinfo::System::new(),
    )
}

fn event(n: usize, shown: bool) -> Event {
    Event::new(format!("event {}", n), "2024-03-05 13:07:22".to_string(), EventType::Success, shown)
}

fn log_messages(s: &DashboardState) -> Vec<String> {
    s.activity_logs.iter().map(|e| e.msg.clone()).collect()
}

#[test]
fn new_state_defaults() {
    let s = state();
    assert_eq!(s.node_id, Some(7));
    assert_eq!(s.tick, 0);
    assert_eq!(s.num_threads, 4);
    assert_eq!(s.cpu_history, vec![0; HISTORY_LEN]);
    assert_eq!(s.ram_history, vec![0; HISTORY_LEN]);
    assert!(s.activity_logs.is_empty());
    assert!(s.pending_events.is_empty());
    assert_eq!(*s.fetching_state(), FetchingState::Idle);
    assert_eq!(s.current_prover_state(), ProverState::Waiting);
    assert_eq!(s.system_metrics.gflops_centi, 1_250);
    assert_eq!(s.system_metrics.total_ram_bytes, 16_000_000_000);
    assert_eq!(s.system_metrics.last_cpu_update, None);
    assert_eq!(s.zkvm_metrics.last_task_status, "None");
}

#[test]
fn activity_log_evicts_oldest_past_bound() {
    let mut s = state();
    let total = MAX_ACTIVITY_LOGS + 5;
    for n in 0..total {
        s.add_to_activity_log(event(n, true));
        assert!(s.activity_logs.len() <= MAX_ACTIVITY_LOGS);
    }
    assert_eq!(s.activity_logs.len(), MAX_ACTIVITY_LOGS);
    let expected: Vec<String> = (5..total).map(|n| format!("event {}", n)).collect();
    assert_eq!(log_messages(&s), expected);
}

#[test]
fn activity_log_below_bound_keeps_all() {
    let mut s = state();
    for n in 0..3 {
        s.add_to_activity_log(event(n, n != 1));
    }
    assert_eq!(log_messages(&s), vec!["event 0", "event 1", "event 2"]);
}

#[test]
fn pending_events_wait_until_drained() {
    let mut s = state();
    for n in 0..5 {
        s.add_event(event(n, true));
    }
    assert_eq!(s.pending_events.len(), 5);
    assert!(s.activity_logs.is_empty());
    assert_eq!(s.drain_pending_events(2), 2);
    assert_eq!(log_messages(&s), vec!["event 0", "event 1"]);
    assert_eq!(s.pending_events.len(), 3);
    assert_eq!(s.drain_pending_events(10), 3);
    assert_eq!(log_messages(&s), vec!["event 0", "event 1", "event 2", "event 3", "event 4"]);
    assert_eq!(s.drain_pending_events(10), 0);
}

#[test]
fn history_keeps_sixty_newest() {
    let mut s = state();
    for n in 0..(HISTORY_LEN as u64 + 3) {
        let mut m = SystemMetrics::new(1_000, 0);
        m.cpu_permille = n * 10;
        m.ram_bytes = n;
        s.record_system_metrics(m);
        assert_eq!(s.cpu_history.len(), HISTORY_LEN);
        assert_eq!(s.ram_history.len(), HISTORY_LEN);
    }
    let expected: Vec<u64> = (3..(HISTORY_LEN as u64 + 3)).collect();
    assert_eq!(s.cpu_history, expected);
    assert_eq!(*s.ram_history.last().unwrap(), 6);
    assert_eq!(s.ram_history[0], 0);
    assert_eq!(s.system_metrics.ram_bytes, HISTORY_LEN as u64 + 2);
}

#[test]
fn fetching_state_transitions() {
    let mut s = state();
    s.set_fetching_state(FetchingState::Active { started_at: 5_000 });
    assert_eq!(*s.fetching_state(), FetchingState::Active { started_at: 5_000 });
    s.set_fetching_state(FetchingState::Timeout);
    assert_eq!(*s.fetching_state(), FetchingState::Timeout);
    s.set_fetching_state(FetchingState::Idle);
    assert_eq!(*s.fetching_state(), FetchingState::Idle);
}

#[test]
fn prover_state_setter() {
    let mut s = state();
    s.set_current_prover_state(ProverState::Proving);
    assert_eq!(s.current_prover_state(), ProverState::Proving);
    s.set_current_prover_state(ProverState::Waiting);
    assert_eq!(s.current_prover_state(), ProverState::Waiting);
}

#[test]
fn tick_advances() {
    let mut s = state();
    s.advance_tick();
    s.advance_tick();
    assert_eq!(s.tick, 2);
}

#[test]
fn visible_indices_newest_first() {
    let mut s = state();
    for n in 0..6 {
        s.add_to_activity_log(event(n, n % 2 == 0));
    }
    assert_eq!(s.visible_log_indices(10), vec![4, 2, 0]);
    assert_eq!(s.visible_log_indices(2), vec![4, 2]);
    assert_eq!(s.visible_log_indices(0), Vec::<usize>::new());
    assert!(s.activity_logs[1].should_display() == false);
}

#[test]
fn probe_is_reachable() {
    let mut s = state();
    let probe = s.get_sysinfo_mut();
    probe.refresh_memory();
    assert!(s.sysinfo.total_memory() > 0);
}
