use prover_dashboard::metrics::{
    Band, ProbeSample, ProcessReading, SystemMetrics, TaskFetchInfo, ZkVMMetrics,
};

const INTERVAL: u64 = 200;

fn reading(pid: usize, parent: Option<usize>, name: &str, memory: u64, cpu: u64) -> ProcessReading {
    ProcessReading { pid, parent, name: name.to_string(), memory, cpu_permille: cpu }
}

fn sample(at: u64, own_mem: u64, own_cpu: u64, worker_mem: u64, worker_cpu: u64) -> ProbeSample {
    ProbeSample {
        processes: vec![
            reading(1, None, "init", 5_000, 10),
            reading(42, Some(1), "nexus-network", own_mem, own_cpu),
            reading(43, Some(42), "nexus-worker", worker_mem, worker_cpu),
            reading(44, Some(42), "helper", 7_000, 300),
            reading(45, Some(1), "nexus-other", 9_000, 400),
        ],
        current_pid: 42,
        total_ram_bytes: 1_000_000,
        taken_at_ms: at,
    }
}

fn metrics(cpu: u64, ram: u64, total: u64) -> SystemMetrics {
    SystemMetrics {
        cpu_permille: cpu,
        ram_bytes: ram,
        peak_ram_bytes: ram,
        total_ram_bytes: total,
        gflops_centi: 0,
        last_cpu_update: None,
    }
}

#[test]
fn first_update_reads_cpu_and_sums_workers() {
    let m = SystemMetrics::update(&sample(1_000, 100, 50, 20, 25), INTERVAL, 0, None);
    assert_eq!(m.ram_bytes, 120);
    assert_eq!(m.cpu_permille, 75);
    assert_eq!(m.peak_ram_bytes, 120);
    assert_eq!(m.total_ram_bytes, 1_000_000);
    assert_eq!(m.gflops_centi, 0);
    assert_eq!(m.last_cpu_update, Some(1_000));
}

#[test]
fn update_within_interval_keeps_cpu() {
    let mut first = SystemMetrics::update(&sample(1_000, 100, 50, 20, 25), INTERVAL, 0, None);
    first.gflops_centi = 1234;
    let second = SystemMetrics::update(&sample(1_150, 300, 900, 10, 900), INTERVAL, first.peak_ram_bytes, Some(&first));
    assert_eq!(second.cpu_permille, 75);
    assert_eq!(second.last_cpu_update, Some(1_000));
    assert_eq!(second.ram_bytes, 310);
    assert_eq!(second.gflops_centi, 1234);
    let third = SystemMetrics::update(&sample(1_199, 300, 900, 10, 900), INTERVAL, second.peak_ram_bytes, Some(&second));
    assert_eq!(third.cpu_permille, 75);
}

#[test]
fn update_after_interval_reads_cpu_again() {
    let first = SystemMetrics::update(&sample(1_000, 100, 50, 20, 25), INTERVAL, 0, None);
    let second = SystemMetrics::update(&sample(1_200, 100, 900, 20, 100), INTERVAL, first.peak_ram_bytes, Some(&first));
    assert_eq!(second.cpu_permille, 1_000);
    assert_eq!(second.last_cpu_update, Some(1_200));
}

#[test]
fn update_with_clock_going_back_keeps_cpu() {
    let first = SystemMetrics::update(&sample(1_000, 100, 50, 20, 25), INTERVAL, 0, None);
    let second = SystemMetrics::update(&sample(500, 100, 900, 20, 100), INTERVAL, first.peak_ram_bytes, Some(&first));
    assert_eq!(second.cpu_permille, 75);
}

#[test]
fn missing_own_process_gives_zero() {
    let mut s = sample(1_000, 100, 50, 20, 25);
    s.processes.remove(1);
    let m = SystemMetrics::update(&s, INTERVAL, 77, None);
    assert_eq!(m.ram_bytes, 0);
    assert_eq!(m.cpu_permille, 0);
    assert_eq!(m.peak_ram_bytes, 77);
    assert_eq!(m.last_cpu_update, Some(1_000));
    let first = SystemMetrics::update(&sample(1_000, 100, 50, 20, 25), INTERVAL, 0, None);
    let throttled = SystemMetrics::update(&s, INTERVAL, 120, Some(&first));
    assert_eq!(throttled.cpu_permille, 0);
}

#[test]
fn memory_sum_saturates() {
    let s = sample(0, u64::MAX - 5, 0, 100, 0);
    let m = SystemMetrics::update(&s, INTERVAL, 0, None);
    assert_eq!(m.ram_bytes, u64::MAX);
}

#[test]
fn peak_tracks_maximum_over_samples() {
    let mut m = SystemMetrics::new(1_000_000, 0);
    let mut max_seen = 0;
    for (i, mem) in [100u64, 500, 300, 700, 200].iter().enumerate() {
        let next = SystemMetrics::update(&sample(i as u64 * 50, *mem, 0, 0, 0), INTERVAL, m.peak_ram_bytes, Some(&m));
        assert!(next.peak_ram_bytes >= m.peak_ram_bytes);
        max_seen = max_seen.max(*mem);
        assert_eq!(next.peak_ram_bytes, max_seen);
        m = next;
    }
    assert_eq!(m.peak_ram_bytes, 700);
    assert_eq!(m.ram_bytes, 200);
}

#[test]
fn refresh_due_rules() {
    assert!(SystemMetrics::cpu_refresh_due(None, 0, INTERVAL));
    let mut m = metrics(0, 0, 0);
    assert!(SystemMetrics::cpu_refresh_due(Some(&m), 10, INTERVAL));
    m.last_cpu_update = Some(1_000);
    assert!(!SystemMetrics::cpu_refresh_due(Some(&m), 1_199, INTERVAL));
    assert!(SystemMetrics::cpu_refresh_due(Some(&m), 1_200, INTERVAL));
}

#[test]
fn ram_ratio_values() {
    assert_eq!(metrics(0, 250, 1_000).ram_ratio(), 250);
    assert_eq!(metrics(0, 1, 3).ram_ratio(), 333);
    assert_eq!(metrics(0, 500, 0).ram_ratio(), 0);
    assert_eq!(metrics(0, 2_000, 1_000).ram_ratio(), 2_000);
}

#[test]
fn format_ram_values() {
    assert_eq!(metrics(0, 536_870_912, 0).format_ram(), "512.0 MB");
    assert_eq!(metrics(0, 1_610_612_736, 0).format_ram(), "1.5 GB");
    assert_eq!(metrics(0, 1_073_741_824, 0).format_ram(), "1.0 GB");
    assert_eq!(metrics(0, 1_073_741_823, 0).format_ram(), "1024.0 MB");
    assert_eq!(metrics(0, 0, 0).format_ram(), "0.0 MB");
    assert_eq!(metrics(0, 262_144, 0).format_ram(), "0.2 MB");
    assert_eq!(metrics(0, 786_432, 0).format_ram(), "0.8 MB");
}

#[test]
fn cpu_color_boundaries() {
    assert_eq!(metrics(800, 0, 0).cpu_color(), Band::Critical);
    assert_eq!(metrics(799, 0, 0).cpu_color(), Band::Warning);
    assert_eq!(metrics(600, 0, 0).cpu_color(), Band::Warning);
    assert_eq!(metrics(599, 0, 0).cpu_color(), Band::Nominal);
}

#[test]
fn ram_color_boundaries() {
    assert_eq!(metrics(0, 800, 1_000).ram_color(), Band::Critical);
    assert_eq!(metrics(0, 799, 1_000).ram_color(), Band::Warning);
    assert_eq!(metrics(0, 600, 1_000).ram_color(), Band::Warning);
    assert_eq!(metrics(0, 599, 1_000).ram_color(), Band::Nominal);
    assert_eq!(metrics(0, 599, 0).ram_color(), Band::Nominal);
}

fn zkvm(fetched: usize, submitted: usize, points: u64) -> ZkVMMetrics {
    let mut z = ZkVMMetrics::default();
    z.tasks_fetched = fetched;
    z.tasks_submitted = submitted;
    z.total_points = points;
    z
}

#[test]
fn zkvm_defaults() {
    let z = ZkVMMetrics::default();
    assert_eq!(z.tasks_fetched, 0);
    assert_eq!(z.last_task_status, "None");
    let _ = TaskFetchInfo::default();
}

#[test]
fn success_rate_values() {
    assert_eq!(zkvm(0, 0, 0).success_rate(), 0);
    assert_eq!(zkvm(0, 5, 0).success_rate(), 0);
    assert_eq!(zkvm(4, 3, 0).success_rate(), 750);
    assert_eq!(zkvm(3, 1, 0).success_rate(), 333);
    assert_eq!(zkvm(2, 2, 0).success_rate(), 1_000);
}

#[test]
fn success_rate_color_bands() {
    assert_eq!(zkvm(4, 3, 0).success_rate_color(), Band::Nominal);
    assert_eq!(zkvm(100, 74, 0).success_rate_color(), Band::Warning);
    assert_eq!(zkvm(2, 1, 0).success_rate_color(), Band::Warning);
    assert_eq!(zkvm(100, 49, 0).success_rate_color(), Band::Critical);
    assert_eq!(zkvm(0, 0, 0).success_rate_color(), Band::Critical);
}

#[test]
fn points_text_values() {
    assert_eq!(zkvm(0, 0, 0)._format_points(), "0");
    assert_eq!(zkvm(0, 0, 999)._format_points(), "999");
    assert_eq!(zkvm(0, 0, 1_000)._format_points(), "1,000");
    assert_eq!(zkvm(0, 0, 1_005)._format_points(), "1,005");
    assert_eq!(zkvm(0, 0, 999_999)._format_points(), "999,999");
    assert_eq!(zkvm(0, 0, 1_000_000)._format_points(), "1.0M");
    assert_eq!(zkvm(0, 0, 2_345_678)._format_points(), "2.3M");
    assert_eq!(zkvm(0, 0, 2_360_000)._format_points(), "2.4M");
}

#[test]
fn points_text_ties_follow_the_f64_quotient() {
    for p in [1_050_000u64, 1_150_000, 1_250_000, 2_150_000, 2_450_000, 9_950_000, u64::MAX] {
        let expected = format!("{:.1}M", p as f64 / 1_000_000.0);
        assert_eq!(zkvm(0, 0, p)._format_points(), expected);
    }
    assert_eq!(zkvm(0, 0, 2_150_000)._format_points(), "2.1M");
    assert_eq!(zkvm(0, 0, 2_450_000)._format_points(), "2.5M");
    assert_eq!(zkvm(0, 0, 1_250_000)._format_points(), "1.2M");
}
