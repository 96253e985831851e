//! Process metrics sampling and the derived values shown for them.
//!
//! CPU usage is counted in tenths of a percent of one core, so `800` is 80.0 %.
use vstd::prelude::*;
use vstd::string::*;

use vstd::arithmetic::power2::{lemma2_to64, lemma2_to64_rest, lemma_pow2_strictly_increases, lemma_pow2_unfold, pow2};

use crate::text::{
    decimal, mentions, push_decimal, push_tenths, round_half_even, round_half_even_exec,
    round_tenths, rounded_tenths, str_contains, tenths_text,
};

verus! {

/// One entry of the operating system's process table, as read by the probe.
pub struct ProcessReading {
    pub pid: usize,
    pub parent: Option<usize>,
    pub name: String,
    /// Resident memory in bytes.
    pub memory: u64,
    /// CPU usage in tenths of a percent.
    pub cpu_permille: u64,
}

/// What one pass of the probe read.
pub struct ProbeSample {
    pub processes: Vec<ProcessReading>,
    /// The pid of this process.
    pub current_pid: usize,
    pub total_ram_bytes: u64,
    /// When the probe was read, in milliseconds on a monotonic clock.
    pub taken_at_ms: u64,
}

/// An immutable snapshot of the metrics of this process and its workers.
#[derive(Clone, Copy, Debug, PartialEq, Eq, Structural)]
pub struct SystemMetrics {
    /// CPU usage in tenths of a percent.
    pub cpu_permille: u64,
    pub ram_bytes: u64,
    /// Highest `ram_bytes` seen since startup.
    pub peak_ram_bytes: u64,
    pub total_ram_bytes: u64,
    /// Estimated throughput in hundredths of a GFLOP/s.
    pub gflops_centi: u64,
    /// When CPU usage was last read, in milliseconds on a monotonic clock.
    pub last_cpu_update: Option<u64>,
}

/// Three display bands of a load figure.
#[derive(Clone, Copy, Debug, PartialEq, Eq, Structural)]
pub enum Band {
    Nominal,
    Warning,
    Critical,
}

/// An integer clamped to the range of `u64`.
pub open spec fn saturate(x: int) -> u64 {
    if x > u64::MAX {
        u64::MAX
    } else if x < 0 {
        0
    } else {
        x as u64
    }
}

/// Time from `since` to `now`; zero when `now` comes first.
pub open spec fn elapsed(since: u64, now: u64) -> int {
    if now >= since {
        now - since
    } else {
        0
    }
}

/// CPU usage may be read again: never read yet, or read at least `min_interval` ago.
pub open spec fn refresh_due(last: Option<u64>, now: u64, min_interval: u64) -> bool {
    match last {
        None => true,
        Some(t) => elapsed(t, now) >= min_interval,
    }
}

/// A child of process `pid` whose name marks it as a worker.
pub open spec fn is_worker_child(r: ProcessReading, pid: usize) -> bool {
    r.parent == Some(pid) && mentions(r.name@, "nexus"@)
}

/// The first reading of process `pid`.
pub open spec fn own_process(ps: Seq<ProcessReading>, pid: usize) -> Option<ProcessReading>
    decreases ps.len(),
{
    if ps.len() == 0 {
        None
    } else if ps[0].pid == pid {
        Some(ps[0])
    } else {
        own_process(ps.drop_first(), pid)
    }
}

/// Memory of the worker children of `pid`, summed.
pub open spec fn workers_memory(ps: Seq<ProcessReading>, pid: usize) -> int
    decreases ps.len(),
{
    if ps.len() == 0 {
        0
    } else {
        workers_memory(ps.drop_last(), pid) + if is_worker_child(ps.last(), pid) {
            ps.last().memory as int
        } else {
            0
        }
    }
}

/// CPU usage of the worker children of `pid`, summed.
pub open spec fn workers_cpu(ps: Seq<ProcessReading>, pid: usize) -> int
    decreases ps.len(),
{
    if ps.len() == 0 {
        0
    } else {
        workers_cpu(ps.drop_last(), pid) + if is_worker_child(ps.last(), pid) {
            ps.last().cpu_permille as int
        } else {
            0
        }
    }
}

/// The snapshot behind an optional reference.
pub open spec fn copied(o: Option<&SystemMetrics>) -> Option<SystemMetrics> {
    match o {
        Some(m) => Some(*m),
        None => None,
    }
}

/// When CPU usage was last read, before a sample that follows `previous`.
pub open spec fn last_refresh(previous: Option<SystemMetrics>) -> Option<u64> {
    match previous {
        Some(m) => m.last_cpu_update,
        None => None,
    }
}

/// Memory of this process and its workers; zero when this process is not listed.
pub open spec fn sampled_ram(s: ProbeSample) -> u64 {
    match own_process(s.processes@, s.current_pid) {
        Some(p) => saturate(p.memory + workers_memory(s.processes@, s.current_pid)),
        None => 0,
    }
}

/// CPU usage after a sample while this process is listed: read afresh from
/// it and its workers when due, else carried over. Zero when it is not listed.
pub open spec fn sampled_cpu(s: ProbeSample, due: bool, previous: Option<SystemMetrics>) -> u64 {
    match own_process(s.processes@, s.current_pid) {
        Some(p) => if due {
            saturate(p.cpu_permille + workers_cpu(s.processes@, s.current_pid))
        } else {
            match previous {
                Some(m) => m.cpu_permille,
                None => 0,
            }
        },
        None => 0,
    }
}

/// The snapshot that follows `previous` given the sample `s`.
pub open spec fn next_metrics(
    s: ProbeSample,
    min_interval: u64,
    previous_peak: u64,
    previous: Option<SystemMetrics>,
) -> SystemMetrics {
    let due = refresh_due(last_refresh(previous), s.taken_at_ms, min_interval);
    let ram = sampled_ram(s);
    SystemMetrics {
        cpu_permille: sampled_cpu(s, due, previous),
        ram_bytes: ram,
        peak_ram_bytes: if previous_peak >= ram {
            previous_peak
        } else {
            ram
        },
        total_ram_bytes: s.total_ram_bytes,
        gflops_centi: match previous {
            Some(m) => m.gflops_centi,
            None => 0,
        },
        last_cpu_update: if due {
            Some(s.taken_at_ms)
        } else {
            last_refresh(previous)
        },
    }
}

/// `ram` as a share of `total` in tenths of a percent, rounded down; zero when `total` is zero.
pub open spec fn ratio_permille(ram: u64, total: u64) -> nat {
    if total > 0 {
        (1000 * ram as nat) / (total as nat)
    } else {
        0
    }
}

/// The band of a load figure in tenths of a percent: 80 % and above is
/// critical, 60 % and above a warning.
pub open spec fn load_band(permille: nat) -> Band {
    if permille >= 800 {
        Band::Critical
    } else if permille >= 600 {
        Band::Warning
    } else {
        Band::Nominal
    }
}

/// Memory in bytes as shown: megabytes below 1024 MB, else gigabytes, with one decimal.
pub open spec fn ram_text(bytes: u64) -> Seq<char> {
    if bytes >= 1073741824 {
        tenths_text(rounded_tenths(bytes as nat, 1073741824)) + seq![' ', 'G', 'B']
    } else {
        tenths_text(rounded_tenths(bytes as nat, 1048576)) + seq![' ', 'M', 'B']
    }
}

proof fn lemma_own_process_skip(ps: Seq<ProcessReading>, pid: usize, i: int)
    requires
        0 <= i < ps.len(),
        ps[i].pid != pid,
    ensures
        own_process(ps.skip(i), pid) == own_process(ps.skip(i + 1), pid),
{
    assert(ps.skip(i).drop_first() =~= ps.skip(i + 1));
}

fn is_worker_child_exec(r: &ProcessReading, pid: usize) -> (b: bool)
    ensures
        b == is_worker_child(*r, pid),
{
    match r.parent {
        Some(p) => p == pid && str_contains(r.name.as_str(), "nexus"),
        None => false,
    }
}

impl SystemMetrics {
    /// The first snapshot: nothing sampled yet.
    pub fn new(total_ram_bytes: u64, gflops_centi: u64) -> (m: SystemMetrics)
        ensures
            m == (SystemMetrics {
                cpu_permille: 0,
                ram_bytes: 0,
                peak_ram_bytes: 0,
                total_ram_bytes,
                gflops_centi,
                last_cpu_update: None,
            }),
    {
        SystemMetrics {
            cpu_permille: 0,
            ram_bytes: 0,
            peak_ram_bytes: 0,
            total_ram_bytes,
            gflops_centi,
            last_cpu_update: None,
        }
    }

    /// Whether a sample taken at `now_ms` should read CPU usage again.
    pub fn cpu_refresh_due(previous: Option<&SystemMetrics>, now_ms: u64, min_interval_ms: u64) -> (b: bool)
        ensures
            b == refresh_due(last_refresh(copied(previous)), now_ms, min_interval_ms),
    {
        match previous {
            Some(m) => match m.last_cpu_update {
                Some(t) => now_ms.saturating_sub(t) >= min_interval_ms,
                None => true,
            },
            None => true,
        }
    }

    /// Builds the snapshot that follows `previous_metrics` from a fresh sample.
    pub fn update(
        sample: &ProbeSample,
        min_interval_ms: u64,
        previous_peak: u64,
        previous_metrics: Option<&SystemMetrics>,
    ) -> (m: SystemMetrics)
        ensures
            m == next_metrics(*sample, min_interval_ms, previous_peak, copied(previous_metrics)),
    {
        let ghost prev = copied(previous_metrics);
        let ghost ps = sample.processes@;
        let pid = sample.current_pid;
        let now = sample.taken_at_ms;
        let due = SystemMetrics::cpu_refresh_due(previous_metrics, now, min_interval_ms);
        let last_cpu_update = if due {
            Some(now)
        } else {
            match previous_metrics {
                Some(p) => p.last_cpu_update,
                None => None,
            }
        };

        let n = sample.processes.len();
        let mut k: usize = 0;
        assert(ps.skip(0) =~= ps);
        while k < n && sample.processes[k].pid != pid
            invariant
                n == ps.len(),
                ps == sample.processes@,
                k <= n,
                own_process(ps, pid) == own_process(ps.skip(k as int), pid),
            decreases n - k,
        {
            proof {
                lemma_own_process_skip(ps, pid, k as int);
            }
            k = k + 1;
        }
        let mut cpu_total: u64 = 0;
        let mut ram_total: u64 = 0;
        if k < n {
            assert(ps.skip(k as int)[0] == ps[k as int]);
            assert(own_process(ps, pid) == Some(ps[k as int]));
            ram_total = sample.processes[k].memory;
            cpu_total = if due {
                sample.processes[k].cpu_permille
            } else {
                match previous_metrics {
                    Some(p) => p.cpu_permille,
                    None => 0,
                }
            };
        } else {
            assert(ps.skip(n as int) =~= Seq::<ProcessReading>::empty());
        }

        let ghost own_ram: int = ram_total as int;
        let ghost own_cpu: int = cpu_total as int;
        let found = k < n;
        let mut j: usize = 0;
        while found && j < n
            invariant
                found == (own_process(ps, pid) is Some),
                !found ==> j == 0,
                n == ps.len(),
                ps == sample.processes@,
                j <= n,
                ram_total == saturate(own_ram + workers_memory(ps.take(j as int), pid)),
                due ==> cpu_total == saturate(own_cpu + workers_cpu(ps.take(j as int), pid)),
                !due ==> cpu_total == own_cpu,
                own_ram >= 0,
                own_cpu >= 0,
                workers_memory(ps.take(j as int), pid) >= 0,
                workers_cpu(ps.take(j as int), pid) >= 0,
            decreases n - j,
        {
            let r = &sample.processes[j];
            proof {
                assert(ps.take(j + 1).drop_last() =~= ps.take(j as int));
                assert(ps.take(j + 1).last() == ps[j as int]);
            }
            if is_worker_child_exec(r, pid) {
                ram_total = ram_total.saturating_add(r.memory);
                if due {
                    cpu_total = cpu_total.saturating_add(r.cpu_permille);
                }
            }
            j = j + 1;
        }
        if found {
            assert(ps.take(n as int) =~= ps);
        } else {
            assert(ps.take(0) =~= Seq::<ProcessReading>::empty());
        }

        let gflops_centi = match previous_metrics {
            Some(p) => p.gflops_centi,
            None => 0,
        };
        SystemMetrics {
            cpu_permille: cpu_total,
            ram_bytes: ram_total,
            peak_ram_bytes: if previous_peak >= ram_total {
                previous_peak
            } else {
                ram_total
            },
            total_ram_bytes: sample.total_ram_bytes,
            gflops_centi,
            last_cpu_update,
        }
    }
}

impl SystemMetrics {
    /// Memory of this process as a share of all memory, in tenths of a
    /// percent rounded down; zero when the total is unknown. The share may
    /// pass 100 % for a moment, as both figures are sampled apart.
    pub fn ram_ratio(&self) -> (r: u64)
        ensures
            r == saturate(ratio_permille(self.ram_bytes, self.total_ram_bytes) as int),
    {
        if self.total_ram_bytes > 0 {
            let q: u128 = (1000 * (self.ram_bytes as u128)) / (self.total_ram_bytes as u128);
            if q > u64::MAX as u128 {
                u64::MAX
            } else {
                q as u64
            }
        } else {
            0
        }
    }

    /// Memory of this process as text, such as `512.0 MB` or `1.5 GB`.
    pub fn format_ram(&self) -> (s: String)
        ensures
            s@ == ram_text(self.ram_bytes),
    {
        let mut s = String::new();
        proof {
            reveal_strlit(" GB");
            reveal_strlit(" MB");
        }
        if self.ram_bytes >= 1073741824 {
            push_tenths(&mut s, round_tenths(self.ram_bytes, 1073741824) as u128);
            s.append(" GB");
        } else {
            push_tenths(&mut s, round_tenths(self.ram_bytes, 1048576) as u128);
            s.append(" MB");
        }
        assert(s@ =~= ram_text(self.ram_bytes));
        s
    }

    /// The band of the CPU figure.
    pub fn cpu_color(&self) -> (b: Band)
        ensures
            b == load_band(self.cpu_permille as nat),
    {
        if self.cpu_permille >= 800 {
            Band::Critical
        } else if self.cpu_permille >= 600 {
            Band::Warning
        } else {
            Band::Nominal
        }
    }

    /// The band of the memory share.
    pub fn ram_color(&self) -> (b: Band)
        ensures
            b == load_band(ratio_permille(self.ram_bytes, self.total_ram_bytes)),
    {
        let ratio = self.ram_ratio();
        if ratio >= 800 {
            Band::Critical
        } else if ratio >= 600 {
            Band::Warning
        } else {
            Band::Nominal
        }
    }
}

/// Counters of the proving worker.
pub struct ZkVMMetrics {
    pub tasks_fetched: usize,
    pub tasks_submitted: usize,
    pub zkvm_runtime_secs: u64,
    pub last_task_status: String,
    pub total_points: u64,
}

/// Placeholder for details of the task being fetched.
#[derive(Clone, Copy, Debug, Default, PartialEq, Eq, Structural)]
pub struct TaskFetchInfo {}

/// Submitted tasks per fetched task in tenths of a percent, rounded down
/// (`750` is 75.0 %); zero before any task was fetched.
pub open spec fn success_permille(submitted: usize, fetched: usize) -> u64 {
    if fetched == 0 {
        0
    } else {
        saturate((1000 * submitted as int) / (fetched as int))
    }
}

/// The band of a success rate in tenths of a percent: below 50 % is
/// critical, below 75 % a warning.
pub open spec fn success_band(permille: u64) -> Band {
    if permille >= 750 {
        Band::Nominal
    } else if permille >= 500 {
        Band::Warning
    } else {
        Band::Critical
    }
}

/// Three digits with leading zeros.
pub open spec fn three_digits(n: nat) -> Seq<char> {
    seq![
        crate::text::digit_char(((n / 100) % 10) as int),
        crate::text::digit_char(((n / 10) % 10) as int),
        crate::text::digit_char((n % 10) as int),
    ]
}

/// How many low bits `n` has beyond the 53 that an f64 significand holds
/// (`2^53` is `9007199254740992`).
pub open spec fn excess_bits(n: nat) -> nat
    decreases n,
{
    if n < 9007199254740992 {
        0
    } else {
        1 + excess_bits(n / 2)
    }
}

/// The value of `n as f64`: `n` rounded to 53 significant bits, a tie to even.
pub open spec fn f64_of_nat(n: nat) -> nat {
    round_half_even(n, pow2(excess_bits(n))) * pow2(excess_bits(n))
}

/// For `x >= d`, the exponent of the binade of `x / d`: the largest `e`
/// with `2^e <= x / d`.
pub open spec fn quotient_exponent(x: nat, d: nat) -> nat
    decreases x,
{
    if d == 0 || x < 2 * d {
        0
    } else {
        1 + quotient_exponent(x / 2, d)
    }
}

/// A point total in millions, counted in tenths, as `{:.1}` shows the f64
/// quotient `p as f64 / 1_000_000.0`. The quotient is `m / 2^(52 - e)`, with
/// `e` the exponent of its binade and the significand `m` rounded to
/// nearest, a tie to even; the exact value of that double is then rounded
/// to tenths, a tie to even.
pub open spec fn million_tenths(p: nat) -> nat {
    let x = f64_of_nat(p);
    let scale = pow2((52 - quotient_exponent(x, 1_000_000)) as nat);
    round_half_even(10 * round_half_even(x * scale, 1_000_000), scale)
}

/// A point total as shown: millions with one decimal and `M`, thousands
/// with a comma, smaller totals as they are.
pub open spec fn points_text(p: u64) -> Seq<char> {
    if p >= 1_000_000 {
        tenths_text(million_tenths(p as nat)) + seq!['M']
    } else if p >= 1000 {
        decimal((p / 1000) as nat) + seq![','] + three_digits((p % 1000) as nat)
    } else {
        decimal(p as nat)
    }
}

/// `p as f64`, as an integer.
fn f64_of_u64(p: u64) -> (x: u128)
    ensures
        x as nat == f64_of_nat(p as nat),
        x as nat <= 2 * (p as nat) + 1,
{
    proof {
        lemma2_to64();
    }
    let mut rest: u128 = p as u128;
    let mut scale: u128 = 1;
    let ghost mut s: nat = 0;
    while rest >= 9007199254740992
        invariant
            scale as nat == pow2(s),
            excess_bits(p as nat) == s + excess_bits(rest as nat),
            rest * scale <= p,
            1 <= scale <= p as nat + 1,
        decreases rest,
    {
        assert((rest / 2) * (2 * scale) <= rest * scale) by (nonlinear_arith);
        assert(2 * scale <= rest * scale) by (nonlinear_arith)
            requires
                rest >= 2,
        ;
        rest = rest / 2;
        scale = scale * 2;
        proof {
            lemma_pow2_unfold(s + 1);
            s = s + 1;
        }
    }
    assert(rest as nat == rest);
    let r = round_half_even_exec(p as u128, scale);
    assert(r * scale <= p + scale) by (nonlinear_arith)
        requires
            r <= p as nat / scale as nat + 1,
            scale >= 1,
    ;
    r * scale
}

/// `million_tenths(p)` for a point total of at least a million.
fn million_tenths_exec(p: u64) -> (t: u128)
    requires
        p >= 1_000_000,
    ensures
        t as nat == million_tenths(p as nat),
{
    proof {
        lemma2_to64();
        lemma2_to64_rest();
    }
    let x = f64_of_u64(p);
    let d: u128 = 1_000_000;
    let mut y: u128 = x;
    let mut pe: u128 = 1;
    let mut e: u32 = 0;
    while y >= 2 * d
        invariant
            quotient_exponent(x as nat, d as nat) == e + quotient_exponent(y as nat, d as nat),
            pe as nat == pow2(e as nat),
            y * pe <= x,
            e > 0 ==> y >= d,
            x < 40000000000000000000,
            d == 1_000_000,
            e <= 60,
        decreases y,
    {
        assert((y / 2) * (2 * pe) <= y * pe) by (nonlinear_arith);
        assert(2 * pe <= y * pe) by (nonlinear_arith)
            requires
                y >= 2,
        ;
        proof {
            lemma_pow2_unfold((e + 1) as nat);
            assert(d * (2 * pe) <= (y / 2) * (2 * pe)) by (nonlinear_arith)
                requires
                    y / 2 >= d,
            ;
            if e + 1 > 53 {
                lemma_pow2_strictly_increases(53, (e + 1) as nat);
            }
            if e + 1 >= 53 {
                lemma2_to64_rest();
                assert(2 * pe >= 9007199254740992);
                assert(d * (2 * pe) >= 1_000_000 * 9007199254740992);
                assert(false);
            }
        }
        y = y / 2;
        pe = pe * 2;
        e = e + 1;
    }
    if e > 52 {
        proof {
            if e > 53 {
                lemma_pow2_strictly_increases(53, e as nat);
            }
            assert(d * pe <= y * pe) by (nonlinear_arith)
                requires
                    y >= d,
            ;
        }
        assert(false);
    }
    assert(quotient_exponent(y as nat, d as nat) == 0);
    let k: u32 = 52 - e;
    let mut sc: u128 = 1;
    let mut i: u32 = 0;
    while i < k
        invariant
            sc as nat == pow2(i as nat),
            sc >= 1,
            i <= k,
            k <= 52,
            pow2(52) == 4503599627370496,
        decreases k - i,
    {
        proof {
            lemma_pow2_unfold((i + 1) as nat);
            if i + 1 < 52 {
                lemma_pow2_strictly_increases((i + 1) as nat, 52);
            }
        }
        sc = sc * 2;
        i = i + 1;
    }
    proof {
        if k < 52 {
            lemma_pow2_strictly_increases(k as nat, 52);
        }
    }
    assert(x * sc <= 40000000000000000000 * 4503599627370496) by (nonlinear_arith)
        requires
            x < 40000000000000000000,
            sc <= 4503599627370496,
    ;
    let m = round_half_even_exec(x * sc, d);
    assert(m <= 40000000000000000000 * 4503599627370496) by (nonlinear_arith)
        requires
            m <= (x * sc) as nat / d as nat + 1,
            x * sc <= 40000000000000000000 * 4503599627370496,
            d == 1_000_000,
    ;
    round_half_even_exec(10 * m, sc)
}

impl Default for ZkVMMetrics {
    fn default() -> (m: ZkVMMetrics)
        ensures
            m.tasks_fetched == 0,
            m.tasks_submitted == 0,
            m.zkvm_runtime_secs == 0,
            m.last_task_status@ == "None"@,
            m.total_points == 0,
    {
        ZkVMMetrics {
            tasks_fetched: 0,
            tasks_submitted: 0,
            zkvm_runtime_secs: 0,
            last_task_status: String::from_str("None"),
            total_points: 0,
        }
    }
}

impl ZkVMMetrics {
    /// Submitted tasks per fetched task, in tenths of a percent.
    pub fn success_rate(&self) -> (r: u64)
        ensures
            r == success_permille(self.tasks_submitted, self.tasks_fetched),
    {
        if self.tasks_fetched == 0 {
            0
        } else {
            let q: u128 = (1000 * (self.tasks_submitted as u128)) / (self.tasks_fetched as u128);
            if q > u64::MAX as u128 {
                u64::MAX
            } else {
                q as u64
            }
        }
    }

    /// The point total as text.
    pub fn _format_points(&self) -> (s: String)
        ensures
            s@ == points_text(self.total_points),
    {
        let p = self.total_points;
        let mut s = String::new();
        if p >= 1_000_000 {
            push_tenths(&mut s, million_tenths_exec(p));
            proof {
                reveal_strlit("M");
            }
            s.append("M");
        } else if p >= 1000 {
            push_decimal(&mut s, (p / 1000) as u128);
            proof {
                reveal_strlit(",");
            }
            s.append(",");
            let rest = p % 1000;
            push_decimal_digit(&mut s, rest / 100);
            push_decimal_digit(&mut s, (rest / 10) % 10);
            push_decimal_digit(&mut s, rest % 10);
        } else {
            push_decimal(&mut s, p as u128);
        }
        assert(s@ =~= points_text(p));
        s
    }

    /// The band of the success rate.
    pub fn success_rate_color(&self) -> (b: Band)
        ensures
            b == success_band(success_permille(self.tasks_submitted, self.tasks_fetched)),
    {
        let rate = self.success_rate();
        if rate >= 750 {
            Band::Nominal
        } else if rate >= 500 {
            Band::Warning
        } else {
            Band::Critical
        }
    }
}

fn push_decimal_digit(out: &mut String, d: u64)
    requires
        d < 10,
    ensures
        final(out)@ == old(out)@.push(crate::text::digit_char(d as int)),
{
    push_decimal(out, d as u128);
    assert(decimal(d as nat) =~= seq![crate::text::digit_char(d as int)]);
}

/// The snapshot after feeding `samples` in order, starting from `m`; each
/// step carries the previous peak forward.
pub open spec fn run_samples(m: SystemMetrics, samples: Seq<ProbeSample>, min_interval: u64) -> SystemMetrics
    decreases samples.len(),
{
    if samples.len() == 0 {
        m
    } else {
        let before = run_samples(m, samples.drop_last(), min_interval);
        next_metrics(samples.last(), min_interval, before.peak_ram_bytes, Some(before))
    }
}

/// CPU throttling: while every sample comes less than `min_interval` after
/// the last CPU read of `m`, and this process stays listed, the CPU figure
/// and the time of that read stay as they were.
pub proof fn lemma_cpu_throttled(m: SystemMetrics, samples: Seq<ProbeSample>, min_interval: u64)
    requires
        m.last_cpu_update is Some,
        forall|i: int|
            0 <= i < samples.len() ==> elapsed(m.last_cpu_update->0, #[trigger] samples[i].taken_at_ms)
                < min_interval,
        forall|i: int|
            0 <= i < samples.len() ==> own_process(#[trigger] samples[i].processes@, samples[i].current_pid)
                is Some,
    ensures
        run_samples(m, samples, min_interval).cpu_permille == m.cpu_permille,
        run_samples(m, samples, min_interval).last_cpu_update == m.last_cpu_update,
    decreases samples.len(),
{
    if samples.len() > 0 {
        let rest = samples.drop_last();
        assert forall|i: int| 0 <= i < rest.len() implies elapsed(m.last_cpu_update->0, #[trigger] rest[i].taken_at_ms)
            < min_interval by {
            assert(rest[i] == samples[i]);
        }
        assert forall|i: int| 0 <= i < rest.len() implies own_process(#[trigger] rest[i].processes@, rest[i].current_pid)
            is Some by {
            assert(rest[i] == samples[i]);
        }
        lemma_cpu_throttled(m, rest, min_interval);
        assert(samples.last() == samples[samples.len() - 1]);
    }
}

/// Once `min_interval` has passed since the last CPU read, a sample that
/// lists this process reads CPU usage afresh from it and its workers.
pub proof fn lemma_cpu_refreshed(s: ProbeSample, min_interval: u64, previous_peak: u64, previous: SystemMetrics)
    requires
        own_process(s.processes@, s.current_pid) is Some,
        previous.last_cpu_update is Some,
        elapsed(previous.last_cpu_update->0, s.taken_at_ms) >= min_interval,
    ensures
        next_metrics(s, min_interval, previous_peak, Some(previous)).last_cpu_update == Some(s.taken_at_ms),
        next_metrics(s, min_interval, previous_peak, Some(previous)).cpu_permille == saturate(
            own_process(s.processes@, s.current_pid)->0.cpu_permille + workers_cpu(
                s.processes@,
                s.current_pid,
            ),
        ),
{
}

/// Peak tracking: over any run of samples the peak never falls, and it is
/// the larger of the starting peak and every memory figure sampled so far.
pub proof fn lemma_peak_is_running_maximum(m: SystemMetrics, samples: Seq<ProbeSample>, min_interval: u64)
    ensures
        forall|i: int, j: int|
            0 <= i <= j <= samples.len() ==> #[trigger] run_samples(m, samples.take(i), min_interval).peak_ram_bytes
                <= #[trigger] run_samples(m, samples.take(j), min_interval).peak_ram_bytes,
        run_samples(m, samples, min_interval).peak_ram_bytes >= m.peak_ram_bytes,
        forall|i: int|
            0 <= i < samples.len() ==> #[trigger] run_samples(m, samples.take(i + 1), min_interval).ram_bytes
                <= run_samples(m, samples, min_interval).peak_ram_bytes,
        run_samples(m, samples, min_interval).peak_ram_bytes == m.peak_ram_bytes || exists|i: int|
            0 <= i < samples.len() && #[trigger] run_samples(m, samples.take(i + 1), min_interval).ram_bytes
                == run_samples(m, samples, min_interval).peak_ram_bytes,
    decreases samples.len(),
{
    if samples.len() > 0 {
        let n = samples.len() as int;
        let rest = samples.drop_last();
        lemma_peak_is_running_maximum(m, rest, min_interval);
        assert(samples.take(n) =~= samples);
        assert forall|i: int| 0 <= i <= n - 1 implies #[trigger] samples.take(i) == rest.take(i) by {
            assert(samples.take(i) =~= rest.take(i));
        }
        assert forall|i: int| 0 <= i < n - 1 implies #[trigger] samples.take(i + 1) == rest.take(i + 1) by {
            assert(samples.take(i + 1) =~= rest.take(i + 1));
        }
        let before = run_samples(m, rest, min_interval);
        let after = run_samples(m, samples, min_interval);
        assert(after.peak_ram_bytes >= before.peak_ram_bytes);
        assert(rest =~= samples.take(n).drop_last());
        assert forall|i: int, j: int|
            0 <= i <= j <= samples.len() implies #[trigger] run_samples(m, samples.take(i), min_interval).peak_ram_bytes
                <= #[trigger] run_samples(m, samples.take(j), min_interval).peak_ram_bytes by {
            if j == n {
                assert(rest.take(n - 1) =~= rest);
                if i < n {
                    assert(run_samples(m, rest.take(i), min_interval).peak_ram_bytes
                        <= run_samples(m, rest.take(n - 1), min_interval).peak_ram_bytes);
                }
            }
        }
        assert forall|i: int|
            0 <= i < samples.len() implies #[trigger] run_samples(m, samples.take(i + 1), min_interval).ram_bytes
                <= after.peak_ram_bytes by {
            if i == n - 1 {
            } else {
                assert(run_samples(m, rest.take(i + 1), min_interval).ram_bytes <= before.peak_ram_bytes);
            }
        }
        if after.peak_ram_bytes != before.peak_ram_bytes {
            let last = n - 1;
            assert(samples.take(last + 1) == samples.take(n));
            assert(run_samples(m, samples.take(last + 1), min_interval).ram_bytes == after.peak_ram_bytes);
        } else if before.peak_ram_bytes != m.peak_ram_bytes {
            let i = choose|i: int|
                0 <= i < rest.len() && #[trigger] run_samples(m, rest.take(i + 1), min_interval).ram_bytes
                    == before.peak_ram_bytes;
            assert(run_samples(m, samples.take(i + 1), min_interval).ram_bytes == after.peak_ram_bytes);
        }
    }
}

} // verus!
