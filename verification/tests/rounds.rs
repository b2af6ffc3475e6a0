use zmq_arena::config::{Kind, MatrixEntry, Replication, TargetSpec, Transport};
use zmq_arena::record::{CellRecord, TargetMeta};
use zmq_arena::replication::{cpu_median, estimate, survivors, Campaign};
use zmq_arena::sorted_map::SortedMap;
use zmq_arena::stats::{hampel_partition, spread_within, Frac, Ratio};
use zmq_arena::telemetry::{LatencySnapshot, SchedCounters, SyscallCounters};

fn policy(min: usize, max: usize, warmup: usize) -> Replication {
    Replication {
        min_replicates: min,
        max_replicates: max,
        warmup_replicates: warmup,
        ..Replication::default()
    }
}

#[test]
fn the_default_policy() {
    let p = Replication::default();
    assert_eq!((p.min_replicates, p.max_replicates, p.warmup_replicates), (5, 11, 1));
    assert_eq!(p.target_rel_iqr, Frac { num: 1, den: 20 });
    assert_eq!(p.mad_k, Frac { num: 3, den: 1 });
    assert_eq!(p.max_outlier_frac, Frac { num: 1, den: 4 });
}

#[test]
fn a_tight_cell_stops_early() {
    let p = policy(3, 11, 0);
    assert!(p.wants_more(0, &[]));
    assert!(p.wants_more(2, &[100, 100]));
    assert!(!p.wants_more(3, &[100, 101, 100]));
    assert!(p.wants_more(3, &[100, 150, 60]));
    assert!(p.wants_more(10, &[100, 150, 60]));
    assert!(!p.wants_more(11, &[100, 150, 60]));
    assert!(!p.wants_more(11, &[]));
}

#[test]
fn a_fixed_count_overrides_the_policy() {
    let p = policy(5, 11, 2).fixed(2);
    assert_eq!((p.min_replicates, p.max_replicates, p.warmup_replicates), (2, 2, 2));
    assert!(p.wants_more(1, &[100]));
    assert!(!p.wants_more(2, &[100, 900]));
}

#[test]
fn the_spread_is_that_of_the_kept_samples() {
    let k = Frac { num: 3, den: 1 };
    let xs = [100, 101, 99, 100, 5000];
    assert!(spread_within(&xs, k, Frac { num: 1, den: 20 }));
    assert!(!spread_within(&xs, k, Frac { num: 0, den: 1 }));
    assert!(spread_within(&[], k, Frac { num: 0, den: 1 }));
}

#[test]
fn rounds_are_interleaved() {
    let mut c = Campaign::new(policy(2, 4, 1), 3);
    assert_eq!(c.next_round(), vec![0, 1, 2]);
    for i in [0, 1, 2] {
        c.note(i, Some(7));
    }
    assert!(c.cells.iter().all(|p| p.attempts == 0 && p.samples.is_empty()));
    c.end_round();
    assert_eq!(c.next_round(), vec![0, 1, 2]);
    for _ in 0..2 {
        c.note(0, Some(100));
        c.note(2, None);
        c.end_round();
    }
    c.note(1, Some(100));
    c.note(1, Some(200));
    // The first has converged, the second is loose, the third has no sample.
    assert_eq!(c.next_round(), vec![1, 2]);
    for i in [1, 2, 1, 2] {
        c.note(i, Some(900));
    }
    assert_eq!(c.cells[1].samples, vec![100, 200, 900, 900]);
    assert_eq!(c.cells[2].samples, vec![900, 900]);
    assert_eq!(c.cells[2].attempts, 4);
    assert!(c.next_round().is_empty());
}

#[test]
fn a_grid_without_cells_is_done() {
    let mut c = Campaign::new(policy(5, 11, 3), 0);
    assert!(c.next_round().is_empty());
    for left in [2, 1, 0, 0] {
        c.end_round();
        assert_eq!(c.warmups_left, left);
    }
}

#[test]
fn whole_replicates_survive() {
    let k = Frac { num: 3, den: 1 };
    let xs = [100, 5000, 101, 99, 100];
    let at = survivors(&xs, k);
    assert_eq!(at, vec![0, 2, 3, 4]);
    let kept: Vec<i64> = at.iter().map(|&i| xs[i]).collect();
    assert_eq!(kept, hampel_partition(&xs, k).0);
    assert_eq!(survivors(&[1, 900], k), vec![0, 1]);
    assert!(survivors(&[], k).is_empty());
}

fn replicate(n: u64) -> CellRecord {
    CellRecord {
        run_id: String::new(),
        cell_id: String::new(),
        entry: MatrixEntry {
            target: TargetSpec {
                id: String::new(),
                binary: String::new(),
                variant: None,
                knobs: SortedMap::new(),
            },
            transport: Transport::Ipc,
            kind: Kind::Latency,
            peers: None,
            duration_secs: None,
            payload_bytes: 1,
            messages: 1,
            warmup_messages: 0,
        },
        meta: TargetMeta::of_engine(""),
        latency: LatencySnapshot { p50_ns: n, max_ns: 10 * n, ..LatencySnapshot::default() },
        throughput: None,
        cpu_micros: 5 * n as i128,
        syscalls: SyscallCounters { sendmsg: 2 * n, ..SyscallCounters::default() },
        sched: SchedCounters { voluntary_ctxt_switches: n + 1, involuntary_ctxt_switches: 0 },
        peak_memory_bytes: u64::MAX - n,
    }
}

#[test]
fn counters_are_the_medians_of_the_survivors() {
    let samples = [100, 103, 9000, 101];
    let records: Vec<CellRecord> = samples.iter().map(|&n| replicate(n as u64)).collect();
    let kept = survivors(&samples, Frac { num: 3, den: 1 });
    assert_eq!(kept, vec![0, 1, 3]);
    let c = estimate(&records, &kept);
    assert_eq!((c.latency.p50_ns, c.latency.max_ns, c.latency.count), (101, 1010, 0));
    assert_eq!(c.syscalls.sendmsg, 202);
    assert_eq!(c.sched.voluntary_ctxt_switches, 102);
    assert_eq!(c.peak_memory_bytes, u64::MAX - 101);
    assert_eq!(cpu_median(&records, &kept), Ratio { num: 2 * 505, den: 2 });
    assert_eq!(cpu_median(&records, &vec![0, 1]), Ratio { num: 500 + 515, den: 2 });
    assert_eq!(cpu_median(&records, &vec![]), Ratio { num: 0, den: 2 });
    assert_eq!(estimate(&records, &vec![0, 1]).latency.p50_ns, 101);
    assert_eq!(estimate(&records, &vec![]).latency.p50_ns, 0);
}
