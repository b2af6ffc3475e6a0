//! Repeated measurement of the cells of a grid.
//!
//! A single measurement on a shared host is one noisy draw. The grid is
//! measured in rounds, each of which visits every cell that still needs it, so
//! that a slow drift of the host falls on all cells alike. The first rounds warm
//! the machine and are discarded. From then on a cell is measured until its
//! spread is tight or the ceiling is reached; see `stats` for the estimate that
//! is made of its samples.
use vstd::prelude::*;
use crate::config::Replication;
use crate::record::CellRecord;
use crate::stats::{hampel_mask, middle, spread_within, wide_median, Frac, Ratio};
use crate::telemetry::{LatencySnapshot, SchedCounters, SyscallCounters};

verus! {

/// Whether the relative spread of the samples that the outlier filter keeps is
/// at or below the target.
pub open spec fn converged(p: Replication, xs: Seq<i64>) -> bool {
    crate::stats::tight(xs, p.mad_k, p.target_rel_iqr)
}

/// Whether a cell is measured once more after so many attempts: the ceiling is
/// not reached, and there are too few samples or they are not tight.
pub open spec fn wants_more(p: Replication, attempts: nat, xs: Seq<i64>) -> bool {
    attempts < p.max_replicates && (xs.len() < p.min_replicates || !converged(p, xs))
}

impl Replication {
    /// The policy that measures each cell `n` times, whatever its spread.
    pub fn fixed(self, n: usize) -> (r: Replication)
        ensures
            r == (Replication { min_replicates: n, max_replicates: n, ..self }),
    {
        Replication { min_replicates: n, max_replicates: n, ..self }
    }

    /// Whether a cell with these samples is measured once more after so many
    /// attempts. An attempt that failed has no sample.
    pub fn wants_more(&self, attempts: usize, samples: &[i64]) -> (r: bool)
        requires
            self.wf(),
        ensures
            r == wants_more(*self, attempts as nat, samples@),
    {
        if attempts >= self.max_replicates {
            return false;
        }
        if samples.len() < self.min_replicates {
            return true;
        }
        !spread_within(samples, self.mad_k, self.target_rel_iqr)
    }
}

/// What was measured of one cell so far.
pub struct Progress {
    /// Measured attempts, the failed ones too.
    pub attempts: usize,
    /// The primary metric of the attempts that succeeded, in their order.
    pub samples: Vec<i64>,
}

/// A grid that is being measured.
pub struct Campaign {
    pub policy: Replication,
    /// Rounds that are still to be discarded.
    pub warmups_left: usize,
    pub cells: Vec<Progress>,
}

/// Whether a cell is visited by the next round.
pub open spec fn is_due(p: Replication, warmups_left: nat, c: Progress) -> bool {
    warmups_left > 0 || wants_more(p, c.attempts as nat, c.samples@)
}

/// The cells among the first `n` that the next round visits, in their order.
pub open spec fn due_among(c: Campaign, n: nat) -> Seq<usize>
    decreases n,
{
    if n == 0 {
        Seq::empty()
    } else {
        let rest = due_among(c, (n - 1) as nat);
        if is_due(c.policy, c.warmups_left as nat, c.cells@[n - 1]) {
            rest.push((n - 1) as usize)
        } else {
            rest
        }
    }
}

/// How many measured attempts the first `n` cells may still take.
pub open spec fn attempts_left(c: Campaign, n: nat) -> int
    decreases n,
{
    if n == 0 {
        0
    } else {
        attempts_left(c, (n - 1) as nat) + c.policy.max_replicates - c.cells@[n - 1].attempts
    }
}

proof fn lemma_attempts_left_step(a: Campaign, b: Campaign, i: int, n: nat)
    requires
        n <= a.cells@.len() == b.cells@.len(),
        a.policy == b.policy,
        0 <= i < a.cells@.len(),
        b.cells@[i].attempts == a.cells@[i].attempts + 1,
        forall|j: int| 0 <= j < a.cells@.len() && j != i ==> b.cells@[j] == a.cells@[j],
    ensures
        attempts_left(b, n) == attempts_left(a, n) - (if i < n {
            1int
        } else {
            0
        }),
    decreases n,
{
    if n > 0 {
        lemma_attempts_left_step(a, b, i, (n - 1) as nat);
    }
}

impl Campaign {
    /// No cell has more attempts than the policy allows, nor more samples than
    /// attempts.
    pub open spec fn wf(self) -> bool {
        &&& self.policy.wf()
        &&& forall|i: int|
            0 <= i < self.cells@.len() ==> {
                &&& (#[trigger] self.cells@[i]).samples@.len() <= self.cells@[i].attempts
                &&& self.cells@[i].attempts <= self.policy.max_replicates
            }
    }

    /// A grid of `n` cells of which nothing is measured yet.
    pub fn new(policy: Replication, n: usize) -> (r: Campaign)
        requires
            policy.wf(),
        ensures
            r.wf(),
            r.policy == policy,
            r.warmups_left == policy.warmup_replicates,
            r.cells@.len() == n,
            forall|i: int|
                0 <= i < n ==> (#[trigger] r.cells@[i]).attempts == 0 && r.cells@[i].samples@.len()
                    == 0,
    {
        let mut cells: Vec<Progress> = Vec::new();
        let mut i: usize = 0;
        while i < n
            invariant
                i <= n,
                cells@.len() == i,
                forall|j: int|
                    0 <= j < i ==> (#[trigger] cells@[j]).attempts == 0 && cells@[j].samples@.len()
                        == 0,
            decreases n - i,
        {
            cells.push(Progress { attempts: 0, samples: Vec::new() });
            i += 1;
        }
        Campaign { policy, warmups_left: policy.warmup_replicates, cells }
    }

    /// The cells that the next round visits, in their order. The grid is done
    /// when there is none.
    pub fn next_round(&self) -> (r: Vec<usize>)
        requires
            self.wf(),
        ensures
            r@ == due_among(*self, self.cells@.len()),
    {
        let mut out: Vec<usize> = Vec::new();
        let mut i: usize = 0;
        while i < self.cells.len()
            invariant
                i <= self.cells@.len(),
                self.wf(),
                out@ == due_among(*self, i as nat),
            decreases self.cells@.len() - i,
        {
            let c = &self.cells[i];
            if self.warmups_left > 0 || self.policy.wants_more(c.attempts, c.samples.as_slice()) {
                out.push(i);
            }
            i += 1;
        }
        out
    }

    /// Note what an attempt at a cell of the round gave: its sample, or none
    /// where it failed. A round that only warms the machine leaves nothing.
    pub fn note(&mut self, i: usize, sample: Option<i64>)
        requires
            old(self).wf(),
            i < old(self).cells@.len(),
            is_due(old(self).policy, old(self).warmups_left as nat, old(self).cells@[i as int]),
        ensures
            final(self).wf(),
            final(self).policy == old(self).policy,
            final(self).warmups_left == old(self).warmups_left,
            final(self).cells@.len() == old(self).cells@.len(),
            forall|j: int|
                0 <= j < final(self).cells@.len() && j != i ==> final(self).cells@[j] == old(
                    self,
                ).cells@[j],
            old(self).warmups_left > 0 ==> final(self).cells@[i as int] == old(
                self,
            ).cells@[i as int],
            old(self).warmups_left == 0 ==> {
                &&& final(self).cells@[i as int].attempts == old(self).cells@[i as int].attempts
                    + 1
                &&& final(self).cells@[i as int].samples@ == (match sample {
                    Some(x) => old(self).cells@[i as int].samples@.push(x),
                    None => old(self).cells@[i as int].samples@,
                })
                &&& attempts_left(*final(self), final(self).cells@.len()) == attempts_left(
                    *old(self),
                    old(self).cells@.len(),
                ) - 1
            },
    {
        if self.warmups_left > 0 {
            return;
        }
        let ghost before = *self;
        let mut c = self.cells.remove(i);
        c.attempts = c.attempts + 1;
        if let Some(x) = sample {
            c.samples.push(x);
        }
        self.cells.insert(i, c);
        proof {
            assert(self.cells@ =~= before.cells@.update(i as int, c));
            lemma_attempts_left_step(before, *self, i as int, before.cells@.len());
        }
    }

    /// A round is over: there is one round less to discard, if there was one.
    pub fn end_round(&mut self)
        requires
            old(self).wf(),
        ensures
            final(self).wf(),
            final(self).policy == old(self).policy,
            final(self).cells@ == old(self).cells@,
            final(self).warmups_left == (if old(self).warmups_left > 0 {
                old(self).warmups_left - 1
            } else {
                0
            }),
    {
        if self.warmups_left > 0 {
            self.warmups_left = self.warmups_left - 1;
        }
    }
}

/// The positions whose flag is set, in ascending order.
pub open spec fn set_positions(mask: Seq<bool>) -> Seq<usize>
    decreases mask.len(),
{
    if mask.len() == 0 {
        Seq::empty()
    } else {
        let rest = set_positions(mask.drop_last());
        if mask.last() {
            rest.push((mask.len() - 1) as usize)
        } else {
            rest
        }
    }
}

/// The replicates that the outlier filter keeps. What is reported of a cell is
/// taken from these records alone, so that an outlier in the primary metric
/// drops the telemetry of its replicate too.
pub fn survivors(samples: &[i64], k: Frac) -> (r: Vec<usize>)
    requires
        k.wf(),
    ensures
        r@ == set_positions(crate::stats::mask_of(samples@, k)),
        forall|i: int| 0 <= i < r@.len() ==> #[trigger] r@[i] < samples@.len(),
{
    let mask = hampel_mask(samples, k);
    let mut out: Vec<usize> = Vec::new();
    let mut i: usize = 0;
    assert(mask@.take(0) =~= Seq::<bool>::empty());
    while i < mask.len()
        invariant
            i <= mask@.len(),
            out@ == set_positions(mask@.take(i as int)),
        decreases mask@.len() - i,
    {
        assert(mask@.take(i + 1).drop_last() =~= mask@.take(i as int));
        assert(mask@.take(i + 1).last() == mask@[i as int]);
        if mask[i] {
            out.push(i);
        }
        i += 1;
    }
    assert(mask@.take(mask@.len() as int) =~= mask@);
    proof {
        lemma_selected_at(samples@, mask@);
    }
    out
}

proof fn lemma_selected_at(xs: Seq<i64>, mask: Seq<bool>)
    requires
        xs.len() == mask.len(),
        xs.len() <= usize::MAX,
    ensures
        set_positions(mask).len() == crate::stats::select(xs, mask, true).len(),
        forall|i: int|
            0 <= i < set_positions(mask).len() ==> {
                &&& (#[trigger] set_positions(mask)[i]) < xs.len()
                &&& crate::stats::select(xs, mask, true)[i] == xs[set_positions(mask)[i] as int]
            },
    decreases xs.len(),
{
    if xs.len() > 0 {
        lemma_selected_at(xs.drop_last(), mask.drop_last());
    }
}

/// The surviving replicates are those whose samples make the estimate: the
/// samples at the positions are, in their order, the samples that the filter
/// keeps.
pub proof fn law_survivors_make_the_estimate(xs: Seq<i64>, k: Frac)
    requires
        k.wf(),
        xs.len() <= usize::MAX,
    ensures
        crate::stats::kept_of(xs, k) =~= set_positions(crate::stats::mask_of(xs, k)).map(
            |i: int, at: usize| xs[at as int],
        ),
{
    lemma_selected_at(xs, crate::stats::mask_of(xs, k));
}

/// The counters of a record: everything in it that is a count.
#[derive(Clone, Copy, Debug, PartialEq, Eq, Structural)]
pub struct Counters {
    pub latency: LatencySnapshot,
    pub syscalls: SyscallCounters,
    pub sched: SchedCounters,
    pub peak_memory_bytes: u64,
}

/// One of these counters.
#[derive(Clone, Copy, Debug, PartialEq, Eq, Structural)]
pub enum Counter {
    LatencyCount,
    LatencyMin,
    LatencyMax,
    LatencyP50,
    LatencyP90,
    LatencyP99,
    LatencyP999,
    EpollCtl,
    EpollWait,
    SendMsg,
    RecvMsg,
    IoUringEnter,
    Voluntary,
    Involuntary,
    PeakMemory,
}

/// The value of a counter.
pub open spec fn value_at(c: Counters, f: Counter) -> u64 {
    match f {
        Counter::LatencyCount => c.latency.count,
        Counter::LatencyMin => c.latency.min_ns,
        Counter::LatencyMax => c.latency.max_ns,
        Counter::LatencyP50 => c.latency.p50_ns,
        Counter::LatencyP90 => c.latency.p90_ns,
        Counter::LatencyP99 => c.latency.p99_ns,
        Counter::LatencyP999 => c.latency.p999_ns,
        Counter::EpollCtl => c.syscalls.epoll_ctl,
        Counter::EpollWait => c.syscalls.epoll_wait,
        Counter::SendMsg => c.syscalls.sendmsg,
        Counter::RecvMsg => c.syscalls.recvmsg,
        Counter::IoUringEnter => c.syscalls.io_uring_enter,
        Counter::Voluntary => c.sched.voluntary_ctxt_switches,
        Counter::Involuntary => c.sched.involuntary_ctxt_switches,
        Counter::PeakMemory => c.peak_memory_bytes,
    }
}

/// The counters of a record.
pub open spec fn counters_of(r: CellRecord) -> Counters {
    Counters {
        latency: r.latency,
        syscalls: r.syscalls,
        sched: r.sched,
        peak_memory_bytes: r.peak_memory_bytes,
    }
}

/// The values of a counter over the surviving replicates.
pub open spec fn column_of(records: Seq<CellRecord>, kept: Seq<usize>, f: Counter) -> Seq<u64> {
    kept.map_values(|i: usize| value_at(counters_of(records[i as int]), f))
}

fn value(r: &CellRecord, f: Counter) -> (v: u64)
    ensures
        v == value_at(counters_of(*r), f),
{
    match f {
        Counter::LatencyCount => r.latency.count,
        Counter::LatencyMin => r.latency.min_ns,
        Counter::LatencyMax => r.latency.max_ns,
        Counter::LatencyP50 => r.latency.p50_ns,
        Counter::LatencyP90 => r.latency.p90_ns,
        Counter::LatencyP99 => r.latency.p99_ns,
        Counter::LatencyP999 => r.latency.p999_ns,
        Counter::EpollCtl => r.syscalls.epoll_ctl,
        Counter::EpollWait => r.syscalls.epoll_wait,
        Counter::SendMsg => r.syscalls.sendmsg,
        Counter::RecvMsg => r.syscalls.recvmsg,
        Counter::IoUringEnter => r.syscalls.io_uring_enter,
        Counter::Voluntary => r.sched.voluntary_ctxt_switches,
        Counter::Involuntary => r.sched.involuntary_ctxt_switches,
        Counter::PeakMemory => r.peak_memory_bytes,
    }
}

fn column_middle(records: &Vec<CellRecord>, kept: &Vec<usize>, f: Counter) -> (r: u64)
    requires
        forall|i: int| 0 <= i < kept@.len() ==> #[trigger] kept@[i] < records@.len(),
    ensures
        r == crate::stats::middle_of(column_of(records@, kept@, f)),
{
    let mut column: Vec<u64> = Vec::new();
    let mut i: usize = 0;
    while i < kept.len()
        invariant
            i <= kept@.len(),
            forall|k: int| 0 <= k < kept@.len() ==> #[trigger] kept@[k] < records@.len(),
            column@ == column_of(records@, kept@, f).take(i as int),
        decreases kept@.len() - i,
    {
        column.push(value(&records[kept[i]], f));
        i += 1;
        assert(column@ =~= column_of(records@, kept@, f).take(i as int));
    }
    assert(column@ =~= column_of(records@, kept@, f));
    middle(column.as_slice())
}

/// What is reported of a cell's counters: of each one the whole part of its
/// median over the surviving replicates.
pub fn estimate(records: &Vec<CellRecord>, kept: &Vec<usize>) -> (r: Counters)
    requires
        forall|i: int| 0 <= i < kept@.len() ==> #[trigger] kept@[i] < records@.len(),
    ensures
        forall|f: Counter| #[trigger]
            value_at(r, f) == crate::stats::middle_of(column_of(records@, kept@, f)),
        r.latency.count == crate::stats::middle_of(
            kept@.map_values(|i: usize| records@[i as int].latency.count),
        ),
        r.latency.min_ns == crate::stats::middle_of(
            kept@.map_values(|i: usize| records@[i as int].latency.min_ns),
        ),
        r.latency.max_ns == crate::stats::middle_of(
            kept@.map_values(|i: usize| records@[i as int].latency.max_ns),
        ),
        r.latency.p50_ns == crate::stats::middle_of(
            kept@.map_values(|i: usize| records@[i as int].latency.p50_ns),
        ),
        r.latency.p90_ns == crate::stats::middle_of(
            kept@.map_values(|i: usize| records@[i as int].latency.p90_ns),
        ),
        r.latency.p99_ns == crate::stats::middle_of(
            kept@.map_values(|i: usize| records@[i as int].latency.p99_ns),
        ),
        r.latency.p999_ns == crate::stats::middle_of(
            kept@.map_values(|i: usize| records@[i as int].latency.p999_ns),
        ),
        r.syscalls.epoll_ctl == crate::stats::middle_of(
            kept@.map_values(|i: usize| records@[i as int].syscalls.epoll_ctl),
        ),
        r.syscalls.epoll_wait == crate::stats::middle_of(
            kept@.map_values(|i: usize| records@[i as int].syscalls.epoll_wait),
        ),
        r.syscalls.sendmsg == crate::stats::middle_of(
            kept@.map_values(|i: usize| records@[i as int].syscalls.sendmsg),
        ),
        r.syscalls.recvmsg == crate::stats::middle_of(
            kept@.map_values(|i: usize| records@[i as int].syscalls.recvmsg),
        ),
        r.syscalls.io_uring_enter == crate::stats::middle_of(
            kept@.map_values(|i: usize| records@[i as int].syscalls.io_uring_enter),
        ),
        r.sched.voluntary_ctxt_switches == crate::stats::middle_of(
            kept@.map_values(|i: usize| records@[i as int].sched.voluntary_ctxt_switches),
        ),
        r.sched.involuntary_ctxt_switches == crate::stats::middle_of(
            kept@.map_values(|i: usize| records@[i as int].sched.involuntary_ctxt_switches),
        ),
        r.peak_memory_bytes == crate::stats::middle_of(
            kept@.map_values(|i: usize| records@[i as int].peak_memory_bytes),
        ),
{
    proof {
        assert(column_of(records@, kept@, Counter::LatencyCount) =~= kept@.map_values(
            |i: usize| records@[i as int].latency.count,
        ));
        assert(column_of(records@, kept@, Counter::LatencyMin) =~= kept@.map_values(
            |i: usize| records@[i as int].latency.min_ns,
        ));
        assert(column_of(records@, kept@, Counter::LatencyMax) =~= kept@.map_values(
            |i: usize| records@[i as int].latency.max_ns,
        ));
        assert(column_of(records@, kept@, Counter::LatencyP50) =~= kept@.map_values(
            |i: usize| records@[i as int].latency.p50_ns,
        ));
        assert(column_of(records@, kept@, Counter::LatencyP90) =~= kept@.map_values(
            |i: usize| records@[i as int].latency.p90_ns,
        ));
        assert(column_of(records@, kept@, Counter::LatencyP99) =~= kept@.map_values(
            |i: usize| records@[i as int].latency.p99_ns,
        ));
        assert(column_of(records@, kept@, Counter::LatencyP999) =~= kept@.map_values(
            |i: usize| records@[i as int].latency.p999_ns,
        ));
        assert(column_of(records@, kept@, Counter::EpollCtl) =~= kept@.map_values(
            |i: usize| records@[i as int].syscalls.epoll_ctl,
        ));
        assert(column_of(records@, kept@, Counter::EpollWait) =~= kept@.map_values(
            |i: usize| records@[i as int].syscalls.epoll_wait,
        ));
        assert(column_of(records@, kept@, Counter::SendMsg) =~= kept@.map_values(
            |i: usize| records@[i as int].syscalls.sendmsg,
        ));
        assert(column_of(records@, kept@, Counter::RecvMsg) =~= kept@.map_values(
            |i: usize| records@[i as int].syscalls.recvmsg,
        ));
        assert(column_of(records@, kept@, Counter::IoUringEnter) =~= kept@.map_values(
            |i: usize| records@[i as int].syscalls.io_uring_enter,
        ));
        assert(column_of(records@, kept@, Counter::Voluntary) =~= kept@.map_values(
            |i: usize| records@[i as int].sched.voluntary_ctxt_switches,
        ));
        assert(column_of(records@, kept@, Counter::Involuntary) =~= kept@.map_values(
            |i: usize| records@[i as int].sched.involuntary_ctxt_switches,
        ));
        assert(column_of(records@, kept@, Counter::PeakMemory) =~= kept@.map_values(
            |i: usize| records@[i as int].peak_memory_bytes,
        ));
    }
    Counters {
        latency: LatencySnapshot {
            count: column_middle(records, kept, Counter::LatencyCount),
            min_ns: column_middle(records, kept, Counter::LatencyMin),
            max_ns: column_middle(records, kept, Counter::LatencyMax),
            p50_ns: column_middle(records, kept, Counter::LatencyP50),
            p90_ns: column_middle(records, kept, Counter::LatencyP90),
            p99_ns: column_middle(records, kept, Counter::LatencyP99),
            p999_ns: column_middle(records, kept, Counter::LatencyP999),
        },
        syscalls: SyscallCounters {
            epoll_ctl: column_middle(records, kept, Counter::EpollCtl),
            epoll_wait: column_middle(records, kept, Counter::EpollWait),
            sendmsg: column_middle(records, kept, Counter::SendMsg),
            recvmsg: column_middle(records, kept, Counter::RecvMsg),
            io_uring_enter: column_middle(records, kept, Counter::IoUringEnter),
        },
        sched: SchedCounters {
            voluntary_ctxt_switches: column_middle(records, kept, Counter::Voluntary),
            involuntary_ctxt_switches: column_middle(records, kept, Counter::Involuntary),
        },
        peak_memory_bytes: column_middle(records, kept, Counter::PeakMemory),
    }
}

/// The CPU times of the surviving replicates, in microseconds.
pub open spec fn cpu_column_of(records: Seq<CellRecord>, kept: Seq<usize>) -> Seq<int> {
    kept.map_values(|i: usize| records[i as int].cpu_micros as int)
}

/// What is reported of a cell's CPU time: its median over the surviving
/// replicates, in microseconds.
pub fn cpu_median(records: &Vec<CellRecord>, kept: &Vec<usize>) -> (r: Ratio)
    requires
        forall|i: int| 0 <= i < kept@.len() ==> #[trigger] kept@[i] < records@.len(),
        forall|i: int| 0 <= i < records@.len() ==> (#[trigger] records@[i]).wf(),
    ensures
        r.den == 2,
        r.num == crate::stats::median2(cpu_column_of(records@, kept@)),
        r.num == crate::stats::median2(
            kept@.map_values(|i: usize| records@[i as int].cpu_micros as int),
        ),
{
    let mut column: Vec<i128> = Vec::new();
    let mut i: usize = 0;
    while i < kept.len()
        invariant
            i <= kept@.len(),
            forall|k: int| 0 <= k < kept@.len() ==> #[trigger] kept@[k] < records@.len(),
            forall|k: int| 0 <= k < records@.len() ==> (#[trigger] records@[k]).wf(),
            column@.len() == i,
            forall|k: int|
                0 <= k < i ==> column@[k] == records@[kept@[k] as int].cpu_micros && 0
                    <= #[trigger] column@[k] <= 0x200_0000_0000_0000_0000_0000_0000,
        decreases kept@.len() - i,
    {
        assert(records@[kept@[i as int] as int].wf());
        column.push(records[kept[i]].cpu_micros);
        i += 1;
    }
    assert(crate::sort::ints(column@) =~= cpu_column_of(records@, kept@));
    assert(crate::sort::ints(column@) =~= kept@.map_values(
        |i: usize| records@[i as int].cpu_micros as int,
    ));
    wide_median(&column)
}

proof fn lemma_due(c: Campaign, n: nat, i: int)
    requires
        c.wf(),
        n <= c.cells@.len(),
        0 <= i < n,
        c.cells@.len() <= usize::MAX,
    ensures
        due_among(c, n).contains(i as usize) == is_due(
            c.policy,
            c.warmups_left as nat,
            c.cells@[i],
        ),
        forall|j: int| 0 <= j < due_among(c, n).len() ==> #[trigger] due_among(c, n)[j] < n,
    decreases n,
{
    let rest = due_among(c, (n - 1) as nat);
    let all = due_among(c, n);
    lemma_due_below(c, n);
    lemma_due_below(c, (n - 1) as nat);
    if i < n - 1 {
        lemma_due(c, (n - 1) as nat, i);
        if rest.contains(i as usize) {
            let j = choose|j: int| 0 <= j < rest.len() && rest[j] == i as usize;
            assert(all[j] == i as usize);
        }
        if all.contains(i as usize) {
            let j = choose|j: int| 0 <= j < all.len() && all[j] == i as usize;
            assert(j < rest.len());
            assert(rest[j] == i as usize);
        }
    } else {
        if is_due(c.policy, c.warmups_left as nat, c.cells@[i]) {
            assert(all[all.len() - 1] == i as usize);
        } else if all.contains(i as usize) {
            let j = choose|j: int| 0 <= j < all.len() && all[j] == i as usize;
            assert(rest[j] < n - 1);
        }
    }
}

proof fn lemma_due_below(c: Campaign, n: nat)
    requires
        n <= c.cells@.len() <= usize::MAX,
    ensures
        forall|j: int| 0 <= j < due_among(c, n).len() ==> #[trigger] due_among(c, n)[j] < n,
    decreases n,
{
    if n > 0 {
        let rest = due_among(c, (n - 1) as nat);
        lemma_due_below(c, (n - 1) as nat);
        assert forall|j: int| 0 <= j < due_among(c, n).len() implies #[trigger] due_among(c, n)[j]
            < n by {
            if j < rest.len() {
                assert(rest[j] < n - 1);
            }
        }
    }
}

/// A cell that a measured round leaves out is done: it has used up its attempts,
/// or it has enough samples and their spread is at or below the target. One that
/// the round visits is not.
pub proof fn law_round_leaves_out_what_is_done(c: Campaign, i: int)
    requires
        c.wf(),
        c.cells@.len() <= usize::MAX,
        c.warmups_left == 0,
        0 <= i < c.cells@.len(),
    ensures
        due_among(c, c.cells@.len()).contains(i as usize) <==> !(c.cells@[i].attempts
            == c.policy.max_replicates || (c.cells@[i].samples@.len() >= c.policy.min_replicates
            && converged(c.policy, c.cells@[i].samples@))),
{
    lemma_due(c, c.cells@.len(), i);
}

proof fn lemma_attempts_left(c: Campaign, n: nat)
    requires
        c.wf(),
        n <= c.cells@.len() <= usize::MAX,
    ensures
        attempts_left(c, n) >= 0,
        c.warmups_left == 0 && due_among(c, n).len() > 0 ==> attempts_left(c, n) > 0,
    decreases n,
{
    if n > 0 {
        lemma_attempts_left(c, (n - 1) as nat);
        assert(c.cells@[n - 1].attempts <= c.policy.max_replicates);
    }
}

/// A grid comes to an end. The attempts that are left are never below zero, each
/// measured attempt takes one of them (see [`Campaign::note`]), and a measured
/// round visits no cell when none is left.
pub proof fn law_grid_ends(c: Campaign)
    requires
        c.wf(),
        c.cells@.len() <= usize::MAX,
    ensures
        attempts_left(c, c.cells@.len()) >= 0,
        c.warmups_left == 0 && attempts_left(c, c.cells@.len()) == 0 ==> due_among(
            c,
            c.cells@.len(),
        ).len() == 0,
{
    lemma_attempts_left(c, c.cells@.len());
}

/// With a fixed number of replicates a cell is visited until it has that many
/// attempts, however tight or loose its samples are.
pub proof fn law_fixed_count_is_exact(p: Replication, n: usize, attempts: nat, xs: Seq<i64>)
    requires
        xs.len() <= attempts,
    ensures
        wants_more(
            Replication { min_replicates: n, max_replicates: n, ..p },
            attempts,
            xs,
        ) == (attempts < n),
{
}

/// Every count has its own counter: two sets of counts that agree on every
/// counter are the same.
pub proof fn law_counters_tell_counts_apart(a: Counters, b: Counters)
    requires
        forall|f: Counter| #[trigger] value_at(a, f) == value_at(b, f),
    ensures
        a == b,
{
    assert(value_at(a, Counter::LatencyCount) == value_at(b, Counter::LatencyCount));
    assert(value_at(a, Counter::LatencyMin) == value_at(b, Counter::LatencyMin));
    assert(value_at(a, Counter::LatencyMax) == value_at(b, Counter::LatencyMax));
    assert(value_at(a, Counter::LatencyP50) == value_at(b, Counter::LatencyP50));
    assert(value_at(a, Counter::LatencyP90) == value_at(b, Counter::LatencyP90));
    assert(value_at(a, Counter::LatencyP99) == value_at(b, Counter::LatencyP99));
    assert(value_at(a, Counter::LatencyP999) == value_at(b, Counter::LatencyP999));
    assert(value_at(a, Counter::EpollCtl) == value_at(b, Counter::EpollCtl));
    assert(value_at(a, Counter::EpollWait) == value_at(b, Counter::EpollWait));
    assert(value_at(a, Counter::SendMsg) == value_at(b, Counter::SendMsg));
    assert(value_at(a, Counter::RecvMsg) == value_at(b, Counter::RecvMsg));
    assert(value_at(a, Counter::IoUringEnter) == value_at(b, Counter::IoUringEnter));
    assert(value_at(a, Counter::Voluntary) == value_at(b, Counter::Voluntary));
    assert(value_at(a, Counter::Involuntary) == value_at(b, Counter::Involuntary));
    assert(value_at(a, Counter::PeakMemory) == value_at(b, Counter::PeakMemory));
}

/// What is reported of a cell of which every surviving replicate counted the same
/// is that count, in every counter.
pub proof fn law_agreeing_replicates_are_reported(
    records: Seq<CellRecord>,
    kept: Seq<usize>,
    f: Counter,
    x: u64,
)
    requires
        kept.len() > 0,
        forall|i: int|
            0 <= i < kept.len() ==> value_at(
                counters_of(records[#[trigger] kept[i] as int]),
                f,
            ) == x,
    ensures
        crate::stats::middle_of(column_of(records, kept, f)) == x,
{
    let c = crate::stats::counts(column_of(records, kept, f));
    assert forall|i: int| 0 <= i < c.len() implies x as int <= #[trigger] c[i] <= x as int by {
        assert(value_at(counters_of(records[kept[i] as int]), f) == x);
    }
    crate::stats::law_quantile_within_data(c, 1, 2, x as int, x as int);
}

/// A cell's samples have converged exactly where those that the filter keeps have
/// an interquartile range of at most the policy's target share of their median,
/// both without their sign.
pub proof fn law_convergence_is_the_target_spread(p: Replication, xs: Seq<i64>)
    ensures
        ({
            let kept = crate::stats::values(crate::stats::kept_of(xs, p.mad_k));
            let m = crate::stats::median2(kept);
            let q = crate::stats::iqr4(kept);
            converged(p, xs) <==> if m == 0 {
                p.target_rel_iqr.num >= 0
            } else if m > 0 {
                q * p.target_rel_iqr.den <= p.target_rel_iqr.num * (2 * m)
            } else {
                q * p.target_rel_iqr.den <= p.target_rel_iqr.num * (2 * -m)
            }
        }),
{
    crate::stats_laws::law_tight_is_a_share_of_the_median(xs, p.mad_k, p.target_rel_iqr);
}

/// When a cell is measured once more: never at or past the ceiling, always below
/// the floor of the policy under the ceiling, and between the two exactly as long
/// as its samples have not converged.
pub proof fn law_measured_until_converged(p: Replication, attempts: nat, xs: Seq<i64>)
    ensures
        attempts >= p.max_replicates ==> !wants_more(p, attempts, xs),
        attempts < p.max_replicates && xs.len() < p.min_replicates ==> wants_more(
            p,
            attempts,
            xs,
        ),
        attempts < p.max_replicates && xs.len() >= p.min_replicates ==> (wants_more(
            p,
            attempts,
            xs,
        ) <==> !converged(p, xs)),
{
}

/// A round that only warms the machine visits every cell.
pub proof fn law_warmup_visits_every_cell(c: Campaign, i: int)
    requires
        c.wf(),
        c.cells@.len() <= usize::MAX,
        c.warmups_left > 0,
        0 <= i < c.cells@.len(),
    ensures
        due_among(c, c.cells@.len()).contains(i as usize),
{
    lemma_due(c, c.cells@.len(), i);
}

/// A round visits the cells in the order of the grid, each of them once.
pub proof fn law_round_is_in_order(c: Campaign, n: nat)
    requires
        n <= c.cells@.len() <= usize::MAX,
    ensures
        forall|i: int, j: int|
            0 <= i < j < due_among(c, n).len() ==> due_among(c, n)[i] < due_among(c, n)[j],
    decreases n,
{
    if n > 0 {
        law_round_is_in_order(c, (n - 1) as nat);
        lemma_due_below(c, (n - 1) as nat);
        let rest = due_among(c, (n - 1) as nat);
        let all = due_among(c, n);
        assert forall|i: int, j: int| 0 <= i < j < all.len() implies all[i] < all[j] by {
            if j == rest.len() {
                assert(rest[i] < n - 1);
            } else {
                assert(rest[i] < rest[j]);
            }
        }
    }
}

/// The positions that a mask sets are in ascending order, and a position is among
/// them exactly where its flag is set.
pub proof fn law_positions_are_those_set(mask: Seq<bool>)
    requires
        mask.len() <= usize::MAX,
    ensures
        forall|i: int, j: int|
            0 <= i < j < set_positions(mask).len() ==> set_positions(mask)[i] < set_positions(
                mask,
            )[j],
        forall|p: usize|
            #[trigger] set_positions(mask).contains(p) <==> p < mask.len() && mask[p as int],
    decreases mask.len(),
{
    if mask.len() > 0 {
        let rest = set_positions(mask.drop_last());
        let all = set_positions(mask);
        let n = (mask.len() - 1) as usize;
        law_positions_are_those_set(mask.drop_last());
        assert forall|i: int| 0 <= i < rest.len() implies rest[i] < n by {
            assert(rest.contains(rest[i]));
        }
        assert forall|p: usize|
            #[trigger] all.contains(p) <==> p < mask.len() && mask[p as int] by {
            if all.contains(p) {
                let i = choose|i: int| 0 <= i < all.len() && all[i] == p;
                if i < rest.len() {
                    assert(rest.contains(rest[i]));
                }
            }
            if p < n && mask[p as int] {
                assert(rest.contains(p));
                let i = choose|i: int| 0 <= i < rest.len() && rest[i] == p;
                assert(all[i] == p);
            }
            if p == n && mask[n as int] {
                assert(all[all.len() - 1] == p);
            }
        }
    }
}

} // verus!
