//! Per-cell telemetry.
//!
//! Signals recorded for each cell:
//!   - CPU time and context switches, from the resource usage of the reaped
//!     children.
//!   - Peak memory, from the measured process's `VmHWM`.
//!   - Syscall occurrence counts, from tracepoint counters: one per CPU and
//!     syscall where a cgroup scopes them, else one per thread and syscall.
//!   - Latency quantiles, which the target reports on its standard output.
use vstd::prelude::*;
use crate::number::{decimal, parse_unsigned, parse_u64};
use crate::text::{find_beginning, lines, split_once, strip_prefix, trim, words};

verus! {

/// Exact syscall occurrence counts over one measurement block.
#[derive(Clone, Copy, Debug, PartialEq, Eq, Structural)]
pub struct SyscallCounters {
    pub epoll_ctl: u64,
    pub epoll_wait: u64,
    pub sendmsg: u64,
    pub recvmsg: u64,
    pub io_uring_enter: u64,
}

impl Default for SyscallCounters {
    fn default() -> (r: Self)
        ensures
            r == (SyscallCounters {
                epoll_ctl: 0,
                epoll_wait: 0,
                sendmsg: 0,
                recvmsg: 0,
                io_uring_enter: 0,
            }),
    {
        SyscallCounters { epoll_ctl: 0, epoll_wait: 0, sendmsg: 0, recvmsg: 0, io_uring_enter: 0 }
    }
}

/// Context-switch counts, or their difference across the measurement block.
#[derive(Clone, Copy, Debug, PartialEq, Eq, Structural)]
pub struct SchedCounters {
    /// Voluntary switches: the task blocked, e.g. waiting on a socket.
    pub voluntary_ctxt_switches: u64,
    /// Involuntary switches: the scheduler preempted the task.
    pub involuntary_ctxt_switches: u64,
}

impl Default for SchedCounters {
    fn default() -> (r: Self)
        ensures
            r == (SchedCounters { voluntary_ctxt_switches: 0, involuntary_ctxt_switches: 0 }),
    {
        SchedCounters { voluntary_ctxt_switches: 0, involuntary_ctxt_switches: 0 }
    }
}

/// `a - b`, zero where that would be negative.
pub open spec fn less_by(a: int, b: int) -> int {
    if a >= b {
        a - b
    } else {
        0
    }
}

/// What was added and what was there before are what is there now; where a count
/// went down nothing was added.
pub proof fn law_difference_is_what_was_added(now: int, before: int)
    ensures
        less_by(now, before) >= 0,
        now >= before ==> before + less_by(now, before) == now,
        now < before ==> less_by(now, before) == 0,
{
}

impl SchedCounters {
    /// What was added since `earlier`, zero where a count went down.
    pub fn since(self, earlier: SchedCounters) -> (r: SchedCounters)
        ensures
            r.voluntary_ctxt_switches == less_by(
                self.voluntary_ctxt_switches as int,
                earlier.voluntary_ctxt_switches as int,
            ),
            r.involuntary_ctxt_switches == less_by(
                self.involuntary_ctxt_switches as int,
                earlier.involuntary_ctxt_switches as int,
            ),
            self.voluntary_ctxt_switches >= earlier.voluntary_ctxt_switches
                ==> earlier.voluntary_ctxt_switches + r.voluntary_ctxt_switches
                == self.voluntary_ctxt_switches,
            self.involuntary_ctxt_switches >= earlier.involuntary_ctxt_switches
                ==> earlier.involuntary_ctxt_switches + r.involuntary_ctxt_switches
                == self.involuntary_ctxt_switches,
    {
        SchedCounters {
            voluntary_ctxt_switches: self.voluntary_ctxt_switches.saturating_sub(
                earlier.voluntary_ctxt_switches,
            ),
            involuntary_ctxt_switches: self.involuntary_ctxt_switches.saturating_sub(
                earlier.involuntary_ctxt_switches,
            ),
        }
    }
}

/// How long a measurement block took.
pub enum Elapsed {
    /// As the harness's own clock says, in nanoseconds.
    Nanos(u64),
    /// As the measured process says, in seconds, as it wrote it.
    Seconds(String),
}

/// Steady-state throughput over one measurement block: so many messages of so
/// many bytes in so long. The rates per second follow by division.
pub struct Throughput {
    pub messages: u64,
    pub payload_bytes: u32,
    pub elapsed: Elapsed,
}

/// Latency quantiles in nanoseconds.
#[derive(Clone, Copy, Debug, PartialEq, Eq, Structural)]
pub struct LatencySnapshot {
    pub count: u64,
    pub min_ns: u64,
    pub max_ns: u64,
    pub p50_ns: u64,
    pub p90_ns: u64,
    pub p99_ns: u64,
    pub p999_ns: u64,
}

impl Default for LatencySnapshot {
    /// The snapshot of a cell whose latency is not measured.
    fn default() -> (r: Self)
        ensures
            r == (LatencySnapshot {
                count: 0,
                min_ns: 0,
                max_ns: 0,
                p50_ns: 0,
                p90_ns: 0,
                p99_ns: 0,
                p999_ns: 0,
            }),
    {
        LatencySnapshot {
            count: 0,
            min_ns: 0,
            max_ns: 0,
            p50_ns: 0,
            p90_ns: 0,
            p99_ns: 0,
            p999_ns: 0,
        }
    }
}

/// The resource usage of the reaped children as the kernel reports it.
#[derive(Clone, Copy, Debug, PartialEq, Eq, Structural)]
pub struct RawUsage {
    pub user_sec: i64,
    pub user_usec: i64,
    pub system_sec: i64,
    pub system_usec: i64,
    pub voluntary: i64,
    pub involuntary: i64,
}

/// Cumulative CPU time in microseconds and context switches.
#[derive(Clone, Copy, Debug, PartialEq, Eq, Structural)]
pub struct Usage {
    pub cpu_micros: i128,
    pub sched: SchedCounters,
}

/// Whether a CPU time is within what a machine can count.
pub open spec fn countable(micros: int) -> bool {
    -0x100_0000_0000_0000_0000_0000_0000 <= micros <= 0x100_0000_0000_0000_0000_0000_0000
}

/// The CPU time of `raw`, user and system together.
pub open spec fn cpu_micros_of(raw: RawUsage) -> int {
    raw.user_sec * 1_000_000 + raw.user_usec + raw.system_sec * 1_000_000 + raw.system_usec
}

/// User and system time count alike, and a second is a million microseconds:
/// time that one more process took on either side comes on top.
pub proof fn law_cpu_time_adds_up(a: RawUsage, b: RawUsage, sum: RawUsage)
    requires
        sum.user_sec == a.user_sec + b.system_sec,
        sum.user_usec == a.user_usec + b.system_usec,
        sum.system_sec == a.system_sec + b.user_sec,
        sum.system_usec == a.system_usec + b.user_usec,
    ensures
        cpu_micros_of(sum) == cpu_micros_of(a) + cpu_micros_of(b),
        a.user_sec == 1 && a.user_usec == 0 && a.system_sec == 0 && a.system_usec == 0
            ==> cpu_micros_of(a) == 1_000_000,
        a.user_sec == 0 && a.system_sec == 0 ==> cpu_micros_of(a) == a.user_usec + a.system_usec,
{
}

/// Cumulative CPU time and context switches across all reaped child processes;
/// all zero where the kernel gave none. Sampled before and after a cell, the
/// difference is what the cell's processes used.
pub fn rusage_children(raw: Option<RawUsage>) -> (r: Usage)
    ensures
        countable(r.cpu_micros as int),
        match raw {
            Some(u) => {
                &&& r.cpu_micros == cpu_micros_of(u)
                &&& r.sched.voluntary_ctxt_switches == less_by(u.voluntary as int, 0)
                &&& r.sched.involuntary_ctxt_switches == less_by(u.involuntary as int, 0)
            },
            None => {
                &&& r.cpu_micros == 0
                &&& r.sched.voluntary_ctxt_switches == 0
                &&& r.sched.involuntary_ctxt_switches == 0
            },
        },
{
    match raw {
        None => Usage { cpu_micros: 0, sched: SchedCounters::default() },
        Some(u) => {
            let voluntary: u64 = if u.voluntary > 0 {
                u.voluntary as u64
            } else {
                0
            };
            let involuntary: u64 = if u.involuntary > 0 {
                u.involuntary as u64
            } else {
                0
            };
            let user: i128 = u.user_sec as i128 * 1_000_000 + u.user_usec as i128;
            let system: i128 = u.system_sec as i128 * 1_000_000 + u.system_usec as i128;
            Usage {
                cpu_micros: user + system,
                sched: SchedCounters {
                    voluntary_ctxt_switches: voluntary,
                    involuntary_ctxt_switches: involuntary,
                },
            }
        },
    }
}

/// The `VmHWM` field of a `/proc/<pid>/status` text, in kibibytes: the first
/// word behind the key, of the first line that begins with it.
pub open spec fn vm_hwm_of(status: Seq<char>) -> Option<nat> {
    let all = crate::text::lines_of(status);
    let i = crate::text::first_beginning(all, "VmHWM:"@, 0);
    if i < all.len() {
        match crate::text::first_word(all[i].skip("VmHWM:"@.len() as int)) {
            Some(w) => crate::number::unsigned_up_to(w, u64::MAX as nat),
            None => None,
        }
    } else {
        None
    }
}

/// The `VmHWM` field of a `/proc/<pid>/status` text, in kibibytes.
pub fn vm_hwm_kb(status: &str) -> (r: Option<u64>)
    ensures
        match r {
            Some(kb) => vm_hwm_of(status@) == Some(kb as nat),
            None => vm_hwm_of(status@) is None,
        },
{
    let all = lines(status);
    let i = find_beginning(&all, "VmHWM:");
    if i == all.len() {
        return None;
    }
    assert(crate::text::views(all@)[i as int] == all@[i as int]@);
    proof {
        crate::text::lemma_first_beginning(crate::text::views(all@), "VmHWM:"@, 0);
    }
    match strip_prefix(all[i].as_str(), "VmHWM:") {
        Some(rest) => {
            let w = words(rest.as_str());
            if w.len() == 0 {
                return None;
            }
            assert(crate::text::views(w@)[0] == w@[0]@);
            parse_u64(w[0].as_str())
        },
        None => None,
    }
}

/// Peak resident set size in bytes from a `/proc/<pid>/status` text. None if
/// the field is missing or not a number.
pub fn peak_rss_bytes(status: &str) -> (r: Option<u64>)
    requires
        vm_hwm_of(status@) matches Some(kb) ==> kb * 1024 <= u64::MAX,
    ensures
        match r {
            Some(bytes) => vm_hwm_of(status@) matches Some(kb) && bytes == kb * 1024,
            None => vm_hwm_of(status@) is None,
        },
{
    match vm_hwm_kb(status) {
        Some(kb) => Some(kb * 1024),
        None => None,
    }
}

/// The syscalls that are counted.
#[derive(Clone, Copy, Debug, PartialEq, Eq, Structural)]
pub enum SyscallKind {
    EpollWait,
    EpollCtl,
    SendMsg,
    RecvMsg,
    IoUringEnter,
}

/// The counted syscalls, in the order in which their counters are opened.
pub open spec fn wanted(i: int) -> SyscallKind {
    if i == 0 {
        SyscallKind::EpollWait
    } else if i == 1 {
        SyscallKind::EpollCtl
    } else if i == 2 {
        SyscallKind::SendMsg
    } else if i == 3 {
        SyscallKind::RecvMsg
    } else {
        SyscallKind::IoUringEnter
    }
}

/// The tracepoint of a syscall.
pub open spec fn tracepoint_of(kind: SyscallKind) -> Seq<char> {
    match kind {
        SyscallKind::EpollWait => "sys_enter_epoll_wait"@,
        SyscallKind::EpollCtl => "sys_enter_epoll_ctl"@,
        SyscallKind::SendMsg => "sys_enter_sendmsg"@,
        SyscallKind::RecvMsg => "sys_enter_recvmsg"@,
        SyscallKind::IoUringEnter => "sys_enter_io_uring_enter"@,
    }
}

impl SyscallKind {
    /// The tracepoint that counts the syscall.
    pub fn tracepoint(self) -> (r: &'static str)
        ensures
            r@ == tracepoint_of(self),
    {
        match self {
            SyscallKind::EpollWait => "sys_enter_epoll_wait",
            SyscallKind::EpollCtl => "sys_enter_epoll_ctl",
            SyscallKind::SendMsg => "sys_enter_sendmsg",
            SyscallKind::RecvMsg => "sys_enter_recvmsg",
            SyscallKind::IoUringEnter => "sys_enter_io_uring_enter",
        }
    }
}

/// The counters to open over a list of scopes (CPUs or threads): for each
/// scope in turn, one per counted syscall.
pub open spec fn plan_of(scopes: Seq<u32>) -> Seq<(u32, SyscallKind)> {
    Seq::new(scopes.len() * 5, |i: int| (scopes[i / 5], wanted(i % 5)))
}

/// The counters to open over a list of scopes (CPUs or threads).
pub fn counter_plan(scopes: &Vec<u32>) -> (r: Vec<(u32, SyscallKind)>)
    ensures
        r@ == plan_of(scopes@),
{
    let mut out: Vec<(u32, SyscallKind)> = Vec::new();
    let mut i: usize = 0;
    while i < scopes.len()
        invariant
            i <= scopes@.len(),
            out@.len() == i * 5,
            forall|k: int| 0 <= k < i * 5 ==> out@[k] == plan_of(scopes@)[k],
        decreases scopes@.len() - i,
    {
        let s: u32 = scopes[i];
        out.push((s, SyscallKind::EpollWait));
        out.push((s, SyscallKind::EpollCtl));
        out.push((s, SyscallKind::SendMsg));
        out.push((s, SyscallKind::RecvMsg));
        out.push((s, SyscallKind::IoUringEnter));
        i += 1;
    }
    assert(out@ =~= plan_of(scopes@));
    out
}

/// The counters that opened, in the order of the attempts.
pub open spec fn opened_of(attempts: Seq<(SyscallKind, Option<i32>)>) -> Seq<(SyscallKind, i32)>
    decreases attempts.len(),
{
    if attempts.len() == 0 {
        Seq::empty()
    } else {
        let rest = opened_of(attempts.drop_last());
        match attempts.last().1 {
            Some(fd) => rest.push((attempts.last().0, fd)),
            None => rest,
        }
    }
}

/// The sum of the readings of the counters of one kind.
pub open spec fn sum_of(
    counters: Seq<(SyscallKind, i32)>,
    readings: Seq<u64>,
    kind: SyscallKind,
) -> nat
    decreases counters.len(),
{
    if counters.len() == 0 || readings.len() != counters.len() {
        0
    } else {
        sum_of(counters.drop_last(), readings.drop_last(), kind) + (if counters.last().0 == kind {
            readings.last() as nat
        } else {
            0
        })
    }
}

/// The sum of all the readings.
pub open spec fn total_of(readings: Seq<u64>) -> nat
    decreases readings.len(),
{
    if readings.len() == 0 {
        0
    } else {
        total_of(readings.drop_last()) + readings.last() as nat
    }
}

/// No reading is lost and none is counted twice: what the counters of the five
/// kinds add up to is the sum of all the readings.
pub proof fn law_no_reading_is_lost(counters: Seq<(SyscallKind, i32)>, readings: Seq<u64>)
    requires
        readings.len() == counters.len(),
    ensures
        sum_of(counters, readings, SyscallKind::EpollWait) + sum_of(
            counters,
            readings,
            SyscallKind::EpollCtl,
        ) + sum_of(counters, readings, SyscallKind::SendMsg) + sum_of(
            counters,
            readings,
            SyscallKind::RecvMsg,
        ) + sum_of(counters, readings, SyscallKind::IoUringEnter) == total_of(readings),
    decreases counters.len(),
{
    if counters.len() > 0 {
        law_no_reading_is_lost(counters.drop_last(), readings.drop_last());
    }
}

/// Where all the counters are of one kind, its count is the sum of all the
/// readings and that of every other kind is zero.
pub proof fn law_one_kind_has_it_all(
    counters: Seq<(SyscallKind, i32)>,
    readings: Seq<u64>,
    kind: SyscallKind,
    other: SyscallKind,
)
    requires
        readings.len() == counters.len(),
        forall|i: int| 0 <= i < counters.len() ==> (#[trigger] counters[i]).0 == kind,
        other != kind,
    ensures
        sum_of(counters, readings, kind) == total_of(readings),
        sum_of(counters, readings, other) == 0,
    decreases counters.len(),
{
    if counters.len() > 0 {
        let rest = counters.drop_last();
        assert forall|i: int| 0 <= i < rest.len() implies (#[trigger] rest[i]).0 == kind by {
            assert(counters[i].0 == kind);
        }
        assert(counters[counters.len() - 1].0 == kind);
        law_one_kind_has_it_all(rest, readings.drop_last(), kind, other);
    }
}

/// The readings of two groups of counters add up, kind by kind.
pub proof fn law_groups_of_counters_add_up(
    a: Seq<(SyscallKind, i32)>,
    x: Seq<u64>,
    b: Seq<(SyscallKind, i32)>,
    y: Seq<u64>,
    kind: SyscallKind,
)
    requires
        a.len() == x.len(),
        b.len() == y.len(),
    ensures
        sum_of(a + b, x + y, kind) == sum_of(a, x, kind) + sum_of(b, y, kind),
    decreases b.len(),
{
    if b.len() == 0 {
        assert(a + b =~= a);
        assert(x + y =~= x);
    } else {
        law_groups_of_counters_add_up(a, x, b.drop_last(), y.drop_last(), kind);
        assert((a + b).drop_last() =~= a + b.drop_last());
        assert((x + y).drop_last() =~= x + y.drop_last());
    }
}

/// Every counted syscall has one counter in every scope, and there are no more
/// than these.
pub proof fn law_plan_covers_every_scope(scopes: Seq<u32>, s: int, kind: SyscallKind) -> (at: int)
    requires
        0 <= s < scopes.len(),
    ensures
        plan_of(scopes).len() == 5 * scopes.len(),
        5 * s <= at < 5 * s + 5,
        plan_of(scopes)[at] == (scopes[s], kind),
        forall|i: int|
            5 * s <= i < 5 * s + 5 && (#[trigger] plan_of(scopes)[i]).1 == kind ==> i == at,
{
    let k: int = match kind {
        SyscallKind::EpollWait => 0,
        SyscallKind::EpollCtl => 1,
        SyscallKind::SendMsg => 2,
        SyscallKind::RecvMsg => 3,
        SyscallKind::IoUringEnter => 4,
    };
    assert((5 * s + k) / 5 == s && (5 * s + k) % 5 == k);
    assert forall|i: int|
        5 * s <= i < 5 * s + 5 && (#[trigger] plan_of(scopes)[i]).1 == kind implies i == 5 * s + k by {
        assert(i / 5 == s && i % 5 == i - 5 * s);
    }
    5 * s + k
}

/// Every counter that opened is kept, with its kind and its descriptor, and none
/// that did not: the counters of two lists of attempts are those of the one and
/// then those of the other.
pub proof fn law_opened_are_kept(
    a: Seq<(SyscallKind, Option<i32>)>,
    b: Seq<(SyscallKind, Option<i32>)>,
    kind: SyscallKind,
    fd: i32,
)
    ensures
        opened_of(a + b) == opened_of(a) + opened_of(b),
        opened_of(seq![(kind, Some(fd))]) == seq![(kind, fd)],
        opened_of(seq![(kind, None)]).len() == 0,
    decreases b.len(),
{
    reveal_with_fuel(opened_of, 2);
    assert(seq![(kind, Some(fd))].last() == (kind, Some(fd)));
    assert(seq![(kind, Some(fd))].drop_last() =~= Seq::empty());
    assert(seq![(kind, None::<i32>)].last() == (kind, None::<i32>));
    assert(seq![(kind, None::<i32>)].drop_last() =~= Seq::empty());
    assert(opened_of(seq![(kind, Some(fd))]) =~= seq![(kind, fd)]);
    if b.len() == 0 {
        assert(a + b =~= a);
        assert(opened_of(a) + opened_of(b) =~= opened_of(a));
    } else {
        law_opened_are_kept(a, b.drop_last(), kind, fd);
        assert((a + b).drop_last() =~= a + b.drop_last());
        assert(opened_of(a + b) =~= opened_of(a) + opened_of(b));
    }
}

/// Per-syscall tracepoint counters for a process, each with the descriptor that
/// it is read by. Best effort: counters that cannot be opened are left out and
/// count as zero.
pub struct SyscallProbe {
    pub counters: Vec<(SyscallKind, i32)>,
}

/// The counters that opened, in the order of the attempts.
fn opened(attempts: &Vec<(SyscallKind, Option<i32>)>) -> (r: Vec<(SyscallKind, i32)>)
    ensures
        r@ == opened_of(attempts@),
{
    let mut out: Vec<(SyscallKind, i32)> = Vec::new();
    let mut i: usize = 0;
    assert(attempts@.take(0) =~= Seq::empty());
    while i < attempts.len()
        invariant
            i <= attempts@.len(),
            out@ == opened_of(attempts@.take(i as int)),
        decreases attempts@.len() - i,
    {
        assert(attempts@.take(i + 1).drop_last() =~= attempts@.take(i as int));
        if let Some(fd) = attempts[i].1 {
            out.push((attempts[i].0, fd));
        }
        i += 1;
    }
    assert(attempts@.take(attempts@.len() as int) =~= attempts@);
    out
}

/// What is said once where no counter opens, so that an all-zero syscall column
/// is explained rather than silently misleading.
pub fn counting_unavailable() -> (r: &'static str)
    ensures
        r@ == "  syscall counting unavailable (need root or CAP_PERFMON, tracefs mounted, and perf_event_paranoid <= 1); recording 0. Run with sudo (make run-root) for these counts."@,
{
    "  syscall counting unavailable (need root or CAP_PERFMON, tracefs mounted, and perf_event_paranoid <= 1); recording 0. Run with sudo (make run-root) for these counts."
}

impl SyscallProbe {
    /// The probe of the counters that a cgroup scopes, one per CPU and syscall.
    /// None where none of them opened: the per-thread counters take their
    /// place.
    pub fn open_cgroup(attempts: &Vec<(SyscallKind, Option<i32>)>) -> (r: Option<SyscallProbe>)
        ensures
            match r {
                Some(p) => p.counters@ == opened_of(attempts@) && p.counters@.len() > 0,
                None => opened_of(attempts@).len() == 0,
            },
    {
        let counters = opened(attempts);
        if counters.len() > 0 {
            Some(SyscallProbe { counters })
        } else {
            None
        }
    }

    /// The probe of the per-thread counters, and whether to say that nothing is
    /// counted: that is said once.
    pub fn open(attempts: &Vec<(SyscallKind, Option<i32>)>, already_said: bool) -> (r: (
        SyscallProbe,
        bool,
    ))
        ensures
            r.0.counters@ == opened_of(attempts@),
            r.1 == (opened_of(attempts@).len() == 0 && !already_said),
    {
        let counters = opened(attempts);
        let say: bool = counters.len() == 0 && !already_said;
        (SyscallProbe { counters }, say)
    }

    /// The readings of the counters, one for each in their order, summed per
    /// syscall: one kind has one counter per thread or CPU.
    pub fn read(&self, readings: &Vec<u64>) -> (c: SyscallCounters)
        requires
            readings@.len() == self.counters@.len(),
            forall|kind: SyscallKind|
                #[trigger] sum_of(self.counters@, readings@, kind) <= u64::MAX,
        ensures
            c.epoll_wait == sum_of(self.counters@, readings@, SyscallKind::EpollWait),
            c.epoll_ctl == sum_of(self.counters@, readings@, SyscallKind::EpollCtl),
            c.sendmsg == sum_of(self.counters@, readings@, SyscallKind::SendMsg),
            c.recvmsg == sum_of(self.counters@, readings@, SyscallKind::RecvMsg),
            c.io_uring_enter == sum_of(self.counters@, readings@, SyscallKind::IoUringEnter),
            c.epoll_wait + c.epoll_ctl + c.sendmsg + c.recvmsg + c.io_uring_enter
                == total_of(readings@),
    {
        let mut c = SyscallCounters::default();
        let mut i: usize = 0;
        let ghost s = self.counters@;
        while i < self.counters.len()
            invariant
                i <= s.len(),
                s == self.counters@,
                readings@.len() == s.len(),
                forall|kind: SyscallKind| #[trigger] sum_of(s, readings@, kind) <= u64::MAX,
                c.epoll_wait == sum_of(s.take(i as int), readings@.take(i as int), SyscallKind::EpollWait),
                c.epoll_ctl == sum_of(s.take(i as int), readings@.take(i as int), SyscallKind::EpollCtl),
                c.sendmsg == sum_of(s.take(i as int), readings@.take(i as int), SyscallKind::SendMsg),
                c.recvmsg == sum_of(s.take(i as int), readings@.take(i as int), SyscallKind::RecvMsg),
                c.io_uring_enter == sum_of(
                    s.take(i as int),
                    readings@.take(i as int),
                    SyscallKind::IoUringEnter,
                ),
            decreases s.len() - i,
        {
            let v: u64 = readings[i];
            let kind: SyscallKind = self.counters[i].0;
            proof {
                assert(s.take(i + 1).drop_last() =~= s.take(i as int));
                assert(readings@.take(i + 1).drop_last() =~= readings@.take(i as int));
                assert(s.take(i + 1).last().0 == kind);
                assert(readings@.take(i + 1).last() == v);
                lemma_sum_grows(s, readings@, kind, i + 1);
            }
            match kind {
                SyscallKind::EpollWait => {
                    c.epoll_wait += v;
                },
                SyscallKind::EpollCtl => {
                    c.epoll_ctl += v;
                },
                SyscallKind::SendMsg => {
                    c.sendmsg += v;
                },
                SyscallKind::RecvMsg => {
                    c.recvmsg += v;
                },
                SyscallKind::IoUringEnter => {
                    c.io_uring_enter += v;
                },
            }
            i += 1;
        }
        assert(s.take(s.len() as int) =~= s);
        assert(readings@.take(s.len() as int) =~= readings@);
        proof {
            law_no_reading_is_lost(s, readings@);
        }
        c
    }
}

proof fn lemma_sum_grows(
    counters: Seq<(SyscallKind, i32)>,
    readings: Seq<u64>,
    kind: SyscallKind,
    n: int,
)
    requires
        readings.len() == counters.len(),
        0 <= n <= counters.len(),
    ensures
        sum_of(counters.take(n), readings.take(n), kind) <= sum_of(counters, readings, kind),
    decreases counters.len() - n,
{
    if n == counters.len() {
        assert(counters.take(n) =~= counters);
        assert(readings.take(n) =~= readings);
    } else {
        lemma_sum_grows(counters, readings, kind, n + 1);
        assert(counters.take(n + 1).drop_last() =~= counters.take(n));
        assert(readings.take(n + 1).drop_last() =~= readings.take(n));
    }
}

/// The value that reading a counter gave: the count where all eight bytes came,
/// else zero.
pub open spec fn reading_of(bytes_read: int, value: u64) -> u64 {
    if bytes_read == 8 {
        value
    } else {
        0
    }
}

/// A counter that was read whole counts what it shows, and any other counts
/// nothing, whatever is left in its place.
pub proof fn law_whole_readings_count(value: u64, bytes_read: int)
    ensures
        reading_of(8, value) == value,
        bytes_read != 8 ==> reading_of(bytes_read, value) == 0,
{
}

/// The value that reading a counter gave: the count where all eight bytes came,
/// else zero.
pub fn read_counter(bytes_read: i64, value: u64) -> (r: u64)
    ensures
        r == reading_of(bytes_read as int, value),
        r == (if bytes_read == 8 {
            value
        } else {
            0
        }),
{
    if bytes_read == 8 {
        value
    } else {
        0
    }
}

/// The thread ids among the names of a task directory's entries, in their
/// order.
pub open spec fn ids_of(names: Seq<Seq<char>>) -> Seq<u32>
    decreases names.len(),
{
    if names.len() == 0 {
        Seq::empty()
    } else {
        let rest = ids_of(names.drop_last());
        match crate::number::unsigned_up_to(names.last(), u32::MAX as nat) {
            Some(n) => rest.push(n as u32),
            None => rest,
        }
    }
}

/// The threads of a process from the names of its task directory's entries;
/// the process itself where there is none.
pub fn thread_ids(pid: u32, names: &Vec<String>) -> (r: Vec<u32>)
    ensures
        r@ == (if ids_of(crate::text::views(names@)).len() == 0 {
            seq![pid]
        } else {
            ids_of(crate::text::views(names@))
        }),
{
    let mut out: Vec<u32> = Vec::new();
    let mut i: usize = 0;
    let ghost all = crate::text::views(names@);
    assert(all.take(0) =~= Seq::empty());
    while i < names.len()
        invariant
            i <= names@.len(),
            all == crate::text::views(names@),
            out@ == ids_of(all.take(i as int)),
        decreases names@.len() - i,
    {
        assert(all.take(i + 1).drop_last() =~= all.take(i as int));
        assert(all.take(i + 1).last() == names@[i as int]@);
        if let Some(n) = parse_unsigned(names[i].as_str(), 0xffff_ffff) {
            out.push(n as u32);
        }
        i += 1;
    }
    assert(all.take(all.len() as int) =~= all);
    if out.len() == 0 {
        out.push(pid);
    }
    out
}

/// The numbers from `lo` to `hi`, both included.
pub open spec fn span(lo: nat, hi: nat) -> Seq<u32> {
    Seq::new((hi + 1 - lo) as nat, |i: int| (lo + i) as u32)
}

/// One part of a list of CPUs: a number, or two with a hyphen between them for
/// all from the first to the second.
pub open spec fn cpu_span(part: Seq<char>) -> Option<Seq<u32>> {
    let t = crate::text::trimmed(part);
    let (from, to) = match crate::text::parts_at(t, '-') {
        Some((a, b)) => (a, b),
        None => (t, t),
    };
    match (
        crate::number::unsigned_up_to(from, u32::MAX as nat),
        crate::number::unsigned_up_to(to, u32::MAX as nat),
    ) {
        (Some(lo), Some(hi)) => if lo <= hi {
            Some(span(lo, hi))
        } else {
            None
        },
        _ => None,
    }
}

/// The CPUs of a `cpuset.cpus` value such as `0-3,8`: those of its parts
/// between the commas, in their order. None where a part is malformed.
pub open spec fn cpus_of(list: Seq<char>) -> Option<Seq<u32>>
    decreases list.len(),
{
    match crate::text::parts_at(list, ',') {
        Some((first, rest)) => if rest.len() < list.len() {
            match (cpu_span(first), cpus_of(rest)) {
                (Some(a), Some(b)) => Some(a + b),
                _ => None,
            }
        } else {
            None
        },
        None => cpu_span(list),
    }
}

fn parse_cpu_span(part: &str) -> (r: Option<(u32, u32)>)
    ensures
        match r {
            Some((lo, hi)) => lo <= hi && cpu_span(part@) == Some(span(lo as nat, hi as nat)),
            None => cpu_span(part@) is None,
        },
{
    let t = trim(part);
    let (from, to) = match split_once(t.as_str(), '-') {
        Some((a, b)) => (
            parse_unsigned(a.as_str(), 0xffff_ffff),
            parse_unsigned(b.as_str(), 0xffff_ffff),
        ),
        None => (
            parse_unsigned(t.as_str(), 0xffff_ffff),
            parse_unsigned(t.as_str(), 0xffff_ffff),
        ),
    };
    match (from, to) {
        (Some(lo), Some(hi)) => if lo <= hi {
            Some((lo as u32, hi as u32))
        } else {
            None
        },
        _ => None,
    }
}

/// The CPUs of a `cpuset.cpus` value, on each of which the counters of a leaf
/// are opened. None where the value is malformed.
pub fn cpus(list: &str) -> (r: Option<Vec<u32>>)
    ensures
        match r {
            Some(v) => cpus_of(list@) == Some(v@),
            None => cpus_of(list@) is None,
        },
    decreases list@.len(),
{
    let parts = split_once(list, ',');
    let (first, rest) = match &parts {
        Some((a, b)) => (parse_cpu_span(a.as_str()), Some(b)),
        None => (parse_cpu_span(list), None),
    };
    let (lo, hi) = match first {
        Some(s) => s,
        None => return None,
    };
    let mut out: Vec<u32> = Vec::new();
    let mut next: u64 = lo as u64;
    while next <= hi as u64
        invariant
            lo <= next <= hi + 1,
            out@ == span(lo as nat, hi as nat).take(next - lo),
        decreases hi + 1 - next,
    {
        out.push(next as u32);
        next += 1;
        assert(out@ =~= span(lo as nat, hi as nat).take(next - lo));
    }
    assert(out@ =~= span(lo as nat, hi as nat));
    match rest {
        None => Some(out),
        Some(b) => {
            assert(b@.len() < list@.len()) by {
                crate::text::lemma_find_char(list@, ',', 0);
            }
            match cpus(b.as_str()) {
                Some(mut more) => {
                    out.append(&mut more);
                    Some(out)
                },
                None => None,
            }
        },
    }
}

/// Where the kernel may keep a tracepoint's number: in the tracing file system,
/// at its own place or under the debug file system.
pub fn tracepoint_paths(name: &str) -> (r: (String, String))
    ensures
        r.0@ == "/sys/kernel/tracing/events/syscalls/"@ + name@ + "/id"@,
        r.1@ == "/sys/kernel/debug/tracing/events/syscalls/"@ + name@ + "/id"@,
{
    let mut a = "/sys/kernel/tracing/events/syscalls/".to_owned();
    a.append(name);
    a.append("/id");
    let mut b = "/sys/kernel/debug/tracing/events/syscalls/".to_owned();
    b.append(name);
    b.append("/id");
    (a, b)
}

/// The number in a text that may be missing, without the white space around it.
pub open spec fn number_in(text: Option<String>) -> Option<nat> {
    match text {
        Some(t) => crate::number::unsigned_up_to(crate::text::trimmed(t@), u64::MAX as nat),
        None => None,
    }
}

/// The number in a text that may be missing, without the white space around it.
pub fn trimmed_number(text: &Option<String>) -> (r: Option<u64>)
    ensures
        match r {
            Some(n) => number_in(*text) == Some(n as nat),
            None => number_in(*text) is None,
        },
{
    match text {
        Some(t) => parse_u64(trim(t.as_str()).as_str()),
        None => None,
    }
}

/// A tracepoint's number from what its two files hold: that of the first file
/// that holds one.
pub fn tracepoint_id(first: &Option<String>, second: &Option<String>) -> (r: Option<u64>)
    ensures
        match r {
            Some(n) => Some(n as nat) == (if number_in(*first) is Some {
                number_in(*first)
            } else {
                number_in(*second)
            }),
            None => number_in(*first) is None && number_in(*second) is None,
        },
{
    match trimmed_number(first) {
        Some(n) => Some(n),
        None => trimmed_number(second),
    }
}

/// The directory that lists the threads of a process.
pub fn task_dir(pid: u32) -> (r: String)
    ensures
        r@ == "/proc/"@ + crate::number::decimal_of(pid as nat) + "/task"@,
{
    let mut p = "/proc/".to_owned();
    p.append(decimal(pid as u64).as_str());
    p.append("/task");
    p
}

/// The file that holds a process's memory figures.
pub fn status_file(pid: u32) -> (r: String)
    ensures
        r@ == "/proc/"@ + crate::number::decimal_of(pid as nat) + "/status"@,
{
    let mut p = "/proc/".to_owned();
    p.append(decimal(pid as u64).as_str());
    p.append("/status");
    p
}

/// The peak memory of a process is the number of its line, in kibibytes.
pub proof fn law_peak_is_the_number(status: Seq<char>, i: int, gap: Seq<char>, n: nat)
    requires
        0 <= i < crate::text::lines_of(status).len(),
        crate::text::lines_of(status)[i] == "VmHWM:"@ + (gap + (crate::number::decimal_of(n)
            + " kB"@)),
        forall|j: int|
            0 <= j < i ==> !crate::text::begins(
                #[trigger] crate::text::lines_of(status)[j],
                "VmHWM:"@,
            ),
        forall|k: int| 0 <= k < gap.len() ==> crate::text::is_space(#[trigger] gap[k]),
        n <= u64::MAX,
    ensures
        vm_hwm_of(status) == Some(n),
{
    let all = crate::text::lines_of(status);
    let key = "VmHWM:"@;
    let value = crate::number::decimal_of(n) + " kB"@;
    let rest = gap + value;
    lemma_behind_key(key, rest);
    crate::text_laws::law_first_beginning_is_first(all, key, 0, i);
    assert(crate::text::first_word(rest) == Some(crate::number::decimal_of(n))) by {
        crate::text_laws::law_words_ignore_space_in_front(gap, value);
        crate::report::law_amount_is_two_words(n);
    }
    assert(crate::number::unsigned_up_to(crate::number::decimal_of(n), u64::MAX as nat) == Some(
        n,
    )) by {
        crate::number::law_decimal_reads_back(n);
    }
}

proof fn lemma_behind_key(key: Seq<char>, rest: Seq<char>)
    ensures
        crate::text::begins(key + rest, key),
        (key + rest).skip(key.len() as int) == rest,
{
    assert((key + rest).subrange(0, key.len() as int) =~= key);
    assert((key + rest).skip(key.len() as int) =~= rest);
}

/// A number is read whatever white space is around it.
pub proof fn law_number_is_read_through_space(text: String, a: Seq<char>, n: nat, b: Seq<char>)
    requires
        text@ == a + crate::number::decimal_of(n) + b,
        n <= u64::MAX,
        forall|i: int| 0 <= i < a.len() ==> crate::text::is_space(#[trigger] a[i]),
        forall|i: int| 0 <= i < b.len() ==> crate::text::is_space(#[trigger] b[i]),
    ensures
        number_in(Some(text)) == Some(n),
{
    let d = crate::number::decimal_of(n);
    crate::number::lemma_decimal_digits(n);
    assert(crate::number::is_digit(d[0]) && crate::number::is_digit(d[d.len() - 1]));
    crate::text_laws::law_trimming_undoes_padding(a, d, b);
    crate::number::law_decimal_reads_back(n);
}

proof fn lemma_decimal_has_none(n: nat, c: char)
    requires
        c == '-' || c == ',',
    ensures
        !crate::number::decimal_of(n).contains(c),
        crate::text::trimmed(crate::number::decimal_of(n)) == crate::number::decimal_of(n),
{
    let d = crate::number::decimal_of(n);
    crate::number::lemma_decimal_digits(n);
    if d.contains(c) {
        let i = choose|i: int| 0 <= i < d.len() && d[i] == c;
        assert(crate::number::is_digit(d[i]));
    }
    assert(crate::number::is_digit(d[0]) && crate::number::is_digit(d[d.len() - 1]));
    let none = Seq::<char>::empty();
    assert(none + d + none =~= d);
    crate::text_laws::law_trimming_undoes_padding(none, d, none);
}

// What the text of a range is made of.
proof fn lemma_range(lo: nat, hi: nat, range: Seq<char>)
    requires
        range == crate::number::decimal_of(lo) + seq!['-'] + crate::number::decimal_of(hi),
    ensures
        !range.contains(','),
        crate::text::trimmed(range) == range,
        crate::text::parts_at(range, '-') == Some(
            (crate::number::decimal_of(lo), crate::number::decimal_of(hi)),
        ),
{
    let a = crate::number::decimal_of(lo);
    let b = crate::number::decimal_of(hi);
    lemma_decimal_has_none(lo, '-');
    lemma_decimal_has_none(lo, ',');
    lemma_decimal_has_none(hi, ',');
    crate::text_laws::law_split_undoes_joining(a, '-', b);
    crate::number::lemma_decimal_digits(lo);
    crate::number::lemma_decimal_digits(hi);
    assert(crate::number::is_digit(a[0]) && crate::number::is_digit(b[b.len() - 1]));
    let none = Seq::<char>::empty();
    assert(none + range + none =~= range);
    crate::text_laws::law_trimming_undoes_padding(none, range, none);
    if range.contains(',') {
        let i = choose|i: int| 0 <= i < range.len() && range[i] == ',';
        if i < a.len() {
            assert(a.contains(a[i]));
        } else if i > a.len() {
            assert(b.contains(b[i - a.len() - 1]));
        }
    }
}

/// A number in a list of CPUs is that CPU, and two with a hyphen between them are
/// all from the first to the second; a range that runs backwards is malformed.
pub proof fn law_cpu_ranges_are_read(lo: nat, hi: nat)
    requires
        lo <= u32::MAX,
        hi <= u32::MAX,
    ensures
        ({
            let range = crate::number::decimal_of(lo) + seq!['-'] + crate::number::decimal_of(hi);
            &&& cpus_of(crate::number::decimal_of(lo)) == Some(seq![lo as u32])
            &&& lo <= hi ==> cpus_of(range) == Some(
                Seq::new((hi - lo + 1) as nat, |i: int| (lo + i) as u32),
            )
            &&& lo > hi ==> cpus_of(range) is None
        }),
{
    let a = crate::number::decimal_of(lo);
    let range = a + seq!['-'] + crate::number::decimal_of(hi);
    let none = Seq::<char>::empty();
    lemma_decimal_has_none(lo, '-');
    lemma_decimal_has_none(lo, ',');
    crate::number::law_decimal_reads_back(lo);
    crate::number::law_decimal_reads_back(hi);
    lemma_range(lo, hi, range);
    crate::text_laws::law_split_undoes_joining(a, '-', none);
    crate::text_laws::law_split_undoes_joining(a, ',', none);
    crate::text_laws::law_split_undoes_joining(range, ',', none);
    assert(span(lo, lo) =~= seq![lo as u32]);
    if lo <= hi {
        assert(span(lo, hi) =~= Seq::new((hi - lo + 1) as nat, |i: int| (lo + i) as u32));
    }
}

/// With a comma between two parts of a list, the CPUs of the one come before those
/// of the other, and where either is malformed the list is.
pub proof fn law_cpu_lists_are_in_order(part: Seq<char>, rest: Seq<char>)
    requires
        !part.contains(','),
    ensures
        cpus_of(part + seq![','] + rest) == (match (cpus_of(part), cpus_of(rest)) {
            (Some(a), Some(b)) => Some(a + b),
            _ => None,
        }),
{
    crate::text_laws::law_split_undoes_joining(part, ',', rest);
}

/// The threads of a process are the entries that are numbers, in their order, and
/// no others.
pub proof fn law_threads_are_the_numbers(names: Seq<Seq<char>>, name: Seq<char>, n: nat)
    requires
        n <= u32::MAX,
    ensures
        ids_of(names.push(crate::number::decimal_of(n))) == ids_of(names).push(n as u32),
        crate::number::unsigned_of(name) is None ==> ids_of(names.push(name)) == ids_of(names),
{
    crate::number::law_decimal_reads_back(n);
    assert(names.push(crate::number::decimal_of(n)).drop_last() =~= names);
    assert(names.push(name).drop_last() =~= names);
}

/// Every counted syscall has a tracepoint of its own.
pub proof fn law_tracepoints_are_distinct(a: SyscallKind, b: SyscallKind)
    requires
        tracepoint_of(a) == tracepoint_of(b),
    ensures
        a == b,
{
    reveal_strlit("sys_enter_epoll_wait");
    reveal_strlit("sys_enter_epoll_ctl");
    reveal_strlit("sys_enter_sendmsg");
    reveal_strlit("sys_enter_recvmsg");
    reveal_strlit("sys_enter_io_uring_enter");
    assert("sys_enter_epoll_wait"@.len() == 20 && "sys_enter_epoll_ctl"@.len() == 19
        && "sys_enter_sendmsg"@.len() == 17 && "sys_enter_recvmsg"@.len() == 17
        && "sys_enter_io_uring_enter"@.len() == 24);
    assert("sys_enter_sendmsg"@[10] == 's' && "sys_enter_recvmsg"@[10] == 'r');
}

/// Each syscall is counted by the tracepoint at its own entry.
pub proof fn law_tracepoints_name_their_syscall(kind: SyscallKind)
    ensures
        tracepoint_of(kind) == "sys_enter_"@ + (match kind {
            SyscallKind::EpollWait => "epoll_wait"@,
            SyscallKind::EpollCtl => "epoll_ctl"@,
            SyscallKind::SendMsg => "sendmsg"@,
            SyscallKind::RecvMsg => "recvmsg"@,
            SyscallKind::IoUringEnter => "io_uring_enter"@,
        }),
{
    reveal_strlit("sys_enter_");
    match kind {
        SyscallKind::EpollWait => {
            reveal_strlit("sys_enter_epoll_wait");
            reveal_strlit("epoll_wait");
        },
        SyscallKind::EpollCtl => {
            reveal_strlit("sys_enter_epoll_ctl");
            reveal_strlit("epoll_ctl");
        },
        SyscallKind::SendMsg => {
            reveal_strlit("sys_enter_sendmsg");
            reveal_strlit("sendmsg");
        },
        SyscallKind::RecvMsg => {
            reveal_strlit("sys_enter_recvmsg");
            reveal_strlit("recvmsg");
        },
        SyscallKind::IoUringEnter => {
            reveal_strlit("sys_enter_io_uring_enter");
            reveal_strlit("io_uring_enter");
        },
    }
}

/// Without its line, or with anything but a number in it, the peak memory of a
/// process is unknown; it is never taken for zero.
pub proof fn law_peak_may_be_unknown(status: Seq<char>)
    ensures
        (forall|j: int|
            0 <= j < crate::text::lines_of(status).len() ==> !crate::text::begins(
                #[trigger] crate::text::lines_of(status)[j],
                "VmHWM:"@,
            )) ==> vm_hwm_of(status) is None,
        vm_hwm_of(status) is Some ==> exists|j: int|
            0 <= j < crate::text::lines_of(status).len() && crate::text::begins(
                #[trigger] crate::text::lines_of(status)[j],
                "VmHWM:"@,
            ),
{
    let all = crate::text::lines_of(status);
    crate::text::lemma_first_beginning(all, "VmHWM:"@, 0);
    let i = crate::text::first_beginning(all, "VmHWM:"@, 0);
    if i < all.len() {
        assert(crate::text::begins(all[i], "VmHWM:"@));
    }
}

/// A text without a number, or a text that is missing, holds none.
pub proof fn law_no_number_is_none(text: String)
    requires
        crate::number::unsigned_of(crate::text::trimmed(text@)) is None,
    ensures
        number_in(Some(text)) is None,
        number_in(None) is None,
{
}

/// White space around a CPU of a list is of no account, and a part that is no
/// number makes the list malformed.
pub proof fn law_cpu_parts_are_trimmed(a: Seq<char>, n: nat, b: Seq<char>, part: Seq<char>)
    requires
        n <= u32::MAX,
        forall|i: int| 0 <= i < a.len() ==> crate::text::is_space(#[trigger] a[i]),
        forall|i: int| 0 <= i < b.len() ==> crate::text::is_space(#[trigger] b[i]),
        !part.contains(','),
        !crate::text::trimmed(part).contains('-'),
        crate::number::unsigned_of(crate::text::trimmed(part)) is None,
    ensures
        cpus_of(a + crate::number::decimal_of(n) + b) == Some(seq![n as u32]),
        cpus_of(part) is None,
{
    let d = crate::number::decimal_of(n);
    let s = a + d + b;
    let none = Seq::<char>::empty();
    lemma_decimal_has_none(n, '-');
    lemma_decimal_has_none(n, ',');
    crate::number::lemma_decimal_digits(n);
    assert(crate::number::is_digit(d[0]) && crate::number::is_digit(d[d.len() - 1]));
    crate::text_laws::law_trimming_undoes_padding(a, d, b);
    crate::number::law_decimal_reads_back(n);
    if s.contains(',') {
        let i = choose|i: int| 0 <= i < s.len() && s[i] == ',';
        if i < a.len() {
            assert(crate::text::is_space(a[i]));
        } else if i < a.len() + d.len() {
            assert(d.contains(d[i - a.len()]));
        } else {
            assert(crate::text::is_space(b[i - a.len() - d.len()]));
        }
    }
    crate::text_laws::law_split_undoes_joining(s, ',', none);
    crate::text_laws::law_split_undoes_joining(d, '-', none);
    crate::text_laws::law_split_undoes_joining(part, ',', none);
    crate::text_laws::law_split_undoes_joining(crate::text::trimmed(part), '-', none);
    assert(span(n, n) =~= seq![n as u32]);
}

} // verus!
