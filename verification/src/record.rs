//! What a cell's run amounts to: the wait for its measured process, and the
//! record of what was observed, or why there is none.
use vstd::prelude::*;
use crate::cell::{cell_id, parse_latency, parse_throughput_line};
use crate::config::{Kind, MatrixEntry, TargetSpec};
use crate::number::decimal;
use crate::script::{latency_budget, throughput_budget};
use crate::sorted_map::SortedMap;
use crate::telemetry::{
    Elapsed, LatencySnapshot, SchedCounters, SyscallCounters, Throughput, Usage,
};
use crate::text::copied;

verus! {

/// What formatting a text with `{:?}` makes of it.
pub uninterp spec fn quoted_of(s: Seq<char>) -> Seq<char>;

/// `format!("{:?}", ..)` of a text: the result depends on the text alone.
#[verifier::external_body]
fn quoted(s: &str) -> (r: String)
    ensures
        r@ == quoted_of(s@),
{
    format!("{s:?}")
}

/// What a poll of a process found.
#[derive(Clone, Copy, Debug, PartialEq, Eq, Structural)]
pub enum Poll {
    /// It exited on its own.
    Exited,
    /// It runs, and its time is up or not.
    Running { late: bool },
    /// It could not be polled.
    Failed,
}

/// What follows a poll.
#[derive(Clone, Copy, Debug, PartialEq, Eq, Structural)]
pub enum Wait {
    /// The wait is over; whether the process exited on its own.
    Over { exited: bool },
    /// The process is to be killed and reaped; it did not exit on its own.
    Kill,
    /// Poll again after so many milliseconds.
    Sleep(u64),
}

/// What follows a poll of a process that is waited for up to a deadline.
pub open spec fn wait_of(poll: Poll) -> Wait {
    match poll {
        Poll::Exited => Wait::Over { exited: true },
        Poll::Running { late } => if late {
            Wait::Kill
        } else {
            Wait::Sleep(20)
        },
        Poll::Failed => Wait::Over { exited: false },
    }
}

/// A wait goes on as long as the process runs and its time is not up, with a pause
/// between the polls. A process is killed exactly where it runs past its time, and
/// counts as having ended by itself exactly where it did.
pub proof fn law_waits_end(poll: Poll)
    ensures
        wait_of(poll) is Sleep <==> poll == (Poll::Running { late: false }),
        wait_of(poll) == Wait::Kill <==> poll == (Poll::Running { late: true }),
        wait_of(poll) == (Wait::Over { exited: true }) <==> poll == Poll::Exited,
        wait_of(poll) matches Wait::Sleep(ms) ==> ms == 20,
{
}

/// What follows a poll of a process that is waited for up to a deadline.
pub fn wait_until(poll: Poll) -> (r: Wait)
    ensures
        r == wait_of(poll),
        r == (match poll {
            Poll::Exited => Wait::Over { exited: true },
            Poll::Running { late } => if late {
                Wait::Kill
            } else {
                Wait::Sleep(20)
            },
            Poll::Failed => Wait::Over { exited: false },
        }),
{
    match poll {
        Poll::Exited => Wait::Over { exited: true },
        Poll::Running { late } => if late {
            Wait::Kill
        } else {
            Wait::Sleep(20)
        },
        Poll::Failed => Wait::Over { exited: false },
    }
}

/// The greater of a peak and a reading, where there is one.
pub open spec fn raised(peak: u64, reading: Option<u64>) -> u64 {
    match reading {
        Some(v) => if v > peak {
            v
        } else {
            peak
        },
        None => peak,
    }
}

/// The peak over a list of readings, zero where there is none.
pub open spec fn peak_over(readings: Seq<Option<u64>>) -> u64
    decreases readings.len(),
{
    if readings.len() == 0 {
        0
    } else {
        raised(peak_over(readings.drop_last()), readings.last())
    }
}

/// Like `wait_until`, with the memory reading of this poll taken into the peak.
/// The reading is itself a kernel high-water mark; the greatest across the
/// polls guards against a missed final read.
pub fn wait_until_peak(peak: u64, reading: Option<u64>, poll: Poll) -> (r: (Wait, u64))
    ensures
        r.0 == (match poll {
            Poll::Exited => Wait::Over { exited: true },
            Poll::Running { late } => if late {
                Wait::Kill
            } else {
                Wait::Sleep(20)
            },
            Poll::Failed => Wait::Over { exited: false },
        }),
        r.0 == wait_of(poll),
        r.1 == raised(peak, reading),
{
    let now: u64 = match reading {
        Some(v) => if v > peak {
            v
        } else {
            peak
        },
        None => peak,
    };
    (wait_until(poll), now)
}

/// The peak over the polls is the greatest reading of all: none is above it,
/// and it is one of them unless it is zero.
pub proof fn law_peak_is_greatest(readings: Seq<Option<u64>>)
    ensures
        forall|i: int|
            0 <= i < readings.len() && #[trigger] readings[i] is Some ==> readings[i]->0
                <= peak_over(readings),
        peak_over(readings) == 0 || readings.contains(Some(peak_over(readings))),
    decreases readings.len(),
{
    if readings.len() > 0 {
        let rest = readings.drop_last();
        law_peak_is_greatest(rest);
        assert(readings[readings.len() - 1] == readings.last());
        assert forall|i: int| 0 <= i < readings.len() && #[trigger] readings[i] is Some implies readings[i]->0
            <= peak_over(readings) by {
            if i < rest.len() {
                assert(rest[i] == readings[i]);
            }
        }
        if rest.contains(Some(peak_over(rest))) {
            let i = choose|i: int| 0 <= i < rest.len() && rest[i] == Some(peak_over(rest));
            assert(readings[i] == Some(peak_over(rest)));
        }
    }
}

/// Self-reported target classification. The target is the source of truth, so
/// that library version evolution tracks automatically.
pub struct TargetMeta {
    pub engine: String,
    pub lib_version: String,
    pub binding_version: Option<String>,
    pub lib_language: String,
    /// "native" or "ffi".
    pub impl_: String,
    /// Language that the FFI binds into; none when native.
    pub ffi_to: Option<String>,
    pub language: String,
    /// "sync" or "async".
    pub concurrency: String,
    pub threading: String,
    pub io: String,
}

impl TargetMeta {
    /// The classification of a target of which only the engine's name is known.
    pub fn of_engine(engine: &str) -> (r: TargetMeta)
        ensures
            is_minimal(r, engine@),
    {
        TargetMeta {
            engine: engine.to_owned(),
            lib_version: String::new(),
            binding_version: None,
            lib_language: String::new(),
            impl_: String::new(),
            ffi_to: None,
            language: String::new(),
            concurrency: String::new(),
            threading: String::new(),
            io: String::new(),
        }
    }

    /// A copy.
    pub fn copy(&self) -> (r: TargetMeta)
        ensures
            r == *self,
    {
        TargetMeta {
            engine: self.engine.clone(),
            lib_version: self.lib_version.clone(),
            binding_version: copied(&self.binding_version),
            lib_language: self.lib_language.clone(),
            impl_: self.impl_.clone(),
            ffi_to: copied(&self.ffi_to),
            language: self.language.clone(),
            concurrency: self.concurrency.clone(),
            threading: self.threading.clone(),
            io: self.io.clone(),
        }
    }
}

/// Whether only the engine is filled in.
pub open spec fn is_minimal(m: TargetMeta, engine: Seq<char>) -> bool {
    &&& m.engine@ == engine
    &&& m.lib_version@.len() == 0
    &&& m.binding_version is None
    &&& m.lib_language@.len() == 0
    &&& m.impl_@.len() == 0
    &&& m.ffi_to is None
    &&& m.language@.len() == 0
    &&& m.concurrency@.len() == 0
    &&& m.threading@.len() == 0
    &&& m.io@.len() == 0
}

/// The classifications found so far, by binary: each binary is asked once.
pub struct MetaCache {
    pub known: SortedMap<String, TargetMeta>,
}

impl MetaCache {
    pub open spec fn wf(self) -> bool {
        self.known.wf()
    }

    pub fn new() -> (r: MetaCache)
        ensures
            r.wf(),
            r.known@ == Map::<Seq<char>, TargetMeta>::empty(),
    {
        MetaCache { known: SortedMap::new() }
    }

    /// The classification of a binary that was asked before.
    pub fn lookup(&self, binary: &String) -> (r: Option<TargetMeta>)
        requires
            self.wf(),
        ensures
            match r {
                Some(m) => self.known@.dom().contains(binary@) && m == self.known@[binary@],
                None => !self.known@.dom().contains(binary@),
            },
    {
        match self.known.get(binary) {
            Some(m) => Some(m.copy()),
            None => None,
        }
    }

    /// Takes in the answer of a binary: what it described, where that was
    /// usable, else a minimal record with the target's id as the engine and a
    /// note to print, so that a target without a description still has a
    /// well-formed (if sparse) record. The answer is remembered either way, and
    /// the first one stays: for a binary that was asked before it is returned.
    pub fn target_meta(
        &mut self,
        binary: &String,
        fallback_id: &str,
        described: Option<TargetMeta>,
    ) -> (r: (TargetMeta, Option<String>))
        requires
            old(self).wf(),
        ensures
            final(self).wf(),
            final(self).known@ == old(self).known@.insert(binary@, r.0),
            if old(self).known@.dom().contains(binary@) {
                r.0 == old(self).known@[binary@] && r.1 is None
            } else {
                match described {
                    Some(m) => r.0 == m && r.1 is None,
                    None => {
                        &&& is_minimal(r.0, fallback_id@)
                        &&& r.1 matches Some(note)
                        &&& note@ == "  note: "@ + binary@
                            + " has no usable `describe`; recording id only"@
                    },
                }
            },
    {
        if let Some(m) = self.lookup(binary) {
            assert(self.known@.insert(binary@, m) =~= self.known@);
            return (m, None);
        }
        match described {
            Some(m) => {
                self.known.insert(binary.clone(), m.copy());
                (m, None)
            },
            None => {
                let m = TargetMeta::of_engine(fallback_id);
                let mut note = "  note: ".to_owned();
                note.append(binary.as_str());
                note.append(" has no usable `describe`; recording id only");
                self.known.insert(binary.clone(), m.copy());
                (m, Some(note))
            },
        }
    }
}

/// What the harness observed while it ran a cell's script.
pub struct Observed {
    /// Whether the measured process exited on its own.
    pub finished: bool,
    /// What the clock showed, in nanoseconds.
    pub elapsed_nanos: u64,
    /// What the measured process wrote.
    pub output: String,
    /// The peak of the measured process's own memory.
    pub rss_peak: u64,
    /// The high-water mark of the leaf, where there is one.
    pub leaf_peak: Option<u64>,
    pub syscalls: SyscallCounters,
    /// The usage of the children before and after.
    pub before: Usage,
    pub after: Usage,
}

impl Observed {
    /// The CPU times are within what a machine can count.
    pub open spec fn wf(self) -> bool {
        &&& crate::telemetry::countable(self.before.cpu_micros as int)
        &&& crate::telemetry::countable(self.after.cpu_micros as int)
    }
}

/// One measurement cell: the input entry plus all captured telemetry.
pub struct CellRecord {
    pub run_id: String,
    pub cell_id: String,
    pub entry: MatrixEntry,
    /// Classification and library version that the target reported.
    pub meta: TargetMeta,
    pub latency: LatencySnapshot,
    /// None where the kind measures no throughput.
    pub throughput: Option<Throughput>,
    pub cpu_micros: i128,
    pub syscalls: SyscallCounters,
    pub sched: SchedCounters,
    pub peak_memory_bytes: u64,
}

impl CellRecord {
    /// The CPU time is the difference of two that a machine can count.
    pub open spec fn wf(self) -> bool {
        0 <= self.cpu_micros <= 0x200_0000_0000_0000_0000_0000_0000
    }
}

/// Whether two entries hold the same.
pub open spec fn same_entry(a: MatrixEntry, b: MatrixEntry) -> bool {
    &&& a.target.id == b.target.id
    &&& a.target.binary == b.target.binary
    &&& a.target.variant == b.target.variant
    &&& a.target.knobs.entries@ == b.target.knobs.entries@
    &&& a.transport == b.transport
    &&& a.kind == b.kind
    &&& a.peers == b.peers
    &&& a.duration_secs == b.duration_secs
    &&& a.payload_bytes == b.payload_bytes
    &&& a.messages == b.messages
    &&& a.warmup_messages == b.warmup_messages
}

/// A copy of an entry.
pub fn copy_entry(e: &MatrixEntry) -> (r: MatrixEntry)
    ensures
        same_entry(r, *e),
{
    let mut knobs: Vec<(String, String)> = Vec::new();
    let mut i: usize = 0;
    let ghost all = e.target.knobs.entries@;
    while i < e.target.knobs.entries.len()
        invariant
            i <= all.len(),
            all == e.target.knobs.entries@,
            knobs@ == all.take(i as int),
        decreases all.len() - i,
    {
        let k = e.target.knobs.entries[i].0.clone();
        let v = e.target.knobs.entries[i].1.clone();
        knobs.push((k, v));
        i += 1;
        assert(knobs@ =~= all.take(i as int));
    }
    assert(all.take(all.len() as int) =~= all);
    MatrixEntry {
        target: TargetSpec {
            id: e.target.id.clone(),
            binary: e.target.binary.clone(),
            variant: copied(&e.target.variant),
            knobs: SortedMap { entries: knobs },
        },
        transport: e.transport,
        kind: e.kind,
        peers: e.peers,
        duration_secs: copied(&e.duration_secs),
        payload_bytes: e.payload_bytes,
        messages: e.messages,
        warmup_messages: e.warmup_messages,
    }
}

/// The peak memory of a cell: the leaf's high-water mark, which covers all
/// processes in it, where it is there and not zero, else that of the measured
/// process alone, so that the figure is there even unprivileged.
pub open spec fn peak_memory_of(o: Observed) -> u64 {
    match o.leaf_peak {
        Some(v) => if v > 0 {
            v
        } else {
            o.rss_peak
        },
        None => o.rss_peak,
    }
}

/// What every record says of its cell and of what was observed.
pub open spec fn is_record_of(
    r: CellRecord,
    run_id: Seq<char>,
    cell_id: Seq<char>,
    entry: MatrixEntry,
    meta: TargetMeta,
    o: Observed,
) -> bool {
    &&& r.run_id@ == run_id
    &&& r.cell_id@ == cell_id
    &&& same_entry(r.entry, entry)
    &&& r.meta == meta
    &&& r.cpu_micros == crate::telemetry::less_by(
        o.after.cpu_micros as int,
        o.before.cpu_micros as int,
    )
    &&& r.syscalls == o.syscalls
    &&& r.sched.voluntary_ctxt_switches == crate::telemetry::less_by(
        o.after.sched.voluntary_ctxt_switches as int,
        o.before.sched.voluntary_ctxt_switches as int,
    )
    &&& r.sched.involuntary_ctxt_switches == crate::telemetry::less_by(
        o.after.sched.involuntary_ctxt_switches as int,
        o.before.sched.involuntary_ctxt_switches as int,
    )
    &&& r.peak_memory_bytes == peak_memory_of(o)
}

fn record(
    run_id: &str,
    cell_id: &str,
    entry: &MatrixEntry,
    meta: TargetMeta,
    o: &Observed,
    latency: LatencySnapshot,
    throughput: Option<Throughput>,
) -> (r: CellRecord)
    requires
        o.wf(),
    ensures
        r.wf(),
        is_record_of(r, run_id@, cell_id@, *entry, meta, *o),
        r.latency == latency,
        r.throughput == throughput,
{
    let cpu: i128 = if o.after.cpu_micros > o.before.cpu_micros {
        o.after.cpu_micros - o.before.cpu_micros
    } else {
        0
    };
    let memory: u64 = match o.leaf_peak {
        Some(v) => if v > 0 {
            v
        } else {
            o.rss_peak
        },
        None => o.rss_peak,
    };
    CellRecord {
        run_id: run_id.to_owned(),
        cell_id: cell_id.to_owned(),
        entry: copy_entry(entry),
        meta,
        latency,
        throughput,
        cpu_micros: cpu,
        syscalls: o.syscalls,
        sched: o.after.sched.since(o.before.sched),
        peak_memory_bytes: memory,
    }
}

/// Whether a snapshot is that of a cell whose latency is not measured.
pub open spec fn unmeasured(l: LatencySnapshot) -> bool {
    l == (LatencySnapshot {
        count: 0,
        min_ns: 0,
        max_ns: 0,
        p50_ns: 0,
        p90_ns: 0,
        p99_ns: 0,
        p999_ns: 0,
    })
}

/// What is said where a measured process reports another number than was asked
/// for.
pub open spec fn short_count(who: Seq<char>, n: nat, asked: nat, what: Seq<char>) -> Seq<char> {
    who + crate::number::decimal_of(n) + " of "@ + crate::number::decimal_of(asked) + what
}

fn short(who: &str, n: u64, asked: u64, what: &str) -> (r: String)
    ensures
        r@ == short_count(who@, n as nat, asked as nat, what@),
{
    let mut s = who.to_owned();
    s.append(decimal(n).as_str());
    s.append(" of ");
    s.append(decimal(asked).as_str());
    s.append(what);
    s
}

/// Why a throughput cell has no record, if it has none: its consumer did not
/// finish, or it reports that it did not receive exactly the measured block. A
/// target drops no data. A consumer that reports no count took the whole block
/// before it ended.
pub open spec fn throughput_failure(entry: MatrixEntry, o: Observed) -> Option<Seq<char>> {
    if !o.finished {
        Some(
            "cell timed out after "@ + crate::number::decimal_of(
                crate::script::throughput_budget_of(entry),
            ) + "s (consumer did not finish)"@,
        )
    } else {
        match crate::cell::throughput_of(o.output@) {
            Some((n, _)) => if n == entry.messages {
                None
            } else {
                Some(short_count("consumer received "@, n, entry.messages as nat, " messages"@))
            },
            None => None,
        }
    }
}

/// The messages that a throughput cell moves between the start of the clock and
/// its end: the warmup and the measured block.
pub open spec fn moved_messages(entry: MatrixEntry) -> int {
    entry.messages + entry.warmup_messages
}

/// The time that they took: what the clock showed, one nanosecond at least.
pub open spec fn clocked_nanos(o: Observed) -> u64 {
    if o.elapsed_nanos == 0 {
        1
    } else {
        o.elapsed_nanos
    }
}

/// The record of a throughput cell: the whole block, warmup included, in the
/// time that the clock showed, one nanosecond at least. There is none where the
/// consumer did not finish or reports another count than the measured block.
pub fn throughput_record(
    run_id: &str,
    cell_id: &str,
    entry: &MatrixEntry,
    meta: TargetMeta,
    o: &Observed,
) -> (r: Result<CellRecord, String>)
    requires
        o.wf(),
        entry.messages + entry.warmup_messages <= u64::MAX,
    ensures
        match r {
            Ok(c) => {
                &&& throughput_failure(*entry, *o) is None
                &&& c.wf()
                &&& is_record_of(c, run_id@, cell_id@, *entry, meta, *o)
                &&& unmeasured(c.latency)
                &&& c.throughput matches Some(t)
                &&& t.messages == moved_messages(*entry)
                &&& t.elapsed == Elapsed::Nanos(clocked_nanos(*o))
                &&& t.messages == entry.messages + entry.warmup_messages
                &&& t.payload_bytes == entry.payload_bytes
                &&& t.elapsed == Elapsed::Nanos(
                    if o.elapsed_nanos == 0 {
                        1
                    } else {
                        o.elapsed_nanos
                    },
                )
            },
            Err(e) => throughput_failure(*entry, *o) == Some(e@),
        },
{
    if !o.finished {
        let mut s = "cell timed out after ".to_owned();
        s.append(decimal(throughput_budget(entry)).as_str());
        s.append("s (consumer did not finish)");
        return Err(s);
    }
    if let Some((n, _secs)) = parse_throughput_line(o.output.as_str()) {
        if n != entry.messages {
            return Err(short("consumer received ", n, entry.messages, " messages"));
        }
    }
    let nanos: u64 = if o.elapsed_nanos == 0 {
        1
    } else {
        o.elapsed_nanos
    };
    let t = Throughput {
        messages: entry.messages + entry.warmup_messages,
        payload_bytes: entry.payload_bytes,
        elapsed: Elapsed::Nanos(nanos),
    };
    Ok(record(run_id, cell_id, entry, meta, o, LatencySnapshot::default(), Some(t)))
}

/// Why a latency cell has no record, if it has none: its client did not finish,
/// reports no quantiles, or reports those of another number of round trips.
pub open spec fn latency_failure(entry: MatrixEntry, o: Observed) -> Option<Seq<char>> {
    if !o.finished {
        Some(
            "latency cell timed out after "@ + crate::number::decimal_of(
                crate::script::latency_budget_of(entry),
            ) + "s"@,
        )
    } else {
        match crate::cell::latency_numbers(o.output@) {
            None => Some("no LATENCY line in client output: "@ + quoted_of(o.output@)),
            Some(l) => if l[0] == entry.messages {
                None
            } else {
                Some(short_count("client made "@, l[0], entry.messages as nat, " round trips"@))
            },
        }
    }
}

/// The record of a latency cell, with the quantiles that the client wrote.
pub fn latency_record(
    run_id: &str,
    cell_id: &str,
    entry: &MatrixEntry,
    meta: TargetMeta,
    o: &Observed,
) -> (r: Result<CellRecord, String>)
    requires
        o.wf(),
    ensures
        match r {
            Ok(c) => {
                &&& latency_failure(*entry, *o) is None
                &&& c.wf()
                &&& is_record_of(c, run_id@, cell_id@, *entry, meta, *o)
                &&& crate::cell::latency_numbers(o.output@) == Some(
                    crate::cell::snapshot_numbers(c.latency),
                )
                &&& c.throughput is None
            },
            Err(e) => latency_failure(*entry, *o) == Some(e@),
        },
{
    if !o.finished {
        let mut s = "latency cell timed out after ".to_owned();
        s.append(decimal(latency_budget(entry)).as_str());
        s.append("s");
        return Err(s);
    }
    match parse_latency(o.output.as_str()) {
        Some(l) => if l.count == entry.messages {
            Ok(record(run_id, cell_id, entry, meta, o, l, None))
        } else {
            Err(short("client made ", l.count, entry.messages, " round trips"))
        },
        None => {
            let mut s = "no LATENCY line in client output: ".to_owned();
            s.append(quoted(o.output.as_str()).as_str());
            Err(s)
        },
    }
}

/// Why a multi-peer cell has no record, if it has none.
pub open spec fn multipeer_failure(entry: MatrixEntry, o: Observed) -> Option<Seq<char>> {
    if !o.finished {
        Some(crate::config::kind_name(entry.kind) + " measured consumer timed out"@)
    } else if crate::cell::throughput_of(o.output@) is None {
        Some("no THROUGHPUT line from consumer: "@ + quoted_of(o.output@))
    } else {
        None
    }
}

/// Whether a throughput is the one that a consumer reported in `output`: the
/// messages that it counted, in the seconds that it states.
pub open spec fn is_reported(t: Throughput, output: Seq<char>, payload_bytes: u32) -> bool {
    &&& t.payload_bytes == payload_bytes
    &&& t.elapsed matches Elapsed::Seconds(secs)
    &&& crate::cell::throughput_of(output) == Some((t.messages as nat, secs@))
}

/// The record of a multi-peer cell: the messages that the measured consumer
/// counted, in the time that it states.
pub fn multipeer_record(
    run_id: &str,
    cell_id: &str,
    entry: &MatrixEntry,
    meta: TargetMeta,
    o: &Observed,
) -> (r: Result<CellRecord, String>)
    requires
        o.wf(),
    ensures
        match r {
            Ok(c) => {
                &&& multipeer_failure(*entry, *o) is None
                &&& c.wf()
                &&& is_record_of(c, run_id@, cell_id@, *entry, meta, *o)
                &&& unmeasured(c.latency)
                &&& c.throughput matches Some(t)
                &&& is_reported(t, o.output@, entry.payload_bytes)
            },
            Err(e) => multipeer_failure(*entry, *o) == Some(e@),
        },
{
    if !o.finished {
        let mut s = entry.kind.name().to_owned();
        s.append(" measured consumer timed out");
        return Err(s);
    }
    if let Some((n, secs)) = parse_throughput_line(o.output.as_str()) {
        let t = Throughput {
            messages: n,
            payload_bytes: entry.payload_bytes,
            elapsed: Elapsed::Seconds(secs),
        };
        return Ok(record(run_id, cell_id, entry, meta, o, LatencySnapshot::default(), Some(t)));
    }
    let mut s = "no THROUGHPUT line from consumer: ".to_owned();
    s.append(quoted(o.output.as_str()).as_str());
    Err(s)
}

/// The record of a cell, by its kind.
pub fn cell_record(
    run_id: &str,
    cell_id: &str,
    entry: &MatrixEntry,
    meta: TargetMeta,
    o: &Observed,
) -> (r: Result<CellRecord, String>)
    requires
        o.wf(),
        entry.kind == Kind::Throughput ==> entry.messages + entry.warmup_messages <= u64::MAX,
    ensures
        match r {
            Ok(c) => {
                &&& o.finished
                &&& c.wf()
                &&& is_record_of(c, run_id@, cell_id@, *entry, meta, *o)
                &&& c.run_id@ == run_id@
                &&& c.cell_id@ == cell_id@
                &&& c.meta == meta
                &&& c.entry.kind == entry.kind
                &&& c.entry.payload_bytes == entry.payload_bytes
                &&& c.syscalls == o.syscalls
                &&& c.cpu_micros == (if o.after.cpu_micros > o.before.cpu_micros {
                    o.after.cpu_micros - o.before.cpu_micros
                } else {
                    0
                })
                &&& c.sched.voluntary_ctxt_switches == (if o.after.sched.voluntary_ctxt_switches
                    > o.before.sched.voluntary_ctxt_switches {
                    o.after.sched.voluntary_ctxt_switches - o.before.sched.voluntary_ctxt_switches
                } else {
                    0
                })
                &&& c.sched.involuntary_ctxt_switches == (if o.after.sched.involuntary_ctxt_switches
                    > o.before.sched.involuntary_ctxt_switches {
                    o.after.sched.involuntary_ctxt_switches
                        - o.before.sched.involuntary_ctxt_switches
                } else {
                    0
                })
                &&& c.peak_memory_bytes == (match o.leaf_peak {
                    Some(v) if v > 0 => v,
                    _ => o.rss_peak,
                })
                &&& match entry.kind {
                    Kind::Throughput => {
                        &&& throughput_failure(*entry, *o) is None
                        &&& unmeasured(c.latency)
                        &&& c.throughput matches Some(t)
                        &&& t.messages == moved_messages(*entry)
                        &&& t.elapsed == Elapsed::Nanos(clocked_nanos(*o))
                        &&& t.messages == entry.messages + entry.warmup_messages
                        &&& t.payload_bytes == entry.payload_bytes
                        &&& t.elapsed == Elapsed::Nanos(
                            if o.elapsed_nanos == 0 {
                                1
                            } else {
                                o.elapsed_nanos
                            },
                        )
                    },
                    Kind::Latency => {
                        &&& latency_failure(*entry, *o) is None
                        &&& crate::cell::latency_numbers(o.output@) == Some(
                            crate::cell::snapshot_numbers(c.latency),
                        )
                        &&& c.throughput is None
                    },
                    _ => {
                        &&& multipeer_failure(*entry, *o) is None
                        &&& unmeasured(c.latency)
                        &&& c.throughput matches Some(t)
                        &&& is_reported(t, o.output@, entry.payload_bytes)
                    },
                }
            },
            Err(e) => match entry.kind {
                Kind::Throughput => throughput_failure(*entry, *o) == Some(e@),
                Kind::Latency => latency_failure(*entry, *o) == Some(e@),
                _ => multipeer_failure(*entry, *o) == Some(e@),
            },
        },
{
    match entry.kind {
        Kind::Throughput => throughput_record(run_id, cell_id, entry, meta, o),
        Kind::Latency => latency_record(run_id, cell_id, entry, meta, o),
        Kind::PubSub | Kind::FanOut | Kind::FanIn => multipeer_record(
            run_id,
            cell_id,
            entry,
            meta,
            o,
        ),
    }
}

/// No data is dropped unseen: where a cell of a fixed number of messages has a
/// record, what its measured process reports is exactly that number.
pub proof fn law_reported_count_is_exact(entry: MatrixEntry, o: Observed)
    ensures
        throughput_failure(entry, o) is None ==> match crate::cell::throughput_of(o.output@) {
            Some((n, _)) => n == entry.messages,
            None => true,
        },
        latency_failure(entry, o) is None ==> match crate::cell::latency_numbers(o.output@) {
            Some(l) => l[0] == entry.messages,
            None => false,
        },
{
}

/// The primary metric of a cell: the median round trip in nanoseconds where
/// round trips are measured, else the rate.
pub open spec fn primary_of(kind: Kind, p50_ns: u64, rate: i64) -> int {
    if kind != Kind::Latency {
        rate as int
    } else if p50_ns <= i64::MAX {
        p50_ns as int
    } else {
        i64::MAX as int
    }
}

/// A latency cell is judged by its median round trip, whatever rate is given, and
/// every other by its rate, whatever its round trips are. The metric of a slower
/// cell is no less.
pub proof fn law_primary_follows_the_kind(kind: Kind, p50_ns: u64, slower: u64, rate: i64, other: i64)
    requires
        p50_ns <= slower,
    ensures
        kind == Kind::Latency ==> primary_of(kind, p50_ns, rate) == primary_of(kind, p50_ns, other),
        kind == Kind::Latency && p50_ns <= i64::MAX ==> primary_of(kind, p50_ns, rate) == p50_ns,
        kind == Kind::Latency ==> primary_of(kind, p50_ns, rate) <= primary_of(kind, slower, rate)
            <= i64::MAX,
        kind != Kind::Latency ==> primary_of(kind, p50_ns, rate) == rate,
{
}

/// The primary metric of a cell: the median round trip in nanoseconds where
/// round trips are measured, else the rate.
pub fn primary(r: &CellRecord, rate: i64) -> (m: i64)
    ensures
        m == primary_of(r.entry.kind, r.latency.p50_ns, rate),
        m == (if r.entry.kind != Kind::Latency {
            rate as int
        } else if r.latency.p50_ns <= i64::MAX {
            r.latency.p50_ns as int
        } else {
            i64::MAX as int
        }),
{
    if r.entry.kind != Kind::Latency {
        rate
    } else if r.latency.p50_ns <= i64::MAX as u64 {
        r.latency.p50_ns as i64
    } else {
        i64::MAX
    }
}

/// What is said, once per run, where no cgroup can be provisioned.
pub fn cgroups_unavailable(cause: &str, already_said: bool) -> (r: Option<String>)
    ensures
        match r {
            Some(s) => !already_said && s@ == "  cgroups unavailable ("@ + cause@
                + "); running without isolation (run as root for pinning)"@,
            None => already_said,
        },
{
    if already_said {
        return None;
    }
    let mut s = "  cgroups unavailable (".to_owned();
    s.append(cause);
    s.append("); running without isolation (run as root for pinning)");
    Some(s)
}

/// The line that a run begins with.
pub fn run_header(run_id: &str, cells: usize, dry_run: bool) -> (r: String)
    ensures
        r@ == "zmq-arena: run_id="@ + run_id@ + " cells="@ + crate::number::decimal_of(
            cells as nat,
        ) + " dry_run="@ + (if dry_run {
            "true"@
        } else {
            "false"@
        }),
{
    let mut s = "zmq-arena: run_id=".to_owned();
    s.append(run_id);
    s.append(" cells=");
    s.append(decimal(cells as u64).as_str());
    s.append(" dry_run=");
    s.append(
        if dry_run {
            "true"
        } else {
            "false"
        },
    );
    s
}

/// The file that a cell's record is written to.
pub fn record_file(out: &str, id: &str) -> (r: String)
    ensures
        r@ == crate::paths::joined(out@, id@ + ".json"@),
{
    let mut name = id.to_owned();
    name.append(".json");
    crate::paths::join(out, name.as_str())
}

/// The line for a cell whose record was written.
pub fn done_line(id: &str, path: &str) -> (r: String)
    ensures
        r@ == "  done "@ + id@ + " -> "@ + path@,
{
    let mut s = "  done ".to_owned();
    s.append(id);
    s.append(" -> ");
    s.append(path);
    s
}

/// The line for a cell without a record. One bad cell does not abort the grid.
pub fn skip_line(id: &str, cause: &str) -> (r: String)
    ensures
        r@ == "  skip "@ + id@ + ": "@ + cause@,
{
    let mut s = "  skip ".to_owned();
    s.append(id);
    s.append(": ");
    s.append(cause);
    s
}

/// The names of a matrix's cells, in its order.
pub fn cell_ids(entries: &Vec<MatrixEntry>) -> (r: Vec<String>)
    ensures
        r@.len() == entries@.len(),
        forall|i: int|
            0 <= i < r@.len() ==> (#[trigger] r@[i])@ == crate::cell::lowercased(
                crate::cell::cell_name(entries@[i], i as nat),
            ),
        forall|i: int|
            0 <= i < r@.len() && crate::text::all_ascii(entries@[i].target.id@)
                ==> (#[trigger] r@[i])@ == crate::cell::cell_name(
                entries@[i],
                i as nat,
            ).map_values(|c: char| crate::text::ascii_lower(c)),
        forall|i: int, j: int|
            0 <= i < j < r@.len() ==> (#[trigger] r@[i])@ != (#[trigger] r@[j])@,
        forall|i: int| 0 <= i < r@.len() ==> crate::cell::no_capital((#[trigger] r@[i])@),
{
    let mut out: Vec<String> = Vec::new();
    let mut i: usize = 0;
    while i < entries.len()
        invariant
            i <= entries@.len(),
            out@.len() == i,
            forall|k: int|
                0 <= k < i ==> (#[trigger] out@[k])@ == crate::cell::lowercased(
                    crate::cell::cell_name(entries@[k], k as nat),
                ),
            forall|k: int|
                0 <= k < i && crate::text::all_ascii(entries@[k].target.id@) ==> (
                #[trigger] out@[k])@ == crate::cell::cell_name(entries@[k], k as nat).map_values(
                    |c: char| crate::text::ascii_lower(c),
                ),
            forall|k: int|
                0 <= k < i ==> crate::text::ends(
                    (#[trigger] out@[k])@,
                    crate::cell::cell_tail(k as nat),
                ),
            forall|k: int| 0 <= k < i ==> crate::cell::no_capital((#[trigger] out@[k])@),
        decreases entries@.len() - i,
    {
        out.push(cell_id(&entries[i], i));
        i += 1;
    }
    proof {
        assert forall|a: int, b: int| 0 <= a < b < out@.len() implies (#[trigger] out@[a])@ != (
        #[trigger] out@[b])@ by {
            crate::cell::law_cell_ids_distinct(out@[a]@, a as nat, out@[b]@, b as nat);
        }
    }
    out
}

/// A record is the difference of two observations: what was used before the cell
/// comes off what was used after it, counter by counter, and a counter that went
/// down counts nothing.
pub proof fn law_record_is_a_difference(
    r: CellRecord,
    run_id: Seq<char>,
    cell_id: Seq<char>,
    entry: MatrixEntry,
    meta: TargetMeta,
    o: Observed,
)
    requires
        is_record_of(r, run_id, cell_id, entry, meta, o),
    ensures
        o.after.cpu_micros >= o.before.cpu_micros ==> o.before.cpu_micros + r.cpu_micros
            == o.after.cpu_micros,
        o.after.cpu_micros < o.before.cpu_micros ==> r.cpu_micros == 0,
        o.after.sched.voluntary_ctxt_switches >= o.before.sched.voluntary_ctxt_switches
            ==> o.before.sched.voluntary_ctxt_switches + r.sched.voluntary_ctxt_switches
            == o.after.sched.voluntary_ctxt_switches,
        o.after.sched.involuntary_ctxt_switches >= o.before.sched.involuntary_ctxt_switches
            ==> o.before.sched.involuntary_ctxt_switches + r.sched.involuntary_ctxt_switches
            == o.after.sched.involuntary_ctxt_switches,
        o.after.sched.voluntary_ctxt_switches < o.before.sched.voluntary_ctxt_switches
            ==> r.sched.voluntary_ctxt_switches == 0,
        o.after.sched.involuntary_ctxt_switches < o.before.sched.involuntary_ctxt_switches
            ==> r.sched.involuntary_ctxt_switches == 0,
        r.syscalls == o.syscalls,
        r.run_id@ == run_id,
        r.cell_id@ == cell_id,
        r.meta == meta,
{
}

/// A record holds its entry, field by field.
pub proof fn law_record_holds_its_entry(a: MatrixEntry, b: MatrixEntry)
    requires
        same_entry(a, b),
    ensures
        a.target.id@ == b.target.id@,
        a.target.binary@ == b.target.binary@,
        crate::text::opt_view(a.target.variant) == crate::text::opt_view(b.target.variant),
        a.target.knobs@ == b.target.knobs@,
        a.transport == b.transport,
        a.kind == b.kind,
        a.peers == b.peers,
        crate::text::opt_view(a.duration_secs) == crate::text::opt_view(b.duration_secs),
        a.payload_bytes == b.payload_bytes,
        a.messages == b.messages,
        a.warmup_messages == b.warmup_messages,
        b.wf() ==> a.wf(),
{
}

/// The memory of a cell is the leaf's where that shows any, and then what the
/// measured process itself used makes no difference; else it is the process's.
pub proof fn law_leaf_memory_comes_first(o: Observed)
    ensures
        o.leaf_peak matches Some(v) && v > 0 ==> peak_memory_of(o) == o.leaf_peak->0,
        o.leaf_peak is None || o.leaf_peak == Some(0u64) ==> peak_memory_of(o) == o.rss_peak,
{
}

/// When a cell has a record: its measured process ended by itself, and what it
/// reported is the number that was asked for. A throughput consumer may report
/// nothing; a client and a consumer within a window may not.
pub proof fn law_when_there_is_a_record(entry: MatrixEntry, o: Observed)
    ensures
        throughput_failure(entry, o) is None <==> o.finished && match crate::cell::throughput_of(
            o.output@,
        ) {
            Some((n, _)) => n == entry.messages,
            None => true,
        },
        latency_failure(entry, o) is None <==> o.finished && match crate::cell::latency_numbers(
            o.output@,
        ) {
            Some(l) => l[0] == entry.messages,
            None => false,
        },
        multipeer_failure(entry, o) is None <==> o.finished && crate::cell::throughput_of(
            o.output@,
        ) is Some,
{
}

/// What a multi-peer cell reports is what its consumer wrote: the count and the
/// seconds of its line, and the payload of the entry.
pub proof fn law_reported_rate_is_the_consumers(
    t: Throughput,
    count: nat,
    elapsed: Seq<char>,
    payload_bytes: u32,
)
    requires
        count <= u64::MAX,
        crate::number::is_number(elapsed),
        is_reported(
            t,
            crate::report::throughput_line_of(count, elapsed) + seq!['\n'],
            payload_bytes,
        ),
    ensures
        t.messages == count,
        t.payload_bytes == payload_bytes,
        t.elapsed matches Elapsed::Seconds(s) && s@ == elapsed,
{
    crate::report::law_throughput_reads_back(count, elapsed);
}

/// A peak only ever rises, and a reading that is higher is taken.
pub proof fn law_peak_rises(peak: u64, reading: Option<u64>)
    ensures
        raised(peak, reading) >= peak,
        reading matches Some(v) ==> raised(peak, reading) >= v && (raised(peak, reading) == peak
            || raised(peak, reading) == v),
        reading is None ==> raised(peak, reading) == peak,
{
}

/// A cell whose latency is not measured shows none.
pub proof fn law_unmeasured_latency_is_zero(l: LatencySnapshot)
    requires
        unmeasured(l),
    ensures
        l.count == 0,
        l.min_ns == 0 && l.max_ns == 0,
        l.p50_ns == 0 && l.p90_ns == 0 && l.p99_ns == 0 && l.p999_ns == 0,
{
}

/// A throughput cell moves every message that it is asked for, and those of the
/// warmup count like the others: the clock runs over both. The time is what the
/// clock showed, and never none, so that a rate can be taken of it.
pub proof fn law_warmup_is_on_the_clock(a: MatrixEntry, b: MatrixEntry, o: Observed)
    requires
        a.messages == b.warmup_messages,
        a.warmup_messages == b.messages,
    ensures
        moved_messages(a) == moved_messages(b),
        a.warmup_messages == 0 ==> moved_messages(a) == a.messages,
        moved_messages(a) - a.messages == a.warmup_messages,
        clocked_nanos(o) >= 1,
        o.elapsed_nanos >= 1 ==> clocked_nanos(o) == o.elapsed_nanos,
        o.elapsed_nanos == 0 ==> clocked_nanos(o) == 1,
{
}

} // verus!
