//! Benchmark matrix schema.
//!
//! The matrix is the single source of truth for a grid run: one [`MatrixEntry`]
//! per (target x transport x payload x pattern) cell, each executed in isolated
//! processes.
//!
//! Maintainers tune their implementation only through [`TargetSpec::knobs`]. The
//! harness never reaches inside a target to set socket options; it forwards the
//! knob map verbatim as `--knob key=value` flags, so that optimization ownership
//! stays with the library maintainer.
use vstd::prelude::*;
use crate::sorted_map::SortedMap;
use crate::stats::Frac;

verus! {

/// Network topology under test.
#[derive(Clone, Copy, Debug, PartialEq, Eq, Structural)]
pub enum Transport {
    /// Loopback TCP, so that the TCP state machine is exercised.
    TcpNetns,
    /// UNIX domain socket: user-to-kernel boundary traversal without the TCP
    /// state machine.
    Ipc,
    /// In-process across threads, single process.
    Inproc,
}

/// Benchmark kind that a cell measures.
#[derive(Clone, Copy, Debug, PartialEq, Eq, Structural)]
pub enum Kind {
    /// PUSH/PULL one-to-one throughput.
    Throughput,
    /// REQ/REP round-trip latency.
    Latency,
    /// PUB/SUB throughput to `peers` subscribers.
    PubSub,
    /// One PUSH to many PULL.
    FanOut,
    /// Many PUSH to one PULL.
    FanIn,
}

/// One implementation under test plus its maintainer-owned tuning knobs.
pub struct TargetSpec {
    /// Stable identifier, e.g. `monocoque`, `zeromq_rs`.
    pub id: String,
    /// Path to the compiled target binary.
    pub binary: String,
    /// Runtime variant selector, forwarded as `--variant`. None means the
    /// binary's default.
    pub variant: Option<String>,
    /// Opaque knob map forwarded to the target. Keys and value semantics are
    /// defined by the target maintainer, not the harness.
    pub knobs: SortedMap<String, String>,
}

/// Fully expanded unit of work: one process group, one measurement block.
pub struct MatrixEntry {
    pub target: TargetSpec,
    pub transport: Transport,
    pub kind: Kind,
    /// Subscriber or pusher count of the multi-peer kinds; None for the others.
    pub peers: Option<u32>,
    /// Measurement window in seconds for the duration-based kinds, as the
    /// decimal that is handed to the target. Ignored by the message-counted
    /// kinds.
    pub duration_secs: Option<String>,
    /// Fixed payload size in bytes.
    pub payload_bytes: u32,
    /// Number of messages in the steady-state measurement block.
    pub messages: u64,
    /// Messages discarded before measurement to reach steady state.
    pub warmup_messages: u64,
}

impl MatrixEntry {
    /// The knobs are a map.
    pub open spec fn wf(self) -> bool {
        self.target.knobs.wf()
    }
}

/// Resource containment applied per target process via cgroup v2.
pub struct Isolation {
    /// `cpuset.cpus` value, e.g. "2" or "2-3".
    pub cpuset_cpus: String,
    /// `cpuset.mems` NUMA node binding.
    pub cpuset_mems: Option<String>,
    /// `memory.max` byte cap.
    pub memory_max_bytes: u64,
}

/// Replication policy: how many times each cell is measured and when the
/// adaptive loop is allowed to stop early.
#[derive(Clone, Copy, Debug, PartialEq, Eq, Structural)]
pub struct Replication {
    /// Minimum measured replicates before the stability gate is checked.
    pub min_replicates: usize,
    /// Hard ceiling on measured replicates per cell.
    pub max_replicates: usize,
    /// Whole interleaved rounds run and discarded before measurement begins.
    pub warmup_replicates: usize,
    /// Convergence target on the primary metric's relative IQR.
    pub target_rel_iqr: Frac,
    /// Replicates more than `mad_k` scaled deviations from the median are
    /// rejected as outliers before the final estimate.
    pub mad_k: Frac,
    /// Ceiling on the share of replicates that the filter may reject before the
    /// cell is declared untrustworthy.
    pub max_outlier_frac: Frac,
}

impl Replication {
    /// The three fractions divide by something.
    pub open spec fn wf(self) -> bool {
        self.target_rel_iqr.wf() && self.mad_k.wf() && self.max_outlier_frac.wf()
    }
}

pub fn default_min_replicates() -> (r: usize)
    ensures
        r == 5,
{
    5
}

pub fn default_max_replicates() -> (r: usize)
    ensures
        r == 11,
{
    11
}

pub fn default_warmup_replicates() -> (r: usize)
    ensures
        r == 1,
{
    1
}

pub fn default_target_rel_iqr() -> (r: Frac)
    ensures
        r == (Frac { num: 1, den: 20 }),
{
    Frac { num: 1, den: 20 }
}

pub fn default_mad_k() -> (r: Frac)
    ensures
        r == (Frac { num: 3, den: 1 }),
{
    Frac { num: 3, den: 1 }
}

pub fn default_max_outlier_frac() -> (r: Frac)
    ensures
        r == (Frac { num: 1, den: 4 }),
{
    Frac { num: 1, den: 4 }
}

impl Default for Replication {
    fn default() -> (r: Self)
        ensures
            r.min_replicates == 5,
            r.max_replicates == 11,
            r.warmup_replicates == 1,
            r.target_rel_iqr == (Frac { num: 1, den: 20 }),
            r.mad_k == (Frac { num: 3, den: 1 }),
            r.max_outlier_frac == (Frac { num: 1, den: 4 }),
            r.wf(),
    {
        Replication {
            min_replicates: default_min_replicates(),
            max_replicates: default_max_replicates(),
            warmup_replicates: default_warmup_replicates(),
            target_rel_iqr: default_target_rel_iqr(),
            mad_k: default_mad_k(),
            max_outlier_frac: default_max_outlier_frac(),
        }
    }
}

/// Top-level run definition.
pub struct RunConfig {
    pub isolation: Isolation,
    /// Replication policy for the whole grid.
    pub replication: Replication,
    pub entries: Vec<MatrixEntry>,
}

/// The name of a transport.
pub open spec fn transport_name(t: Transport) -> Seq<char> {
    match t {
        Transport::TcpNetns => "TcpNetns"@,
        Transport::Ipc => "Ipc"@,
        Transport::Inproc => "Inproc"@,
    }
}

/// The name of a kind.
pub open spec fn kind_name(k: Kind) -> Seq<char> {
    match k {
        Kind::Throughput => "Throughput"@,
        Kind::Latency => "Latency"@,
        Kind::PubSub => "PubSub"@,
        Kind::FanOut => "FanOut"@,
        Kind::FanIn => "FanIn"@,
    }
}

/// The word that a target takes for a transport.
pub open spec fn transport_token(t: Transport) -> Seq<char> {
    match t {
        Transport::TcpNetns => "tcp"@,
        Transport::Ipc => "ipc"@,
        Transport::Inproc => "inproc"@,
    }
}

/// The word that a target takes for a kind.
pub open spec fn kind_token(k: Kind) -> Seq<char> {
    match k {
        Kind::Throughput => "throughput"@,
        Kind::Latency => "latency"@,
        Kind::PubSub => "pubsub"@,
        Kind::FanOut => "fanout"@,
        Kind::FanIn => "fanin"@,
    }
}

impl Transport {
    /// The name of the transport.
    pub fn name(self) -> (r: &'static str)
        ensures
            r@ == transport_name(self),
    {
        match self {
            Transport::TcpNetns => "TcpNetns",
            Transport::Ipc => "Ipc",
            Transport::Inproc => "Inproc",
        }
    }

    /// The word that a target takes for the transport.
    pub fn token(self) -> (r: &'static str)
        ensures
            r@ == transport_token(self),
    {
        match self {
            Transport::TcpNetns => "tcp",
            Transport::Ipc => "ipc",
            Transport::Inproc => "inproc",
        }
    }
}

impl Kind {
    /// The name of the kind.
    pub fn name(self) -> (r: &'static str)
        ensures
            r@ == kind_name(self),
    {
        match self {
            Kind::Throughput => "Throughput",
            Kind::Latency => "Latency",
            Kind::PubSub => "PubSub",
            Kind::FanOut => "FanOut",
            Kind::FanIn => "FanIn",
        }
    }

    /// The word that a target takes for the kind.
    pub fn token(self) -> (r: &'static str)
        ensures
            r@ == kind_token(self),
    {
        match self {
            Kind::Throughput => "throughput",
            Kind::Latency => "latency",
            Kind::PubSub => "pubsub",
            Kind::FanOut => "fanout",
            Kind::FanIn => "fanin",
        }
    }
}

/// No two transports share a word, nor a name.
pub proof fn law_transports_tell_apart(a: Transport, b: Transport)
    requires
        a != b,
    ensures
        transport_token(a) != transport_token(b),
        transport_name(a) != transport_name(b),
        transport_token(Transport::TcpNetns) == "tcp"@,
        transport_token(Transport::Ipc) == "ipc"@,
{
    reveal_strlit("tcp");
    reveal_strlit("ipc");
    reveal_strlit("inproc");
    reveal_strlit("TcpNetns");
    reveal_strlit("Ipc");
    reveal_strlit("Inproc");
    assert("tcp"@.len() == 3 && "ipc"@.len() == 3 && "inproc"@.len() == 6);
    assert("tcp"@[0] == 't' && "ipc"@[0] == 'i');
    assert("TcpNetns"@.len() == 8 && "Ipc"@.len() == 3 && "Inproc"@.len() == 6);
}

/// No two kinds share a name.
pub proof fn law_kinds_tell_apart(a: Kind, b: Kind)
    requires
        a != b,
    ensures
        kind_name(a) != kind_name(b),
{
    reveal_strlit("Throughput");
    reveal_strlit("Latency");
    reveal_strlit("PubSub");
    reveal_strlit("FanOut");
    reveal_strlit("FanIn");
    assert("Throughput"@.len() == 10 && "Latency"@.len() == 7 && "PubSub"@.len() == 6
        && "FanOut"@.len() == 6 && "FanIn"@.len() == 5);
    assert("PubSub"@[0] == 'P' && "FanOut"@[0] == 'F');
}

} // verus!
