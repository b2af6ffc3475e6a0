//! What is done to run a cell, as a list of actions in their order.
//!
//! A cell provisions two cgroup leaves, spawns its target processes, waits for
//! the measured one and cleans up. The harness performs the actions one after
//! another and notes what it observes; see `record` for what becomes of that.
use vstd::prelude::*;
use crate::cell::{peer_args, target_args};
use crate::config::{Kind, MatrixEntry, Transport};
use crate::number::decimal;
use crate::text::{copied, or_text};

verus! {

/// The leaf that a process is put in.
#[derive(Clone, Copy, Debug, PartialEq, Eq, Structural)]
pub enum Leaf {
    /// That of the consuming side.
    Sub,
    /// That of the producing side.
    Pub,
}

/// Where a process's standard output goes.
#[derive(Clone, Copy, Debug, PartialEq, Eq, Structural)]
pub enum Output {
    /// To the harness's own.
    Inherit,
    /// To a pipe that the harness reads.
    Piped,
    /// Nowhere.
    Null,
}

/// How long the measured process may take.
#[derive(Clone, Copy, Debug, PartialEq, Eq, Structural)]
pub enum Budget {
    /// So many seconds.
    Secs(u64),
    /// The measurement window and so many seconds more.
    WindowPlus(u64),
}

/// A target process to start.
pub struct Spawn {
    /// Whether this is the process that is measured. There is one in a script.
    pub measured: bool,
    pub args: Vec<String>,
    /// What is being done, for the message where it fails.
    pub context: String,
    pub stdout: Output,
    /// Whether standard error is dropped: peers that are not measured do not
    /// spam it.
    pub quiet: bool,
    pub leaf: Leaf,
}

/// One action of a script.
pub enum Action {
    /// Provision a leaf of this name, as far as possible.
    MakeLeaf(Leaf, String),
    /// Note the resource usage of the children so far.
    UsageBefore,
    /// Start a process and attach it to its leaf.
    Start(Spawn),
    /// Sleep for so many milliseconds.
    Sleep(u64),
    /// Open the syscall probe on the measured process.
    OpenProbe,
    /// Start the clock.
    StartClock,
    /// Wait for the measured process, killing it when its time is up, and note
    /// the peak of its memory.
    AwaitMeasured(Budget),
    /// Stop the clock.
    StopClock,
    /// Read the syscall probe.
    ReadProbe,
    /// Read what the measured process wrote.
    ReadOutput,
    /// Wait so many seconds for the other processes, killing them then.
    AwaitOthers(u64),
    /// Kill the other processes and reap them.
    KillOthers,
    /// Remove this socket file, if the cell has one and it is there.
    RemoveSocket(Option<String>),
    /// Note the resource usage of the children again.
    UsageAfter,
    /// Read the memory high-water mark of a leaf, if it was provisioned.
    LeafMemory(Leaf),
}

/// A target process to start, over characters.
#[verifier::ext_equal]
pub struct SpawnView {
    pub measured: bool,
    pub args: Seq<Seq<char>>,
    pub context: Seq<char>,
    pub stdout: Output,
    pub quiet: bool,
    pub leaf: Leaf,
}

/// One action of a script, over characters.
#[verifier::ext_equal]
pub enum ActionView {
    MakeLeaf(Leaf, Seq<char>),
    UsageBefore,
    Start(SpawnView),
    Sleep(u64),
    OpenProbe,
    StartClock,
    AwaitMeasured(Budget),
    StopClock,
    ReadProbe,
    ReadOutput,
    AwaitOthers(u64),
    KillOthers,
    RemoveSocket(Option<Seq<char>>),
    UsageAfter,
    LeafMemory(Leaf),
}

impl View for Action {
    type V = ActionView;

    open spec fn view(&self) -> ActionView {
        match *self {
            Action::MakeLeaf(l, n) => ActionView::MakeLeaf(l, n@),
            Action::UsageBefore => ActionView::UsageBefore,
            Action::Start(s) => ActionView::Start(
                SpawnView {
                    measured: s.measured,
                    args: crate::text::views(s.args@),
                    context: s.context@,
                    stdout: s.stdout,
                    quiet: s.quiet,
                    leaf: s.leaf,
                },
            ),
            Action::Sleep(ms) => ActionView::Sleep(ms),
            Action::OpenProbe => ActionView::OpenProbe,
            Action::StartClock => ActionView::StartClock,
            Action::AwaitMeasured(b) => ActionView::AwaitMeasured(b),
            Action::StopClock => ActionView::StopClock,
            Action::ReadProbe => ActionView::ReadProbe,
            Action::ReadOutput => ActionView::ReadOutput,
            Action::AwaitOthers(s) => ActionView::AwaitOthers(s),
            Action::KillOthers => ActionView::KillOthers,
            Action::RemoveSocket(p) => ActionView::RemoveSocket(crate::text::opt_view(p)),
            Action::UsageAfter => ActionView::UsageAfter,
            Action::LeafMemory(l) => ActionView::LeafMemory(l),
        }
    }
}

/// A script over characters.
pub open spec fn script_view(s: Seq<Action>) -> Seq<ActionView> {
    s.map_values(|a: Action| a@)
}

fn then_do(script: &mut Vec<Action>, a: Action)
    ensures
        script_view(final(script)@) == script_view(old(script)@).push(a@),
{
    let ghost before = script@;
    script.push(a);
    assert(script_view(script@) =~= script_view(before).push(a@));
}

/// A name for a leaf of a cell.
fn leaf_name(cell_id: &str, side: &str) -> (r: String)
    ensures
        r@ == cell_id@ + side@,
{
    let mut s = cell_id.to_owned();
    s.append(side);
    s
}

/// What is being done when a binary is spawned as `what`.
fn spawning(what: &str, entry: &MatrixEntry) -> (r: String)
    ensures
        r@ == "spawning "@ + what@ + " "@ + entry.target.binary@,
{
    let mut s = "spawning ".to_owned();
    s.append(what);
    s.append(" ");
    s.append(entry.target.binary.as_str());
    s
}

/// The start of a process of a cell.
pub open spec fn start(
    entry: MatrixEntry,
    what: Seq<char>,
    args: Seq<Seq<char>>,
    measured: bool,
    stdout: Output,
    quiet: bool,
    leaf: Leaf,
) -> ActionView {
    ActionView::Start(
        SpawnView {
            measured,
            args,
            context: "spawning "@ + what + " "@ + entry.target.binary@,
            stdout,
            quiet,
            leaf,
        },
    )
}

/// `n / per` seconds, `least` at least.
pub open spec fn budget_secs(n: nat, per: nat, least: nat) -> nat {
    if n / per >= least {
        n / per
    } else {
        least
    }
}

/// The seconds that a throughput cell may take.
pub open spec fn throughput_budget_of(entry: MatrixEntry) -> nat {
    budget_secs((entry.messages + entry.warmup_messages) as nat, 50_000, 10)
}

/// The seconds that a latency cell may take.
pub open spec fn latency_budget_of(entry: MatrixEntry) -> nat {
    budget_secs(entry.messages as nat, 20_000, 15)
}

/// The seconds that a throughput cell may take.
pub fn throughput_budget(entry: &MatrixEntry) -> (r: u64)
    requires
        entry.messages + entry.warmup_messages <= u64::MAX,
    ensures
        r == throughput_budget_of(*entry),
{
    let total: u64 = entry.messages + entry.warmup_messages;
    let n: u64 = total / 50_000;
    if n >= 10 {
        n
    } else {
        10
    }
}

/// The seconds that a latency cell may take.
pub fn latency_budget(entry: &MatrixEntry) -> (r: u64)
    ensures
        r == latency_budget_of(*entry),
{
    let n: u64 = entry.messages / 20_000;
    if n >= 15 {
        n
    } else {
        15
    }
}

/// Whether a kind has more than two processes.
pub open spec fn is_multipeer(kind: Kind) -> bool {
    kind == Kind::PubSub || kind == Kind::FanOut || kind == Kind::FanIn
}

/// What the endpoints of a cell are made from.
pub struct Site {
    /// The directory for temporary files.
    pub temp_dir: String,
    /// A free loopback port.
    pub port: u16,
}

/// The socket file of a cell: it has a name of its own for each cell.
pub open spec fn socket_path(site: Site, cell_id: Seq<char>) -> Seq<char> {
    crate::paths::joined(site.temp_dir@, "zmq-arena-"@ + cell_id + ".sock"@)
}

/// The endpoint of a cell.
pub open spec fn endpoint_of(entry: MatrixEntry, cell_id: Seq<char>, site: Site) -> Seq<char> {
    if entry.transport == Transport::Ipc {
        "ipc://"@ + socket_path(site, cell_id)
    } else {
        "tcp://127.0.0.1:"@ + crate::number::decimal_of(site.port as nat)
    }
}

/// The socket file that goes with the endpoint of a cell, if one does.
pub open spec fn socket_of(entry: MatrixEntry, cell_id: Seq<char>, site: Site) -> Option<
    Seq<char>,
> {
    if entry.transport == Transport::Ipc {
        Some(socket_path(site, cell_id))
    } else {
        None
    }
}

/// What is said of a cell that would have to run in one process.
pub open spec fn inproc_refusal() -> Seq<char> {
    "inproc needs a single in-process target, not a spawned pair"@
}

/// What is said of a multi-peer cell that is not over tcp.
pub open spec fn tcp_refusal(kind: Kind) -> Seq<char> {
    crate::config::kind_name(kind) + " is supported on tcp only"@
}

/// The endpoint of a cell, and the socket file that goes with it. No kind can
/// run in one process.
pub fn make_endpoint(entry: &MatrixEntry, cell_id: &str, site: &Site) -> (r: Result<
    (String, Option<String>),
    String,
>)
    ensures
        match r {
            Ok((endpoint, socket)) => {
                &&& entry.transport != Transport::Inproc
                &&& endpoint@ == endpoint_of(*entry, cell_id@, *site)
                &&& crate::text::opt_view(socket) == socket_of(*entry, cell_id@, *site)
            },
            Err(e) => entry.transport == Transport::Inproc && e@ == inproc_refusal(),
        },
{
    match entry.transport {
        Transport::Ipc => {
            let mut name = "zmq-arena-".to_owned();
            name.append(cell_id);
            name.append(".sock");
            let path = crate::paths::join(site.temp_dir.as_str(), name.as_str());
            let mut endpoint = "ipc://".to_owned();
            endpoint.append(path.as_str());
            Ok((endpoint, Some(path)))
        },
        Transport::TcpNetns => {
            let mut endpoint = "tcp://127.0.0.1:".to_owned();
            endpoint.append(decimal(site.port as u64).as_str());
            Ok((endpoint, None))
        },
        Transport::Inproc => Err(
            "inproc needs a single in-process target, not a spawned pair".to_owned(),
        ),
    }
}

/// PUSH/PULL throughput: the consumer binds, the producer connects, and the
/// consumer's receipt of the whole block is timed. What it writes is read, so
/// that a short count does not pass. The probe is opened after the bind has
/// settled, so that the engine's threads exist.
pub open spec fn throughput_script_of(
    entry: MatrixEntry,
    cell_id: Seq<char>,
    endpoint: Seq<char>,
    socket: Option<Seq<char>>,
) -> Seq<ActionView> {
    seq![
        ActionView::RemoveSocket(socket),
        ActionView::MakeLeaf(Leaf::Sub, cell_id + "-sub"@),
        ActionView::MakeLeaf(Leaf::Pub, cell_id + "-pub"@),
        ActionView::UsageBefore,
        start(
            entry,
            "consumer"@,
            crate::cell::target_args_of(entry, "sub"@, endpoint),
            true,
            Output::Piped,
            false,
            Leaf::Sub,
        ),
        ActionView::Sleep(150),
        ActionView::OpenProbe,
        ActionView::StartClock,
        start(
            entry,
            "producer"@,
            crate::cell::target_args_of(entry, "pub"@, endpoint),
            false,
            Output::Inherit,
            false,
            Leaf::Pub,
        ),
        ActionView::AwaitMeasured(Budget::Secs(throughput_budget_of(entry) as u64)),
        ActionView::StopClock,
        ActionView::ReadProbe,
        ActionView::ReadOutput,
        ActionView::AwaitOthers(5),
        ActionView::RemoveSocket(socket),
        ActionView::UsageAfter,
        ActionView::LeafMemory(Leaf::Sub),
    ]
}

/// The script of a throughput cell. A socket file that an earlier run left
/// behind is removed first.
pub fn run_throughput(entry: &MatrixEntry, cell_id: &str, site: &Site) -> (r: Result<
    Vec<Action>,
    String,
>)
    requires
        entry.transport != Transport::Inproc ==> entry.messages + entry.warmup_messages
            <= u64::MAX,
    ensures
        match r {
            Ok(s) => {
                &&& entry.transport != Transport::Inproc
                &&& script_view(s@) == throughput_script_of(
                    *entry,
                    cell_id@,
                    endpoint_of(*entry, cell_id@, *site),
                    socket_of(*entry, cell_id@, *site),
                )
            },
            Err(e) => entry.transport == Transport::Inproc && e@ == inproc_refusal(),
        },
{
    let (address, socket) = match make_endpoint(entry, cell_id, site) {
        Ok(made) => made,
        Err(e) => return Err(e),
    };
    let endpoint: &str = address.as_str();
    let mut s: Vec<Action> = Vec::new();
    then_do(&mut s, Action::RemoveSocket(copied(&socket)));
    then_do(&mut s, Action::MakeLeaf(Leaf::Sub, leaf_name(cell_id, "-sub")));
    then_do(&mut s, Action::MakeLeaf(Leaf::Pub, leaf_name(cell_id, "-pub")));
    then_do(&mut s, Action::UsageBefore);
    let consumer = Spawn {
        measured: true,
        args: target_args(entry, "sub", endpoint),
        context: spawning("consumer", entry),
        stdout: Output::Piped,
        quiet: false,
        leaf: Leaf::Sub,
    };
    then_do(&mut s, Action::Start(consumer));
    then_do(&mut s, Action::Sleep(150));
    then_do(&mut s, Action::OpenProbe);
    then_do(&mut s, Action::StartClock);
    let producer = Spawn {
        measured: false,
        args: target_args(entry, "pub", endpoint),
        context: spawning("producer", entry),
        stdout: Output::Inherit,
        quiet: false,
        leaf: Leaf::Pub,
    };
    then_do(&mut s, Action::Start(producer));
    then_do(&mut s, Action::AwaitMeasured(Budget::Secs(throughput_budget(entry))));
    then_do(&mut s, Action::StopClock);
    then_do(&mut s, Action::ReadProbe);
    then_do(&mut s, Action::ReadOutput);
    then_do(&mut s, Action::AwaitOthers(5));
    then_do(&mut s, Action::RemoveSocket(copied(&socket)));
    then_do(&mut s, Action::UsageAfter);
    then_do(&mut s, Action::LeafMemory(Leaf::Sub));
    assert(script_view(s@) =~= throughput_script_of(
        *entry,
        cell_id@,
        endpoint@,
        crate::text::opt_view(socket),
    ));
    Ok(s)
}

/// REQ/REP latency: the server binds and echoes; the client connects, times
/// each round trip and writes the quantiles, which are read from its output.
/// The server is killed then. The probe is opened on the client after a brief
/// settle.
pub open spec fn latency_script_of(
    entry: MatrixEntry,
    cell_id: Seq<char>,
    endpoint: Seq<char>,
    socket: Option<Seq<char>>,
) -> Seq<ActionView> {
    seq![
        ActionView::RemoveSocket(socket),
        ActionView::MakeLeaf(Leaf::Sub, cell_id + "-sub"@),
        ActionView::MakeLeaf(Leaf::Pub, cell_id + "-pub"@),
        ActionView::UsageBefore,
        start(
            entry,
            "REP server"@,
            crate::cell::target_args_of(entry, "sub"@, endpoint),
            false,
            Output::Inherit,
            false,
            Leaf::Sub,
        ),
        ActionView::Sleep(150),
        start(
            entry,
            "REQ client"@,
            crate::cell::target_args_of(entry, "pub"@, endpoint),
            true,
            Output::Piped,
            false,
            Leaf::Pub,
        ),
        ActionView::Sleep(120),
        ActionView::OpenProbe,
        ActionView::AwaitMeasured(Budget::Secs(latency_budget_of(entry) as u64)),
        ActionView::ReadProbe,
        ActionView::ReadOutput,
        ActionView::KillOthers,
        ActionView::RemoveSocket(socket),
        ActionView::UsageAfter,
        ActionView::LeafMemory(Leaf::Pub),
    ]
}

/// The script of a latency cell. A socket file that an earlier run left behind
/// is removed first.
pub fn run_latency(entry: &MatrixEntry, cell_id: &str, site: &Site) -> (r: Result<
    Vec<Action>,
    String,
>)
    ensures
        match r {
            Ok(s) => {
                &&& entry.transport != Transport::Inproc
                &&& script_view(s@) == latency_script_of(
                    *entry,
                    cell_id@,
                    endpoint_of(*entry, cell_id@, *site),
                    socket_of(*entry, cell_id@, *site),
                )
            },
            Err(e) => entry.transport == Transport::Inproc && e@ == inproc_refusal(),
        },
{
    let (address, socket) = match make_endpoint(entry, cell_id, site) {
        Ok(made) => made,
        Err(e) => return Err(e),
    };
    let endpoint: &str = address.as_str();
    let mut s: Vec<Action> = Vec::new();
    then_do(&mut s, Action::RemoveSocket(copied(&socket)));
    then_do(&mut s, Action::MakeLeaf(Leaf::Sub, leaf_name(cell_id, "-sub")));
    then_do(&mut s, Action::MakeLeaf(Leaf::Pub, leaf_name(cell_id, "-pub")));
    then_do(&mut s, Action::UsageBefore);
    let server = Spawn {
        measured: false,
        args: target_args(entry, "sub", endpoint),
        context: spawning("REP server", entry),
        stdout: Output::Inherit,
        quiet: false,
        leaf: Leaf::Sub,
    };
    then_do(&mut s, Action::Start(server));
    then_do(&mut s, Action::Sleep(150));
    let client = Spawn {
        measured: true,
        args: target_args(entry, "pub", endpoint),
        context: spawning("REQ client", entry),
        stdout: Output::Piped,
        quiet: false,
        leaf: Leaf::Pub,
    };
    then_do(&mut s, Action::Start(client));
    then_do(&mut s, Action::Sleep(120));
    then_do(&mut s, Action::OpenProbe);
    then_do(&mut s, Action::AwaitMeasured(Budget::Secs(latency_budget(entry))));
    then_do(&mut s, Action::ReadProbe);
    then_do(&mut s, Action::ReadOutput);
    then_do(&mut s, Action::KillOthers);
    then_do(&mut s, Action::RemoveSocket(copied(&socket)));
    then_do(&mut s, Action::UsageAfter);
    then_do(&mut s, Action::LeafMemory(Leaf::Pub));
    assert(script_view(s@) =~= latency_script_of(
        *entry,
        cell_id@,
        endpoint@,
        crate::text::opt_view(socket),
    ));
    Ok(s)
}

/// The workers of a multi-peer cell: one at least.
pub open spec fn workers_of(entry: MatrixEntry) -> nat {
    match entry.peers {
        Some(p) => if p >= 1 {
            p as nat
        } else {
            1
        },
        None => 1,
    }
}

/// The measurement window of a multi-peer cell: two seconds where the entry
/// gives none.
pub open spec fn window_of(entry: MatrixEntry) -> Seq<char> {
    crate::text::text_or(entry.duration_secs, "2"@)
}

/// So many starts of one kind.
pub open spec fn repeated(a: ActionView, n: nat) -> Seq<ActionView> {
    Seq::new(n, |i: int| a)
}

/// The starts of a cell whose producer binds: the producer, after a settle the
/// measured consumer, and the rest of the consumers, which drain.
pub open spec fn producer_binds_starts(entry: MatrixEntry, endpoint: Seq<char>) -> Seq<ActionView> {
    let consumer = crate::cell::peer_args_of(entry, "sub"@, endpoint, false, window_of(entry));
    seq![
        start(
            entry,
            "producer"@,
            crate::cell::peer_args_of(entry, "pub"@, endpoint, true, window_of(entry)),
            false,
            Output::Inherit,
            false,
            Leaf::Pub,
        ),
        ActionView::Sleep(200),
        start(entry, "measured consumer"@, consumer, true, Output::Piped, false, Leaf::Sub),
    ] + repeated(
        start(entry, "drain consumer"@, consumer, false, Output::Null, true, Leaf::Sub),
        (workers_of(entry) - 1) as nat,
    )
}

/// The starts of a cell whose consumer binds: the measured sink, and after a
/// settle the producers, which send for ever.
pub open spec fn consumer_binds_starts(entry: MatrixEntry, endpoint: Seq<char>) -> Seq<ActionView> {
    let producer = crate::cell::peer_args_of(entry, "pub"@, endpoint, false, window_of(entry));
    seq![
        start(
            entry,
            "measured sink"@,
            crate::cell::peer_args_of(entry, "sub"@, endpoint, true, window_of(entry)),
            true,
            Output::Piped,
            false,
            Leaf::Sub,
        ),
        ActionView::Sleep(200),
    ] + repeated(
        start(entry, "producer"@, producer, false, Output::Inherit, true, Leaf::Pub),
        workers_of(entry),
    )
}

/// Duration-based multi-peer throughput: one coordinator binds and accepts the
/// workers; the measured consumer counts for the window and writes what it
/// counted.
pub open spec fn multipeer_script_of(
    entry: MatrixEntry,
    cell_id: Seq<char>,
    endpoint: Seq<char>,
    producer_binds: bool,
) -> Seq<ActionView> {
    seq![
        ActionView::MakeLeaf(Leaf::Pub, cell_id + "-pub"@),
        ActionView::MakeLeaf(Leaf::Sub, cell_id + "-sub"@),
        ActionView::UsageBefore,
    ] + (if producer_binds {
        producer_binds_starts(entry, endpoint)
    } else {
        consumer_binds_starts(entry, endpoint)
    }) + seq![
        ActionView::Sleep(150),
        ActionView::OpenProbe,
        ActionView::AwaitMeasured(Budget::WindowPlus(15)),
        ActionView::ReadOutput,
        ActionView::ReadProbe,
        ActionView::KillOthers,
        ActionView::UsageAfter,
        ActionView::LeafMemory(Leaf::Sub),
    ]
}

fn worker_count(entry: &MatrixEntry) -> (r: u32)
    ensures
        r == workers_of(*entry),
        r >= 1,
{
    match entry.peers {
        Some(p) => if p >= 1 {
            p
        } else {
            1
        },
        None => 1,
    }
}

/// Adds `n` starts of peers that are not measured.
fn start_peers(
    script: &mut Vec<Action>,
    n: u32,
    entry: &MatrixEntry,
    what: &str,
    role: &str,
    endpoint: &str,
    stdout: Output,
    leaf: Leaf,
)
    ensures
        script_view(final(script)@) == script_view(old(script)@) + repeated(
            start(
                *entry,
                what@,
                crate::cell::peer_args_of(*entry, role@, endpoint@, false, window_of(*entry)),
                false,
                stdout,
                true,
                leaf,
            ),
            n as nat,
        ),
{
    let window = or_text(&entry.duration_secs, "2");
    let ghost a = start(
        *entry,
        what@,
        crate::cell::peer_args_of(*entry, role@, endpoint@, false, window@),
        false,
        stdout,
        true,
        leaf,
    );
    let ghost front = script_view(script@);
    let mut i: u32 = 0;
    assert(front + repeated(a, 0) =~= front);
    while i < n
        invariant
            i <= n,
            window@ == window_of(*entry),
            a == start(
                *entry,
                what@,
                crate::cell::peer_args_of(*entry, role@, endpoint@, false, window@),
                false,
                stdout,
                true,
                leaf,
            ),
            script_view(script@) == front + repeated(a, i as nat),
        decreases n - i,
    {
        let peer = Spawn {
            measured: false,
            args: peer_args(entry, role, endpoint, false, window.as_str()),
            context: spawning(what, entry),
            stdout,
            quiet: true,
            leaf,
        };
        then_do(script, Action::Start(peer));
        assert(script_view(script@) =~= front + repeated(a, (i + 1) as nat));
        i += 1;
    }
}

// Adds the starts of a cell whose producer binds.
fn start_under_producer(s: &mut Vec<Action>, entry: &MatrixEntry, endpoint: &str)
    ensures
        script_view(final(s)@) == script_view(old(s)@) + producer_binds_starts(*entry, endpoint@),
{
    let ghost front = script_view(s@);
    let workers: u32 = worker_count(entry);
    let window = or_text(&entry.duration_secs, "2");
    let producer = Spawn {
        measured: false,
        args: peer_args(entry, "pub", endpoint, true, window.as_str()),
        context: spawning("producer", entry),
        stdout: Output::Inherit,
        quiet: false,
        leaf: Leaf::Pub,
    };
    then_do(s, Action::Start(producer));
    then_do(s, Action::Sleep(200));
    let measured = Spawn {
        measured: true,
        args: peer_args(entry, "sub", endpoint, false, window.as_str()),
        context: spawning("measured consumer", entry),
        stdout: Output::Piped,
        quiet: false,
        leaf: Leaf::Sub,
    };
    then_do(s, Action::Start(measured));
    start_peers(s, workers - 1, entry, "drain consumer", "sub", endpoint, Output::Null, Leaf::Sub);
    assert(script_view(s@) =~= front + producer_binds_starts(*entry, endpoint@));
}

// Adds the starts of a cell whose consumer binds.
fn start_under_consumer(s: &mut Vec<Action>, entry: &MatrixEntry, endpoint: &str)
    ensures
        script_view(final(s)@) == script_view(old(s)@) + consumer_binds_starts(*entry, endpoint@),
{
    let ghost front = script_view(s@);
    let workers: u32 = worker_count(entry);
    let window = or_text(&entry.duration_secs, "2");
    let measured = Spawn {
        measured: true,
        args: peer_args(entry, "sub", endpoint, true, window.as_str()),
        context: spawning("measured sink", entry),
        stdout: Output::Piped,
        quiet: false,
        leaf: Leaf::Sub,
    };
    then_do(s, Action::Start(measured));
    then_do(s, Action::Sleep(200));
    start_peers(s, workers, entry, "producer", "pub", endpoint, Output::Inherit, Leaf::Pub);
    assert(script_view(s@) =~= front + consumer_binds_starts(*entry, endpoint@));
}

fn multipeer_script(
    entry: &MatrixEntry,
    cell_id: &str,
    endpoint: &str,
    producer_binds: bool,
) -> (r: Vec<Action>)
    ensures
        script_view(r@) == multipeer_script_of(*entry, cell_id@, endpoint@, producer_binds),
{
    let mut s: Vec<Action> = Vec::new();
    then_do(&mut s, Action::MakeLeaf(Leaf::Pub, leaf_name(cell_id, "-pub")));
    then_do(&mut s, Action::MakeLeaf(Leaf::Sub, leaf_name(cell_id, "-sub")));
    then_do(&mut s, Action::UsageBefore);
    assert(script_view(s@) =~= seq![
        ActionView::MakeLeaf(Leaf::Pub, cell_id@ + "-pub"@),
        ActionView::MakeLeaf(Leaf::Sub, cell_id@ + "-sub"@),
        ActionView::UsageBefore,
    ]);
    if producer_binds {
        start_under_producer(&mut s, entry, endpoint);
    } else {
        start_under_consumer(&mut s, entry, endpoint);
    }
    then_do(&mut s, Action::Sleep(150));
    then_do(&mut s, Action::OpenProbe);
    then_do(&mut s, Action::AwaitMeasured(Budget::WindowPlus(15)));
    then_do(&mut s, Action::ReadOutput);
    then_do(&mut s, Action::ReadProbe);
    then_do(&mut s, Action::KillOthers);
    then_do(&mut s, Action::UsageAfter);
    then_do(&mut s, Action::LeafMemory(Leaf::Sub));
    assert(script_view(s@) =~= multipeer_script_of(*entry, cell_id@, endpoint@, producer_binds));
    s
}

/// The script of a multi-peer cell. For pub/sub and fan-out the producer is the
/// coordinator and binds; for fan-in the single consumer is and does. Over tcp
/// only: any other transport is refused before anything is provisioned.
pub fn run_multipeer(
    entry: &MatrixEntry,
    cell_id: &str,
    site: &Site,
    producer_binds: bool,
) -> (r: Result<Vec<Action>, String>)
    ensures
        match r {
            Ok(s) => {
                &&& entry.transport == Transport::TcpNetns
                &&& script_view(s@) == multipeer_script_of(
                    *entry,
                    cell_id@,
                    endpoint_of(*entry, cell_id@, *site),
                    producer_binds,
                )
            },
            Err(e) => entry.transport != Transport::TcpNetns && e@ == tcp_refusal(entry.kind),
        },
{
    if entry.transport != Transport::TcpNetns {
        let mut e = entry.kind.name().to_owned();
        e.append(" is supported on tcp only");
        return Err(e);
    }
    match make_endpoint(entry, cell_id, site) {
        Ok((endpoint, _socket)) => Ok(
            multipeer_script(entry, cell_id, endpoint.as_str(), producer_binds),
        ),
        Err(e) => Err(e),
    }
}

/// Why a cell cannot be run, if it cannot: the multi-peer kinds need tcp, and
/// no kind can run in one process.
pub open spec fn refusal_of(entry: MatrixEntry) -> Option<Seq<char>> {
    if is_multipeer(entry.kind) && entry.transport != Transport::TcpNetns {
        Some(tcp_refusal(entry.kind))
    } else if entry.transport == Transport::Inproc {
        Some(inproc_refusal())
    } else {
        None
    }
}

/// The script of a cell.
pub open spec fn cell_script_of(entry: MatrixEntry, cell_id: Seq<char>, site: Site) -> Seq<
    ActionView,
> {
    let endpoint = endpoint_of(entry, cell_id, site);
    let socket = socket_of(entry, cell_id, site);
    match entry.kind {
        Kind::Throughput => throughput_script_of(entry, cell_id, endpoint, socket),
        Kind::Latency => latency_script_of(entry, cell_id, endpoint, socket),
        Kind::PubSub => multipeer_script_of(entry, cell_id, endpoint, true),
        Kind::FanOut => multipeer_script_of(entry, cell_id, endpoint, true),
        Kind::FanIn => multipeer_script_of(entry, cell_id, endpoint, false),
    }
}

/// The script of a cell, or why it cannot be run.
pub fn execute_cell(entry: &MatrixEntry, cell_id: &str, site: &Site) -> (r: Result<
    Vec<Action>,
    String,
>)
    requires
        entry.kind == Kind::Throughput && entry.transport != Transport::Inproc ==> entry.messages
            + entry.warmup_messages <= u64::MAX,
    ensures
        match r {
            Ok(s) => {
                &&& refusal_of(*entry) is None
                &&& script_view(s@) == cell_script_of(*entry, cell_id@, *site)
            },
            Err(e) => refusal_of(*entry) == Some(e@),
        },
{
    match entry.kind {
        Kind::Throughput => run_throughput(entry, cell_id, site),
        Kind::Latency => run_latency(entry, cell_id, site),
        Kind::PubSub | Kind::FanOut => run_multipeer(entry, cell_id, site, true),
        Kind::FanIn => run_multipeer(entry, cell_id, site, false),
    }
}

/// Whether an action starts the measured process.
pub open spec fn starts_measured(a: ActionView) -> bool {
    a matches ActionView::Start(s) && s.measured
}

/// Whether an action starts a process that is not measured.
pub open spec fn starts_other(a: ActionView) -> bool {
    a matches ActionView::Start(s) && !s.measured
}

/// Whether an action sees to it that the processes that are not measured are
/// gone.
pub open spec fn reaps_others(a: ActionView) -> bool {
    a == ActionView::KillOthers || a is AwaitOthers
}

/// Every cell starts exactly one measured process, opens the probe on it and
/// waits for it, in that order, within a bounded time.
pub proof fn law_one_measured_process(
    entry: MatrixEntry,
    cell_id: Seq<char>,
    site: Site,
) -> (w: (int, int, int))
    ensures
        ({
            let s = cell_script_of(entry, cell_id, site);
            &&& 0 <= w.0 < w.1 < w.2 < s.len()
            &&& starts_measured(s[w.0])
            &&& forall|i: int| 0 <= i < s.len() && #[trigger] starts_measured(s[i]) ==> i == w.0
            &&& s[w.1] == ActionView::OpenProbe
            &&& s[w.2] is AwaitMeasured
        }),
{
    let s = cell_script_of(entry, cell_id, site);
    let endpoint = endpoint_of(entry, cell_id, site);
    match entry.kind {
        Kind::Throughput => (4, 6, 9),
        Kind::Latency => (6, 8, 9),
        Kind::PubSub | Kind::FanOut => {
            let n = workers_of(entry) - 1;
            let starts = producer_binds_starts(entry, endpoint);
            assert(starts.len() == 3 + n);
            assert forall|i: int| 0 <= i < s.len() && #[trigger] starts_measured(s[i]) implies i
                == 5 by {
                if 3 <= i < 6 + n {
                    assert(s[i] == starts[i - 3]);
                }
            }
            assert(s[5] == starts[2]);
            (5, 7 + n, 8 + n)
        },
        Kind::FanIn => {
            let n = workers_of(entry) as int;
            let starts = consumer_binds_starts(entry, endpoint);
            assert(starts.len() == 2 + n);
            assert forall|i: int| 0 <= i < s.len() && #[trigger] starts_measured(s[i]) implies i
                == 3 by {
                if 3 <= i < 5 + n {
                    assert(s[i] == starts[i - 3]);
                }
            }
            assert(s[3] == starts[0]);
            (3, 6 + n, 7 + n)
        },
    }
}

/// A script that runs to its end leaves no process behind: after every start of
/// a process that is not measured there is an action that sees to it that it is
/// gone.
pub proof fn law_others_are_reaped(
    entry: MatrixEntry,
    cell_id: Seq<char>,
    site: Site,
) -> (w: int)
    ensures
        ({
            let s = cell_script_of(entry, cell_id, site);
            &&& 0 <= w < s.len()
            &&& reaps_others(s[w])
            &&& forall|i: int| 0 <= i < s.len() && #[trigger] starts_other(s[i]) ==> i < w
        }),
{
    let s = cell_script_of(entry, cell_id, site);
    let endpoint = endpoint_of(entry, cell_id, site);
    match entry.kind {
        Kind::Throughput => 13,
        Kind::Latency => 12,
        Kind::PubSub | Kind::FanOut => {
            let n = workers_of(entry) - 1;
            assert(producer_binds_starts(entry, endpoint).len() == 3 + n);
            assert(s.len() == 14 + n);
            11 + n
        },
        Kind::FanIn => {
            let n = workers_of(entry) as int;
            assert(consumer_binds_starts(entry, endpoint).len() == 2 + n);
            assert(s.len() == 13 + n);
            10 + n
        },
    }
}

/// The socket file of an ipc cell is removed before any process of the cell is
/// started, and once more when they are all gone.
pub proof fn law_socket_is_removed(entry: MatrixEntry, cell_id: Seq<char>, site: Site) -> (w: int)
    requires
        entry.transport == Transport::Ipc,
        refusal_of(entry) is None,
    ensures
        ({
            let s = cell_script_of(entry, cell_id, site);
            let removal = ActionView::RemoveSocket(Some(socket_path(site, cell_id)));
            &&& 0 < w < s.len()
            &&& s[0] == removal
            &&& s[w] == removal
            &&& forall|i: int| 0 <= i < s.len() && #[trigger] s[i] is Start ==> 0 < i < w
            &&& exists|i: int| 0 <= i < w && reaps_others(#[trigger] s[i])
        }),
{
    let s = cell_script_of(entry, cell_id, site);
    if entry.kind == Kind::Throughput {
        assert(reaps_others(s[13]));
        14
    } else {
        assert(reaps_others(s[12]));
        13
    }
}

/// How many processes that are not measured a script starts.
pub open spec fn others_in(s: Seq<ActionView>) -> nat
    decreases s.len(),
{
    if s.len() == 0 {
        0
    } else {
        others_in(s.drop_last()) + (if starts_other(s.last()) {
            1nat
        } else {
            0nat
        })
    }
}

proof fn lemma_others_join(a: Seq<ActionView>, b: Seq<ActionView>)
    ensures
        others_in(a + b) == others_in(a) + others_in(b),
    decreases b.len(),
{
    if b.len() == 0 {
        assert(a + b =~= a);
    } else {
        lemma_others_join(a, b.drop_last());
        assert((a + b).drop_last() =~= a + b.drop_last());
    }
}

proof fn lemma_others_repeated(a: ActionView, n: nat)
    requires
        starts_other(a),
    ensures
        others_in(repeated(a, n)) == n,
    decreases n,
{
    if n > 0 {
        lemma_others_repeated(a, (n - 1) as nat);
        assert(repeated(a, n).drop_last() =~= repeated(a, (n - 1) as nat));
    }
}

/// A multi-peer cell has one coordinator and as many workers as the entry asks
/// for, one at least: with the measured process among them, one process more
/// than workers in all.
pub proof fn law_multipeer_process_count(
    entry: MatrixEntry,
    cell_id: Seq<char>,
    site: Site,
)
    requires
        is_multipeer(entry.kind),
    ensures
        others_in(cell_script_of(entry, cell_id, site)) == workers_of(entry),
{
    let endpoint = endpoint_of(entry, cell_id, site);
    let front = seq![
        ActionView::MakeLeaf(Leaf::Pub, cell_id + "-pub"@),
        ActionView::MakeLeaf(Leaf::Sub, cell_id + "-sub"@),
        ActionView::UsageBefore,
    ];
    let back = seq![
        ActionView::Sleep(150),
        ActionView::OpenProbe,
        ActionView::AwaitMeasured(Budget::WindowPlus(15)),
        ActionView::ReadOutput,
        ActionView::ReadProbe,
        ActionView::KillOthers,
        ActionView::UsageAfter,
        ActionView::LeafMemory(Leaf::Sub),
    ];
    lemma_no_others(front);
    lemma_no_others(back);
    if entry.kind == Kind::FanIn {
        let producer = crate::cell::peer_args_of(entry, "pub"@, endpoint, false, window_of(entry));
        let head = seq![
            start(
                entry,
                "measured sink"@,
                crate::cell::peer_args_of(entry, "sub"@, endpoint, true, window_of(entry)),
                true,
                Output::Piped,
                false,
                Leaf::Sub,
            ),
            ActionView::Sleep(200),
        ];
        let a = start(entry, "producer"@, producer, false, Output::Inherit, true, Leaf::Pub);
        lemma_no_others(head);
        lemma_others_repeated(a, workers_of(entry));
        lemma_others_join(head, repeated(a, workers_of(entry)));
        lemma_others_join(front, consumer_binds_starts(entry, endpoint));
        lemma_others_join(front + consumer_binds_starts(entry, endpoint), back);
    } else {
        let consumer = crate::cell::peer_args_of(entry, "sub"@, endpoint, false, window_of(entry));
        let first = start(
            entry,
            "producer"@,
            crate::cell::peer_args_of(entry, "pub"@, endpoint, true, window_of(entry)),
            false,
            Output::Inherit,
            false,
            Leaf::Pub,
        );
        let rest = seq![
            ActionView::Sleep(200),
            start(entry, "measured consumer"@, consumer, true, Output::Piped, false, Leaf::Sub),
        ];
        let head = seq![first] + rest;
        let a = start(entry, "drain consumer"@, consumer, false, Output::Null, true, Leaf::Sub);
        let n = (workers_of(entry) - 1) as nat;
        lemma_no_others(rest);
        lemma_others_repeated(first, 1);
        assert(seq![first] =~= repeated(first, 1));
        lemma_others_join(seq![first], rest);
        lemma_others_repeated(a, n);
        lemma_others_join(head, repeated(a, n));
        assert(head + repeated(a, n) =~= producer_binds_starts(entry, endpoint));
        lemma_others_join(front, producer_binds_starts(entry, endpoint));
        lemma_others_join(front + producer_binds_starts(entry, endpoint), back);
    }
}

proof fn lemma_no_others(s: Seq<ActionView>)
    requires
        forall|i: int| 0 <= i < s.len() ==> !starts_other(#[trigger] s[i]),
    ensures
        others_in(s) == 0,
    decreases s.len(),
{
    if s.len() > 0 {
        assert(!starts_other(s[s.len() - 1]));
        assert forall|i: int| 0 <= i < s.drop_last().len() implies !starts_other(
            #[trigger] s.drop_last()[i],
        ) by {
            assert(!starts_other(s[i]));
        }
        lemma_no_others(s.drop_last());
    }
}

} // verus!
