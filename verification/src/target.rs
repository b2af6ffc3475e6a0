//! The contract that every target honours: one command line, one role in each
//! kind, and a socket of its own engine.
use vstd::prelude::*;
use crate::config::Kind;
use crate::loops::{Drain, OnError, Style};
use crate::number::{decimal, parse_i32, parse_unsigned, signed_decimal};
use crate::sorted_map::SortedMap;
use crate::text::{ascii_lowercase, lines, same, split_once, starts_with, strip_prefix, trim};

verus! {

/// How the sockets of the `monocoque` engine are driven.
#[derive(Clone, Copy, Debug, PartialEq, Eq, Structural)]
pub enum Backend {
    Compio,
    Tokio,
    Smol,
}

/// The engines, each reached in its own way.
#[derive(Clone, Copy, Debug, PartialEq, Eq, Structural)]
pub enum Engine {
    /// libzmq through the synchronous `zmq` binding.
    RustZmq,
    /// The `zeromq` crate.
    ZmqRs,
    Celerity,
    /// libzmq through `tmq`, that binding wrapped in futures.
    Tmq,
    Rzmq,
    Monocoque(Backend),
    /// omq in a runtime of the target's own.
    OmqTokio,
    /// omq's synchronous sockets over threads of its own.
    OmqBlocking,
}

/// The producing or the consuming end of a cell.
#[derive(Clone, Copy, Debug, PartialEq, Eq, Structural)]
pub enum Role {
    Pub,
    Sub,
}

/// A socket type.
#[derive(Clone, Copy, Debug, PartialEq, Eq, Structural)]
pub enum Socket {
    Push,
    Pull,
    Req,
    Rep,
    Publish,
    Subscribe,
}

/// The socket of a role: what it is depends on the kind alone.
pub open spec fn socket_of(kind: Kind, role: Role) -> Socket {
    match (kind, role) {
        (Kind::Throughput, Role::Pub) => Socket::Push,
        (Kind::Throughput, Role::Sub) => Socket::Pull,
        (Kind::Latency, Role::Pub) => Socket::Req,
        (Kind::Latency, Role::Sub) => Socket::Rep,
        (Kind::PubSub, Role::Pub) => Socket::Publish,
        (Kind::PubSub, Role::Sub) => Socket::Subscribe,
        (Kind::FanOut, Role::Pub) => Socket::Push,
        (Kind::FanOut, Role::Sub) => Socket::Pull,
        (Kind::FanIn, Role::Pub) => Socket::Push,
        (Kind::FanIn, Role::Sub) => Socket::Pull,
    }
}

/// The role that binds: the producer where one of it faces many consumers, else
/// the consumer.
pub open spec fn binding_role(kind: Kind) -> Role {
    match kind {
        Kind::PubSub => Role::Pub,
        Kind::FanOut => Role::Pub,
        Kind::Throughput => Role::Sub,
        Kind::Latency => Role::Sub,
        Kind::FanIn => Role::Sub,
    }
}

/// Whether two socket types talk to each other.
pub open spec fn compatible(a: Socket, b: Socket) -> bool {
    match a {
        Socket::Push => b == Socket::Pull,
        Socket::Pull => b == Socket::Push,
        Socket::Req => b == Socket::Rep,
        Socket::Rep => b == Socket::Req,
        Socket::Publish => b == Socket::Subscribe,
        Socket::Subscribe => b == Socket::Publish,
    }
}

/// What a role does with its socket.
#[derive(Clone, Copy, Debug, PartialEq, Eq, Structural)]
pub enum Work {
    /// Send so many messages, flushing every so many (never for zero).
    SendCount { total: u64, flush_every: u64 },
    /// Send until killed, flushing every so many (never for zero).
    SendForever { flush_every: u64, on_error: OnError },
    /// Receive so many messages and report nothing.
    ReceiveAll { total: u64 },
    /// Receive the warmup, then time the measured block and report it.
    Measure { style: Style },
    /// Send back what arrives, until the peer is gone.
    Echo { on_receive_error: OnError, on_send_error: OnError },
    /// Make the round trips and report their quantiles.
    RoundTrips,
    /// Count for the window and report the count; `must_hear` is whether it fails
    /// where the peer is gone before anything arrived.
    Count { drain: Drain, must_hear: bool },
}

/// A role's part in a cell.
#[derive(Clone, Copy, Debug, PartialEq, Eq, Structural)]
pub struct Job {
    pub socket: Socket,
    /// Whether it binds; else it connects.
    pub binds: bool,
    pub work: Work,
}

/// The peers of a cell, one at least.
pub open spec fn at_least_one(peers: Option<u32>) -> u32 {
    match peers {
        Some(p) => if p >= 1 {
            p
        } else {
            1
        },
        None => 1,
    }
}

/// The peers of a cell, one at least.
pub fn peers_or_one(peers: Option<u32>) -> (r: u32)
    ensures
        r == at_least_one(peers),
        r >= 1,
{
    match peers {
        Some(p) => if p >= 1 {
            p
        } else {
            1
        },
        None => 1,
    }
}

/// Whether an engine can serve a kind: zmq.rs does not multiplex peers on the
/// bound side, and celerity has no PUSH/PULL.
pub open spec fn serves(engine: Engine, kind: Kind) -> bool {
    match engine {
        Engine::ZmqRs => kind != Kind::FanOut && kind != Kind::FanIn,
        Engine::Celerity => kind == Kind::Latency || kind == Kind::PubSub,
        _ => true,
    }
}

/// How an engine's consumer of a counted block takes what is not a message.
pub open spec fn block_style(engine: Engine) -> Style {
    match engine {
        Engine::Tmq => Style::Stream,
        Engine::Monocoque(_) => Style::Draining,
        _ => Style::Strict,
    }
}

/// Whether an engine's producer sends a fixed count. The others send until they
/// are killed: their sends are queued, so a producer that exits on a count can
/// strand messages, and the consumer's count is the only stop condition.
pub open spec fn counts_sends(engine: Engine) -> bool {
    engine == Engine::RustZmq || engine == Engine::ZmqRs || engine is Monocoque
}

/// How an engine's counting consumer drains.
pub open spec fn drain_of(engine: Engine, kind: Kind) -> Drain {
    match engine {
        Engine::OmqTokio => Drain::Freely,
        Engine::OmqBlocking => Drain::InTime,
        Engine::Monocoque(_) => match kind {
            Kind::FanOut => Drain::Freely,
            Kind::FanIn => Drain::InTime,
            _ => Drain::Never,
        },
        _ => Drain::Never,
    }
}

/// How many sends make a batch: coalesced writes are flushed every 64 sends per
/// worker.
pub open spec fn batch_of(engine: Engine, kind: Kind, peers: Option<u32>) -> u64 {
    match engine {
        Engine::Monocoque(_) => match kind {
            Kind::Throughput => 64,
            Kind::FanIn => 64,
            Kind::FanOut => (64 * at_least_one(peers)) as u64,
            _ => 0,
        },
        _ => 0,
    }
}

/// What an engine's endless producer makes of a failed send.
pub open spec fn forever_error(engine: Engine) -> OnError {
    if engine is Monocoque {
        OnError::Ignore
    } else {
        OnError::Stop
    }
}

/// What a role does with its socket.
pub open spec fn work_of(
    engine: Engine,
    kind: Kind,
    role: Role,
    total: int,
    peers: Option<u32>,
) -> Work {
    let batch = batch_of(engine, kind, peers);
    match (kind, role) {
        (Kind::Latency, Role::Pub) => Work::RoundTrips,
        (Kind::Latency, Role::Sub) => match engine {
            Engine::RustZmq => Work::Echo {
                on_receive_error: OnError::Stop,
                on_send_error: OnError::Fail,
            },
            Engine::Monocoque(_) => Work::Echo {
                on_receive_error: OnError::Fail,
                on_send_error: OnError::Fail,
            },
            _ => Work::Echo { on_receive_error: OnError::Stop, on_send_error: OnError::Stop },
        },
        (Kind::Throughput, Role::Sub) => if engine == Engine::RustZmq {
            Work::ReceiveAll { total: total as u64 }
        } else {
            Work::Measure { style: block_style(engine) }
        },
        (Kind::Throughput, Role::Pub) => if counts_sends(engine) {
            Work::SendCount { total: total as u64, flush_every: batch }
        } else {
            Work::SendForever { flush_every: batch, on_error: forever_error(engine) }
        },
        (_, Role::Pub) => Work::SendForever {
            flush_every: batch,
            on_error: forever_error(engine),
        },
        (_, Role::Sub) => Work::Count {
            drain: drain_of(engine, kind),
            must_hear: engine == Engine::RustZmq,
        },
    }
}

/// A role's part in a cell of an engine that serves the kind.
pub fn job(
    engine: Engine,
    kind: Kind,
    role: Role,
    messages: u64,
    warmup: u64,
    peers: Option<u32>,
) -> (j: Job)
    requires
        serves(engine, kind),
        kind == Kind::Throughput && counts_sends(engine) && !(engine == Engine::ZmqRs && role
            == Role::Sub) ==> messages + warmup <= u64::MAX,
    ensures
        j.socket == socket_of(kind, role),
        j.binds == (role == binding_role(kind)),
        j.work == work_of(engine, kind, role, messages + warmup, peers),
{
    let workers: u32 = peers_or_one(peers);
    let monocoque: bool = match engine {
        Engine::Monocoque(_) => true,
        _ => false,
    };
    let batch: u64 = if !monocoque {
        0
    } else {
        match kind {
            Kind::Throughput | Kind::FanIn => 64,
            Kind::FanOut => 64 * workers as u64,
            _ => 0,
        }
    };
    let endless = Work::SendForever {
        flush_every: batch,
        on_error: if monocoque {
            OnError::Ignore
        } else {
            OnError::Stop
        },
    };
    let drain = match engine {
        Engine::OmqTokio => Drain::Freely,
        Engine::OmqBlocking => Drain::InTime,
        Engine::Monocoque(_) => match kind {
            Kind::FanOut => Drain::Freely,
            Kind::FanIn => Drain::InTime,
            _ => Drain::Never,
        },
        _ => Drain::Never,
    };
    let counting = Work::Count {
        drain,
        must_hear: match engine {
            Engine::RustZmq => true,
            _ => false,
        },
    };
    match role {
        Role::Pub => match kind {
            Kind::Throughput => {
                let work = match engine {
                    Engine::RustZmq | Engine::ZmqRs | Engine::Monocoque(_) => Work::SendCount {
                        total: messages + warmup,
                        flush_every: batch,
                    },
                    _ => endless,
                };
                Job { socket: Socket::Push, binds: false, work }
            },
            Kind::Latency => Job { socket: Socket::Req, binds: false, work: Work::RoundTrips },
            Kind::PubSub => Job { socket: Socket::Publish, binds: true, work: endless },
            Kind::FanOut => Job { socket: Socket::Push, binds: true, work: endless },
            Kind::FanIn => Job { socket: Socket::Push, binds: false, work: endless },
        },
        Role::Sub => match kind {
            Kind::Throughput => {
                let work = match engine {
                    Engine::RustZmq => Work::ReceiveAll { total: messages + warmup },
                    Engine::Tmq => Work::Measure { style: Style::Stream },
                    Engine::Monocoque(_) => Work::Measure { style: Style::Draining },
                    _ => Work::Measure { style: Style::Strict },
                };
                Job { socket: Socket::Pull, binds: true, work }
            },
            Kind::Latency => {
                let work = match engine {
                    Engine::RustZmq => Work::Echo {
                        on_receive_error: OnError::Stop,
                        on_send_error: OnError::Fail,
                    },
                    Engine::Monocoque(_) => Work::Echo {
                        on_receive_error: OnError::Fail,
                        on_send_error: OnError::Fail,
                    },
                    _ => Work::Echo {
                        on_receive_error: OnError::Stop,
                        on_send_error: OnError::Stop,
                    },
                };
                Job { socket: Socket::Rep, binds: true, work }
            },
            Kind::PubSub => Job { socket: Socket::Subscribe, binds: false, work: counting },
            Kind::FanOut => Job { socket: Socket::Pull, binds: false, work: counting },
            Kind::FanIn => Job { socket: Socket::Pull, binds: true, work: counting },
        },
    }
}

/// In every kind exactly one of the two roles binds, and their sockets talk to
/// each other.
pub proof fn law_roles_meet(kind: Kind)
    ensures
        compatible(socket_of(kind, Role::Pub), socket_of(kind, Role::Sub)),
        (Role::Pub == binding_role(kind)) != (Role::Sub == binding_role(kind)),
{
}

/// A throughput producer with a count sends exactly what its consumer takes,
/// warmup and measured block together: the consumer receives that many, or it
/// is one that measures a block (see
/// [`crate::loops::law_block_takes_its_messages`]).
pub proof fn law_counted_producer_matches_consumer(
    engine: Engine,
    messages: int,
    warmup: int,
    peers: Option<u32>,
)
    requires
        counts_sends(engine),
        0 <= messages,
        0 <= warmup,
        messages + warmup <= u64::MAX,
    ensures
        work_of(engine, Kind::Throughput, Role::Pub, messages + warmup, peers) matches Work::SendCount {
            total,
            ..
        } && total == messages + warmup,
        match work_of(engine, Kind::Throughput, Role::Sub, messages + warmup, peers) {
            Work::ReceiveAll { total } => total == messages + warmup,
            Work::Measure { .. } => true,
            _ => false,
        },
{
}

/// The kind that a word stands for.
pub open spec fn kind_named(s: Seq<char>) -> Option<Kind> {
    if s == "throughput"@ {
        Some(Kind::Throughput)
    } else if s == "latency"@ {
        Some(Kind::Latency)
    } else if s == "pubsub"@ {
        Some(Kind::PubSub)
    } else if s == "fanout"@ {
        Some(Kind::FanOut)
    } else if s == "fanin"@ {
        Some(Kind::FanIn)
    } else {
        None
    }
}

/// The kind that a word stands for.
pub fn parse_kind(s: &str) -> (r: Option<Kind>)
    ensures
        r == kind_named(s@),
{
    if same(s, "throughput") {
        Some(Kind::Throughput)
    } else if same(s, "latency") {
        Some(Kind::Latency)
    } else if same(s, "pubsub") {
        Some(Kind::PubSub)
    } else if same(s, "fanout") {
        Some(Kind::FanOut)
    } else if same(s, "fanin") {
        Some(Kind::FanIn)
    } else {
        None
    }
}

/// The word that the harness hands to a target is read as the kind that it
/// stands for.
pub proof fn law_kind_token_reads_back(k: Kind)
    ensures
        kind_named(crate::config::kind_token(k)) == Some(k),
{
    reveal_strlit("throughput");
    reveal_strlit("latency");
    reveal_strlit("pubsub");
    reveal_strlit("fanout");
    reveal_strlit("fanin");
    assert("throughput"@.len() == 10 && "latency"@.len() == 7 && "pubsub"@.len() == 6
        && "fanout"@.len() == 6 && "fanin"@.len() == 5);
    assert("pubsub"@[0] == 'p' && "fanout"@[0] == 'f');
}

/// What an engine is called in its messages.
pub open spec fn label_of(engine: Engine) -> Seq<char> {
    match engine {
        Engine::RustZmq => "rust-zmq"@,
        Engine::ZmqRs => "zmq.rs"@,
        Engine::Celerity => "celerity"@,
        Engine::Tmq => "tmq"@,
        Engine::Rzmq => "rzmq"@,
        Engine::Monocoque(_) => "monocoque"@,
        Engine::OmqTokio => "omq-tokio"@,
        Engine::OmqBlocking => "omq blocking"@,
    }
}

fn label(engine: Engine) -> (r: &'static str)
    ensures
        r@ == label_of(engine),
{
    match engine {
        Engine::RustZmq => "rust-zmq",
        Engine::ZmqRs => "zmq.rs",
        Engine::Celerity => "celerity",
        Engine::Tmq => "tmq",
        Engine::Rzmq => "rzmq",
        Engine::Monocoque(_) => "monocoque",
        Engine::OmqTokio => "omq-tokio",
        Engine::OmqBlocking => "omq blocking",
    }
}

/// Why an engine does not run a kind, given the word for it, if it does not.
pub open spec fn unserved(engine: Engine, word: Seq<char>) -> Option<Seq<char>> {
    let kind = kind_named(word);
    if kind is Some && serves(engine, kind->0) {
        None
    } else if engine == Engine::Celerity {
        Some(
            "celerity: kind '"@ + word
                + "' not supported. celerity 0.1.1 has no PUSH/PULL, so throughput, fan-out and fan-in cannot be run against it."@,
        )
    } else if kind == Some(Kind::FanOut) {
        Some(
            "zmq.rs (zeromq 0.6) does not support fan-out in this harness: a bound PUSH socket does not round-robin to connecting PULL peers. Supported kinds: throughput, latency, pubsub."@,
        )
    } else if kind == Some(Kind::FanIn) {
        Some(
            "zmq.rs (zeromq 0.6) does not support fan-in in this harness: a bound PULL socket does not fair-queue across multiple connecting PUSH peers. Supported kinds: throughput, latency, pubsub."@,
        )
    } else {
        Some(label_of(engine) + ": kind '"@ + word + "' not implemented"@)
    }
}

/// Whether an endpoint is one of the tcp transport.
pub open spec fn is_tcp(ep: Seq<char>) -> bool {
    crate::text::begins(ep, "tcp://"@)
}

/// Why an engine does not run a multi-peer kind over an endpoint, if it does
/// not: these kinds are tcp only.
pub open spec fn not_tcp(engine: Engine, kind: Kind, ep: Seq<char>) -> Option<Seq<char>> {
    let front = label_of(engine) + " "@ + crate::config::kind_token(kind);
    if !crate::script::is_multipeer(kind) || is_tcp(ep) {
        None
    } else {
        match engine {
            Engine::RustZmq => Some(front + ": tcp only (got "@ + ep + ")"@),
            Engine::ZmqRs => Some(front + ": tcp only (got "@ + ep + ")"@),
            Engine::Celerity => Some(front + ": tcp only, got "@ + ep),
            Engine::Tmq => Some(front + ": tcp only, got "@ + ep),
            Engine::Rzmq => Some(front + ": tcp only, got "@ + ep),
            Engine::Monocoque(_) => Some(front + ": tcp only for now"@),
            Engine::OmqTokio => None,
            Engine::OmqBlocking => None,
        }
    }
}

/// Why an engine does not run a kind over an endpoint, if it does not.
pub open spec fn refusal_of(engine: Engine, word: Seq<char>, ep: Seq<char>) -> Option<Seq<char>> {
    match unserved(engine, word) {
        Some(e) => Some(e),
        None => not_tcp(engine, kind_named(word)->0, ep),
    }
}

/// That a multi-peer kind runs over tcp, for the engines that ask for it.
pub fn require_tcp(engine: Engine, kind: Kind, ep: &str) -> (r: Result<(), String>)
    ensures
        match r {
            Ok(_) => not_tcp(engine, kind, ep@) is None,
            Err(e) => not_tcp(engine, kind, ep@) == Some(e@),
        },
{
    let multipeer: bool = match kind {
        Kind::PubSub | Kind::FanOut | Kind::FanIn => true,
        Kind::Throughput | Kind::Latency => false,
    };
    if !multipeer || starts_with(ep, "tcp://") {
        return Ok(());
    }
    let mut s = label(engine).to_owned();
    s.append(" ");
    s.append(kind.token());
    match engine {
        Engine::RustZmq | Engine::ZmqRs => {
            s.append(": tcp only (got ");
            s.append(ep);
            s.append(")");
            Err(s)
        },
        Engine::Celerity | Engine::Tmq | Engine::Rzmq => {
            s.append(": tcp only, got ");
            s.append(ep);
            Err(s)
        },
        Engine::Monocoque(_) => {
            s.append(": tcp only for now");
            Err(s)
        },
        Engine::OmqTokio | Engine::OmqBlocking => Ok(()),
    }
}

fn unserved_text(engine: Engine, word: &str, kind: Option<Kind>) -> (r: String)
    requires
        kind == kind_named(word@),
        unserved(engine, word@) is Some,
    ensures
        unserved(engine, word@) == Some(r@),
{
    match engine {
        Engine::Celerity => {
            let mut s = "celerity: kind '".to_owned();
            s.append(word);
            s.append(
                "' not supported. celerity 0.1.1 has no PUSH/PULL, so throughput, fan-out and fan-in cannot be run against it.",
            );
            return s;
        },
        _ => {},
    }
    match kind {
        Some(Kind::FanOut) => {
            "zmq.rs (zeromq 0.6) does not support fan-out in this harness: a bound PUSH socket does not round-robin to connecting PULL peers. Supported kinds: throughput, latency, pubsub.".to_owned()
        },
        Some(Kind::FanIn) => {
            "zmq.rs (zeromq 0.6) does not support fan-in in this harness: a bound PULL socket does not fair-queue across multiple connecting PUSH peers. Supported kinds: throughput, latency, pubsub.".to_owned()
        },
        _ => {
            let mut s = label(engine).to_owned();
            s.append(": kind '");
            s.append(word);
            s.append("' not implemented");
            s
        },
    }
}

/// The kind that an engine is to run over an endpoint, or why it does not run
/// it.
pub fn dispatch(engine: Engine, word: &str, ep: &str) -> (r: Result<Kind, String>)
    ensures
        match r {
            Ok(k) => {
                &&& refusal_of(engine, word@, ep@) is None
                &&& kind_named(word@) == Some(k)
                &&& serves(engine, k)
            },
            Err(e) => refusal_of(engine, word@, ep@) == Some(e@),
        },
{
    let kind = parse_kind(word);
    let served: bool = match kind {
        Some(k) => match engine {
            Engine::ZmqRs => match k {
                Kind::FanOut | Kind::FanIn => false,
                _ => true,
            },
            Engine::Celerity => match k {
                Kind::Latency | Kind::PubSub => true,
                _ => false,
            },
            _ => true,
        },
        None => false,
    };
    match kind {
        Some(k) => {
            if !served {
                return Err(unserved_text(engine, word, kind));
            }
            match require_tcp(engine, k, ep) {
                Ok(_) => Ok(k),
                Err(e) => Err(e),
            }
        },
        None => Err(unserved_text(engine, word, kind)),
    }
}

/// Why a target whose socket loop does not exist cannot take a role.
pub fn stub_refusal(role: Role) -> (r: String)
    ensures
        r@ == (match role {
            Role::Pub => "omq-compio publisher loop not implemented"@,
            Role::Sub => "omq-compio subscriber loop not implemented"@,
        }),
{
    match role {
        Role::Pub => "omq-compio publisher loop not implemented".to_owned(),
        Role::Sub => "omq-compio subscriber loop not implemented".to_owned(),
    }
}

/// Whether omq takes a text for an endpoint.
pub uninterp spec fn omq_takes(s: Seq<char>) -> bool;

/// `omq_tokio::Endpoint::from_str`: whether it succeeds depends on the text
/// alone, and it fails on a text without `://`.
#[verifier::external_body]
fn omq_parses(s: &str) -> (r: bool)
    ensures
        r == omq_takes(s@),
        r ==> crate::text::holds(s@, "://"@),
{
    s.parse::<omq_tokio::Endpoint>().is_ok()
}

/// That omq takes a text for an endpoint.
pub fn omq_endpoint(ep: &str) -> (r: Result<(), String>)
    ensures
        match r {
            Ok(_) => omq_takes(ep@) && crate::text::holds(ep@, "://"@),
            Err(e) => !omq_takes(ep@) && e@ == "invalid endpoint: "@ + ep@,
        },
{
    let taken: bool = omq_parses(ep);
    omq_verdict(taken, ep)
}

/// What is made of whether omq takes a text for an endpoint.
pub fn omq_verdict(taken: bool, ep: &str) -> (r: Result<(), String>)
    ensures
        match r {
            Ok(_) => taken,
            Err(e) => !taken && e@ == "invalid endpoint: "@ + ep@,
        },
{
    if taken {
        Ok(())
    } else {
        let mut s = "invalid endpoint: ".to_owned();
        s.append(ep);
        Err(s)
    }
}

/// An endpoint as `monocoque` takes it.
pub enum Endpoint {
    /// The address behind `tcp://`.
    Tcp(String),
    /// The path behind `ipc://`.
    Ipc(String),
}

/// Splits an endpoint into its transport and the rest. Whether the rest of a tcp
/// endpoint is an address is for the caller to see.
pub fn parse_endpoint(ep: &str) -> (r: Result<Endpoint, String>)
    ensures
        match r {
            Ok(Endpoint::Tcp(a)) => crate::text::after_prefix(ep@, "tcp://"@) == Some(a@),
            Ok(Endpoint::Ipc(p)) => {
                &&& crate::text::after_prefix(ep@, "tcp://"@) is None
                &&& crate::text::after_prefix(ep@, "ipc://"@) == Some(p@)
            },
            Err(e) => {
                &&& crate::text::after_prefix(ep@, "tcp://"@) is None
                &&& crate::text::after_prefix(ep@, "ipc://"@) is None
                &&& e@ == "unsupported endpoint (need tcp:// or ipc://): "@ + ep@
            },
        },
{
    if let Some(a) = strip_prefix(ep, "tcp://") {
        return Ok(Endpoint::Tcp(a));
    }
    if let Some(p) = strip_prefix(ep, "ipc://") {
        return Ok(Endpoint::Ipc(p));
    }
    let mut s = "unsupported endpoint (need tcp:// or ipc://): ".to_owned();
    s.append(ep);
    Err(s)
}

/// The endpoints that the harness makes are split into their transport and the
/// path or address that went into them.
pub proof fn law_endpoints_read_back(rest: Seq<char>)
    ensures
        crate::text::after_prefix("tcp://"@ + rest, "tcp://"@) == Some(rest),
        crate::text::after_prefix("ipc://"@ + rest, "tcp://"@) is None,
        crate::text::after_prefix("ipc://"@ + rest, "ipc://"@) == Some(rest),
{
    reveal_strlit("tcp://");
    reveal_strlit("ipc://");
    let t = "tcp://"@ + rest;
    let i = "ipc://"@ + rest;
    assert(t.subrange(0, 6) =~= "tcp://"@);
    assert(t.skip(6) =~= rest);
    assert(i.subrange(0, 6) =~= "ipc://"@);
    assert(i.skip(6) =~= rest);
    assert(i.subrange(0, 6)[0] == 'i');
    assert("tcp://"@[0] == 't');
}

/// The two sides of a knob setting, without the white space around them.
pub open spec fn knob_parts(s: Seq<char>) -> Option<(Seq<char>, Seq<char>)> {
    match crate::text::parts_at(s, '=') {
        Some((k, v)) => Some((crate::text::trimmed(k), crate::text::trimmed(v))),
        None => None,
    }
}

/// Reads a `key=value` knob setting.
pub fn parse_knob(s: &str) -> (r: Result<(String, String), String>)
    ensures
        match r {
            Ok((k, v)) => knob_parts(s@) == Some((k@, v@)),
            Err(e) => knob_parts(s@) is None && e@ == "knob must be key=value, got `"@ + s@ + "`"@,
        },
{
    match split_once(s, '=') {
        Some((k, v)) => Ok((trim(k.as_str()), trim(v.as_str()))),
        None => {
            let mut e = "knob must be key=value, got `".to_owned();
            e.append(s);
            e.append("`");
            Err(e)
        },
    }
}

/// The settings as a map, a later one over an earlier one of the same key.
pub open spec fn knobs_of(list: Seq<(String, String)>) -> Map<Seq<char>, String>
    decreases list.len(),
{
    if list.len() == 0 {
        Map::empty()
    } else {
        knobs_of(list.drop_last()).insert(list.last().0@, list.last().1)
    }
}

/// The setting that an environment variable `ARENA_KNOB_<KEY>` makes: its key is
/// in lower case.
pub open spec fn env_setting(name: Seq<char>) -> Option<Seq<char>> {
    match crate::text::after_prefix(name, "ARENA_KNOB_"@) {
        Some(k) => Some(k.map_values(|c: char| crate::text::ascii_lower(c))),
        None => None,
    }
}

/// The settings that a list of environment variables makes, as a map.
pub open spec fn env_knobs_of(vars: Seq<(String, String)>) -> Map<Seq<char>, String>
    decreases vars.len(),
{
    if vars.len() == 0 {
        Map::empty()
    } else {
        let rest = env_knobs_of(vars.drop_last());
        match env_setting(vars.last().0@) {
            Some(k) => rest.insert(k, vars.last().1),
            None => rest,
        }
    }
}

/// The settings of the command line over those of the environment.
pub open spec fn all_knobs(
    vars: Seq<(String, String)>,
    list: Seq<(String, String)>,
) -> Map<Seq<char>, String> {
    env_knobs_of(vars).union_prefer_right(knobs_of(list))
}

/// The settings of a target: those of the environment, and over them those of
/// the command line.
pub fn merged_knobs(vars: &Vec<(String, String)>, list: &Vec<(String, String)>) -> (r: SortedMap<
    String,
    String,
>)
    ensures
        r.wf(),
        r@ == all_knobs(vars@, list@),
{
    let mut out: SortedMap<String, String> = SortedMap::new();
    let mut i: usize = 0;
    assert(vars@.take(0) =~= Seq::empty());
    while i < vars.len()
        invariant
            i <= vars@.len(),
            out.wf(),
            out@ == env_knobs_of(vars@.take(i as int)),
        decreases vars@.len() - i,
    {
        assert(vars@.take(i + 1).drop_last() =~= vars@.take(i as int));
        if let Some(k) = strip_prefix(vars[i].0.as_str(), "ARENA_KNOB_") {
            out.insert(ascii_lowercase(k.as_str()), vars[i].1.clone());
        }
        i += 1;
    }
    assert(vars@.take(vars@.len() as int) =~= vars@);
    let ghost env = out@;
    let mut j: usize = 0;
    assert(list@.take(0) =~= Seq::empty());
    assert(out@ =~= env.union_prefer_right(knobs_of(list@.take(0))));
    while j < list.len()
        invariant
            j <= list@.len(),
            out.wf(),
            out@ == env.union_prefer_right(knobs_of(list@.take(j as int))),
        decreases list@.len() - j,
    {
        assert(list@.take(j + 1).drop_last() =~= list@.take(j as int));
        out.insert(list[j].0.clone(), list[j].1.clone());
        j += 1;
        assert(out@ =~= env.union_prefer_right(knobs_of(list@.take(j as int))));
    }
    assert(list@.take(list@.len() as int) =~= list@);
    out
}

/// A knob of the command line wins over one of the environment, and one that
/// the command line does not set is the environment's.
pub proof fn law_command_line_wins(
    vars: Seq<(String, String)>,
    list: Seq<(String, String)>,
    key: Seq<char>,
)
    ensures
        knobs_of(list).dom().contains(key) ==> all_knobs(vars, list).dom().contains(key)
            && all_knobs(vars, list)[key] == knobs_of(list)[key],
        !knobs_of(list).dom().contains(key) && env_knobs_of(vars).dom().contains(key)
            ==> all_knobs(vars, list).dom().contains(key) && all_knobs(vars, list)[key]
            == env_knobs_of(vars)[key],
{
}

/// The number that a knob sets, if it is set to one.
pub open spec fn knob_number_of(knobs: Map<Seq<char>, String>, key: Seq<char>) -> Option<int> {
    if knobs.dom().contains(key) {
        crate::number::i32_of(knobs[key]@)
    } else {
        None
    }
}

/// The number that a knob (`io_threads`, `sndhwm`, `rcvhwm`) sets, if it is set
/// to one.
pub fn knob_number(knobs: &SortedMap<String, String>, key: &str) -> (r: Option<i32>)
    requires
        knobs.wf(),
    ensures
        match r {
            Some(n) => knob_number_of(knobs@, key@) == Some(n as int),
            None => knob_number_of(knobs@, key@) is None,
        },
{
    let k: String = key.to_owned();
    match knobs.get(&k) {
        Some(v) => parse_i32(v.as_str()),
        None => None,
    }
}

/// The position of the first setting of `key` at or after `i`, or their number.
pub open spec fn first_setting(list: Seq<Seq<char>>, key: Seq<char>, i: int) -> int
    decreases list.len() - i,
{
    if i >= list.len() {
        list.len() as int
    } else if sets(list[i], key) {
        i
    } else {
        first_setting(list, key, i + 1)
    }
}

/// Whether a text is a setting of `key`.
pub open spec fn sets(s: Seq<char>, key: Seq<char>) -> bool {
    crate::text::parts_at(s, '=') matches Some(p) && p.0 == key
}

/// The value of the first setting of `key`.
pub open spec fn knob_of(list: Seq<Seq<char>>, key: Seq<char>) -> Option<Seq<char>> {
    let i = first_setting(list, key, 0);
    if i < list.len() {
        let p = crate::text::parts_at(list[i], '=')->0;
        Some(p.1)
    } else {
        None
    }
}

/// Looks a `key=value` knob up. Unknown keys are ignored rather than rejected,
/// so that a matrix can carry a knob for one engine without breaking the others.
pub fn knob(list: &Vec<String>, key: &str) -> (r: Option<String>)
    ensures
        crate::text::opt_view(r) == knob_of(crate::text::views(list@), key@),
{
    let ghost all = crate::text::views(list@);
    let mut i: usize = 0;
    while i < list.len()
        invariant
            i <= list@.len(),
            all == crate::text::views(list@),
            first_setting(all, key@, 0) == first_setting(all, key@, i as int),
        decreases list@.len() - i,
    {
        assert(all[i as int] == list@[i as int]@);
        if let Some((k, v)) = split_once(list[i].as_str(), '=') {
            if same(k.as_str(), key) {
                return Some(v);
            }
        }
        i += 1;
    }
    None
}

/// The value of a knob: that of its first setting on the command line, else that
/// of the environment, if it is set at all.
pub open spec fn knob_value(
    vars: Seq<(String, String)>,
    list: Seq<Seq<char>>,
    key: Seq<char>,
) -> Option<Seq<char>> {
    match knob_of(list, key) {
        Some(v) => Some(v),
        None => if env_knobs_of(vars).dom().contains(key) {
            Some(env_knobs_of(vars)[key]@)
        } else {
            None
        },
    }
}

/// The publisher's worker threads: as the knob `pub_workers` says, one where it
/// says nothing. Zero asks for the engine's own default.
pub open spec fn workers_of(vars: Seq<(String, String)>, list: Seq<Seq<char>>) -> nat {
    match knob_value(vars, list, "pub_workers"@) {
        Some(v) => match crate::number::unsigned_up_to(v, u64::MAX as nat) {
            Some(n) => n,
            None => 1,
        },
        None => 1,
    }
}

/// The publisher's worker threads, by the knobs of the command line and of the
/// environment.
pub fn pub_workers(vars: &Vec<(String, String)>, list: &Vec<String>) -> (r: u64)
    ensures
        r == workers_of(vars@, crate::text::views(list@)),
{
    let set = match knob(list, "pub_workers") {
        Some(v) => Some(v),
        None => {
            let none: Vec<(String, String)> = Vec::new();
            let env = merged_knobs(vars, &none);
            assert(env@ =~= env_knobs_of(vars@));
            let key: String = "pub_workers".to_owned();
            match env.get(&key) {
                Some(v) => Some(v.clone()),
                None => None,
            }
        },
    };
    match set {
        Some(v) => match parse_unsigned(v.as_str(), u64::MAX) {
            Some(n) => n,
            None => 1,
        },
        None => 1,
    }
}

/// The position of the first argument at or after `i` that is `flag`, or their
/// number.
pub open spec fn first_equal(args: Seq<Seq<char>>, flag: Seq<char>, i: int) -> int
    decreases args.len() - i,
{
    if i >= args.len() {
        args.len() as int
    } else if args[i] == flag {
        i
    } else {
        first_equal(args, flag, i + 1)
    }
}

/// The argument behind the first `flag`, if there is one.
pub open spec fn value_of(args: Seq<Seq<char>>, flag: Seq<char>) -> Option<Seq<char>> {
    let i = first_equal(args, flag, 0);
    if i + 1 < args.len() {
        Some(args[i + 1])
    } else {
        None
    }
}

/// The argument behind the first `flag`, if there is one.
pub fn arg_value(args: &Vec<String>, flag: &str) -> (r: Option<String>)
    ensures
        crate::text::opt_view(r) == value_of(crate::text::views(args@), flag@),
{
    let ghost all = crate::text::views(args@);
    let mut i: usize = 0;
    while i < args.len()
        invariant
            i <= args@.len(),
            all == crate::text::views(args@),
            first_equal(all, flag@, 0) == first_equal(all, flag@, i as int),
        decreases args@.len() - i,
    {
        assert(all[i as int] == args@[i as int]@);
        if same(args[i].as_str(), flag) {
            if i + 1 < args.len() {
                assert(all[i + 1] == args@[i + 1]@);
                return Some(args[i + 1].clone());
            }
            return None;
        }
        i += 1;
    }
    None
}

/// The runtimes that one omq binary offers.
#[derive(Clone, Copy, Debug, PartialEq, Eq, Structural)]
pub enum OmqRuntime {
    CurrentThread,
    MultiThread,
    /// No runtime of the target's own.
    Blocking,
}

/// The runtime that a variant selects.
pub fn omq_runtime(variant: &str) -> (r: OmqRuntime)
    ensures
        r == (if variant@ == "blocking"@ {
            OmqRuntime::Blocking
        } else if variant@ == "multi_thread"@ {
            OmqRuntime::MultiThread
        } else {
            OmqRuntime::CurrentThread
        }),
{
    if same(variant, "blocking") {
        OmqRuntime::Blocking
    } else if same(variant, "multi_thread") {
        OmqRuntime::MultiThread
    } else {
        OmqRuntime::CurrentThread
    }
}

/// Whether a variant of the rzmq target selects its io_uring session.
pub fn uses_io_uring(variant: &str) -> (r: bool)
    ensures
        r == (variant@ == "io_uring"@),
{
    same(variant, "io_uring")
}

/// The options of an omq socket.
#[derive(Clone, Copy, Debug, PartialEq, Eq, Structural)]
pub struct OmqOptions {
    /// The size of both socket buffers; none for the engine's own.
    pub buffers: Option<u64>,
    /// Whether a publisher waits for a full subscriber instead of dropping.
    pub nodrop: bool,
}

/// The socket buffers for a payload: twice its size from two mebibytes on, else
/// the engine's own.
pub open spec fn buffers_of(payload_bytes: u32) -> Option<u64> {
    if payload_bytes >= 2 * 1024 * 1024 {
        Some((2 * payload_bytes) as u64)
    } else {
        None
    }
}

/// The options of an omq socket.
pub fn bench_opts(payload_bytes: u32) -> (r: OmqOptions)
    ensures
        r == (OmqOptions { buffers: buffers_of(payload_bytes), nodrop: false }),
{
    let buffers: Option<u64> = if payload_bytes >= 2 * 1024 * 1024 {
        Some(2 * payload_bytes as u64)
    } else {
        None
    };
    OmqOptions { buffers, nodrop: false }
}

/// The options of an omq publisher: it waits for a full subscriber, so that the
/// window reflects the delivered rate.
pub fn sender_opts(payload_bytes: u32) -> (r: OmqOptions)
    ensures
        r == (OmqOptions { buffers: buffers_of(payload_bytes), nodrop: true }),
{
    let o = bench_opts(payload_bytes);
    OmqOptions { buffers: o.buffers, nodrop: true }
}

/// The buffers and coalescing of a `monocoque` socket; what is missing stays at
/// the engine's default.
#[derive(Clone, Copy, Debug, PartialEq, Eq, Structural)]
pub struct Profile {
    /// The size of the read carve.
    pub read_buffer: Option<u64>,
    /// The size of the write buffer.
    pub write_buffer: Option<u64>,
    pub coalescing: Option<bool>,
    pub threshold: Option<u64>,
}

/// The engine's shared read slab, and so the most that one read can carve.
pub const READ_SLAB: u64 = 65536;

/// The write buffer of the bulk streams, which is their coalesce threshold too.
pub const BULK_WRITE_BUF: u64 = 65536;

/// Sender profile of the bulk streams: full-slab reads and coalesced writes.
pub fn bulk_send_opts() -> (r: Profile)
    ensures
        r == (Profile {
            read_buffer: Some(READ_SLAB),
            write_buffer: Some(BULK_WRITE_BUF),
            coalescing: Some(true),
            threshold: Some(BULK_WRITE_BUF),
        }),
{
    Profile {
        read_buffer: Some(READ_SLAB),
        write_buffer: Some(BULK_WRITE_BUF),
        coalescing: Some(true),
        threshold: Some(BULK_WRITE_BUF),
    }
}

/// Receiver profile of the bulk streams: full-slab reads, and a small write
/// buffer, since nothing but the handshake is sent.
pub fn bulk_recv_opts() -> (r: Profile)
    ensures
        r == (Profile {
            read_buffer: Some(READ_SLAB),
            write_buffer: Some(8192),
            coalescing: None,
            threshold: None,
        }),
{
    Profile {
        read_buffer: Some(READ_SLAB),
        write_buffer: Some(8192),
        coalescing: None,
        threshold: None,
    }
}

/// Request/reply profile: nothing is coalesced, since a request that waits to
/// batch would measure the batch timer.
pub fn latency_opts() -> (r: Profile)
    ensures
        r == (Profile {
            read_buffer: None,
            write_buffer: None,
            coalescing: Some(false),
            threshold: None,
        }),
{
    Profile { read_buffer: None, write_buffer: None, coalescing: Some(false), threshold: None }
}

/// The payload of every message.
pub fn payload(bytes: u32) -> (r: Vec<u8>)
    ensures
        r@.len() == bytes,
        forall|i: int| 0 <= i < r@.len() ==> #[trigger] r@[i] == 0x78,
{
    let mut v: Vec<u8> = Vec::new();
    let mut i: u32 = 0;
    while i < bytes
        invariant
            i <= bytes,
            v@.len() == i,
            forall|k: int| 0 <= k < v@.len() ==> #[trigger] v@[k] == 0x78,
        decreases bytes - i,
    {
        v.push(0x78);
        i += 1;
    }
    v
}

/// What is left of `s` without the quotation marks at its end.
pub open spec fn without_quotes(s: Seq<char>) -> Seq<char>
    decreases s.len(),
{
    if s.len() > 0 && s.last() == '"' {
        without_quotes(s.drop_last())
    } else {
        s
    }
}

/// The version of a package among the lines of a lock file from `i` on, once
/// (`named`) the line with its name was seen: what stands in quotation marks on
/// the next line that states a version.
pub open spec fn version_from(
    all: Seq<Seq<char>>,
    name: Seq<char>,
    named: bool,
    i: int,
) -> Option<Seq<char>>
    decreases all.len() - i,
{
    if i >= all.len() {
        None
    } else {
        let line = crate::text::trimmed(all[i]);
        if line == "name = \""@ + name + "\""@ {
            version_from(all, name, true, i + 1)
        } else if named && crate::text::begins(line, "version = \""@) {
            Some(without_quotes(line.skip("version = \""@.len() as int)))
        } else {
            version_from(all, name, named, i + 1)
        }
    }
}

/// The version of a package that a lock file states.
pub open spec fn version_in(lock: Seq<char>, name: Seq<char>) -> Option<Seq<char>> {
    version_from(crate::text::lines_of(lock), name, false, 0)
}

fn unquoted(s: &str) -> (r: String)
    ensures
        r@ == without_quotes(s@),
{
    let x = crate::text::chars_of(s);
    let mut n: usize = x.len();
    assert(x@.take(x@.len() as int) =~= x@);
    while n > 0 && x[n - 1] == '"'
        invariant
            n <= x@.len(),
            without_quotes(x@) == without_quotes(x@.take(n as int)),
        decreases n,
    {
        assert(x@.take(n as int).drop_last() =~= x@.take(n - 1));
        n -= 1;
    }
    assert(without_quotes(x@.take(n as int)) == x@.take(n as int));
    let r = crate::text::string_of(&x, 0, n);
    assert(r@ =~= x@.take(n as int));
    r
}

/// The version of a package that a lock file states, so that a target reports
/// which release of its engine produced the numbers.
pub fn lock_version(lock: &str, name: &str) -> (r: Option<String>)
    ensures
        crate::text::opt_view(r) == version_in(lock@, name@),
{
    let mut needle = "name = \"".to_owned();
    needle.append(name);
    needle.append("\"");
    let all = lines(lock);
    let ghost s = crate::text::lines_of(lock@);
    let mut named: bool = false;
    let mut i: usize = 0;
    while i < all.len()
        invariant
            i <= all@.len(),
            s == crate::text::views(all@),
            s == crate::text::lines_of(lock@),
            needle@ == "name = \""@ + name@ + "\""@,
            version_from(s, name@, false, 0) == version_from(s, name@, named, i as int),
        decreases all@.len() - i,
    {
        assert(s[i as int] == all@[i as int]@);
        let line = trim(all[i].as_str());
        if same(line.as_str(), needle.as_str()) {
            named = true;
        } else if named {
            if let Some(rest) = strip_prefix(line.as_str(), "version = \"") {
                return Some(unquoted(rest.as_str()));
            }
        }
        i += 1;
    }
    None
}

/// What a target says of itself.
pub struct Description {
    pub engine: &'static str,
    pub lib_version: String,
    /// The binding's own version, where the engine is reached through one.
    pub binding_version: Option<String>,
    pub lib_language: &'static str,
    pub implementation: &'static str,
    pub ffi_to: Option<&'static str>,
    pub concurrency: &'static str,
    pub threading: &'static str,
    pub io: &'static str,
}

/// A text in quotation marks.
pub open spec fn in_quotes(s: Seq<char>) -> Seq<char> {
    "\""@ + s + "\""@
}

/// A text that may be missing, in quotation marks, or `null`.
pub open spec fn or_null(s: Option<Seq<char>>) -> Seq<char> {
    match s {
        Some(t) => in_quotes(t),
        None => "null"@,
    }
}

/// The characters of a text that may be missing.
pub open spec fn maybe(s: Option<&str>) -> Option<Seq<char>> {
    match s {
        Some(t) => Some(t@),
        None => None,
    }
}

/// The line in which a target describes itself.
pub open spec fn description_line(d: Description) -> Seq<char> {
    "{\"engine\":"@ + in_quotes(d.engine@) + ",\"lib_version\":"@ + in_quotes(d.lib_version@)
        + ",\"binding_version\":"@ + or_null(crate::text::opt_view(d.binding_version))
        + ",\"lib_language\":"@ + in_quotes(d.lib_language@) + ",\"impl\":"@ + in_quotes(
        d.implementation@,
    ) + ",\"ffi_to\":"@ + or_null(maybe(d.ffi_to)) + ",\"language\":\"Rust\",\"concurrency\":"@
        + in_quotes(d.concurrency@) + ",\"threading\":"@ + in_quotes(d.threading@) + ",\"io\":"@
        + in_quotes(d.io@) + "}"@
}

fn quote(s: &str) -> (r: String)
    ensures
        r@ == in_quotes(s@),
{
    let mut q = "\"".to_owned();
    q.append(s);
    q.append("\"");
    q
}

/// One-line JSON classification that the harness captures into each record.
pub fn describe(d: &Description) -> (r: String)
    ensures
        r@ == description_line(*d),
{
    let mut s = "{\"engine\":".to_owned();
    s.append(quote(d.engine).as_str());
    s.append(",\"lib_version\":");
    s.append(quote(d.lib_version.as_str()).as_str());
    s.append(",\"binding_version\":");
    let binding: String = match &d.binding_version {
        Some(v) => quote(v.as_str()),
        None => "null".to_owned(),
    };
    s.append(binding.as_str());
    s.append(",\"lib_language\":");
    s.append(quote(d.lib_language).as_str());
    s.append(",\"impl\":");
    s.append(quote(d.implementation).as_str());
    s.append(",\"ffi_to\":");
    let ffi: String = match d.ffi_to {
        Some(v) => quote(v),
        None => "null".to_owned(),
    };
    s.append(ffi.as_str());
    s.append(",\"language\":\"Rust\",\"concurrency\":");
    s.append(quote(d.concurrency).as_str());
    s.append(",\"threading\":");
    s.append(quote(d.threading).as_str());
    s.append(",\"io\":");
    s.append(quote(d.io).as_str());
    s.append("}");
    s
}

/// The classification of an engine that is reached directly.
pub open spec fn is_native(
    d: Description,
    engine: Seq<char>,
    version: Seq<char>,
    concurrency: Seq<char>,
    threading: Seq<char>,
    io: Seq<char>,
) -> bool {
    &&& d.engine@ == engine
    &&& d.lib_version@ == version
    &&& d.binding_version is None
    &&& d.lib_language@ == "Rust"@
    &&& d.implementation@ == "native"@
    &&& d.ffi_to is None
    &&& d.concurrency@ == concurrency
    &&& d.threading@ == threading
    &&& d.io@ == io
}

/// The classification of libzmq behind a binding.
pub open spec fn is_binding(
    d: Description,
    version: Seq<char>,
    binding: Seq<char>,
    concurrency: Seq<char>,
) -> bool {
    &&& d.engine@ == "libzmq"@
    &&& d.lib_version@ == version
    &&& crate::text::opt_view(d.binding_version) == Some(binding)
    &&& d.lib_language@ == "C++"@
    &&& d.implementation@ == "ffi"@
    &&& maybe(d.ffi_to) == Some("C"@)
    &&& d.concurrency@ == concurrency
    &&& d.threading@ == "native"@
    &&& d.io@ == "epoll"@
}

fn native(
    engine: &'static str,
    version: &str,
    concurrency: &'static str,
    threading: &'static str,
    io: &'static str,
) -> (d: Description)
    ensures
        is_native(d, engine@, version@, concurrency@, threading@, io@),
{
    Description {
        engine,
        lib_version: version.to_owned(),
        binding_version: None,
        lib_language: "Rust",
        implementation: "native",
        ffi_to: None,
        concurrency,
        threading,
        io,
    }
}

/// The classification of a native engine under a variant, given the version
/// that the lock file states. A variant decides what the caller writes against:
/// omq's blocking sockets are no async ones.
pub open spec fn native_is(d: Description, engine: Engine, variant: Seq<char>, version: Seq<
    char,
>) -> bool {
    match engine {
        Engine::ZmqRs => is_native(d, "zmq.rs"@, version, "async"@, "multi"@, "epoll"@),
        Engine::Celerity => is_native(d, "celerity"@, version, "async"@, "multi"@, "epoll"@),
        Engine::Rzmq => is_native(
            d,
            "rzmq"@,
            version,
            "async"@,
            "multi"@,
            if variant == "io_uring"@ {
                "io_uring"@
            } else {
                "epoll"@
            },
        ),
        Engine::Monocoque(b) => is_native(
            d,
            "monocoque"@,
            version,
            "async"@,
            "single"@,
            if b == Backend::Compio {
                "io_uring"@
            } else {
                "epoll"@
            },
        ),
        _ => is_native(
            d,
            "omq"@,
            version,
            if variant == "blocking"@ {
                "sync"@
            } else {
                "async"@
            },
            if variant == "multi_thread"@ {
                "multi"@
            } else {
                "single"@
            },
            "epoll"@,
        ),
    }
}

/// The classification of a native engine under a variant.
pub fn native_description(engine: Engine, variant: &str, version: &str) -> (d: Description)
    requires
        engine != Engine::RustZmq,
        engine != Engine::Tmq,
    ensures
        native_is(d, engine, variant@, version@),
{
    match engine {
        Engine::ZmqRs => native("zmq.rs", version, "async", "multi", "epoll"),
        Engine::Celerity => native("celerity", version, "async", "multi", "epoll"),
        Engine::Rzmq => {
            let io: &'static str = if same(variant, "io_uring") {
                "io_uring"
            } else {
                "epoll"
            };
            native("rzmq", version, "async", "multi", io)
        },
        Engine::Monocoque(b) => {
            let io: &'static str = match b {
                Backend::Compio => "io_uring",
                Backend::Tokio | Backend::Smol => "epoll",
            };
            native("monocoque", version, "async", "single", io)
        },
        _ => {
            let concurrency: &'static str = if same(variant, "blocking") {
                "sync"
            } else {
                "async"
            };
            let threading: &'static str = if same(variant, "multi_thread") {
                "multi"
            } else {
                "single"
            };
            native("omq", version, concurrency, threading, "epoll")
        },
    }
}

/// The classification of the omq target on the compio runtime.
pub fn compio_description(version: &str) -> (d: Description)
    ensures
        is_native(d, "omq"@, version@, "async"@, "multi"@, "io_uring"@),
{
    native("omq", version, "async", "multi", "io_uring")
}

/// `zmq::version`: the version of the libzmq that is linked. Nothing is known of
/// it beforehand.
#[verifier::external_body]
fn linked_libzmq() -> (r: (i32, i32, i32)) {
    zmq::version()
}

/// A version of three numbers.
pub open spec fn dotted_of(v: (i32, i32, i32)) -> Seq<char> {
    crate::number::signed_decimal_of(v.0 as int) + "."@ + crate::number::signed_decimal_of(
        v.1 as int,
    ) + "."@ + crate::number::signed_decimal_of(v.2 as int)
}

/// A version of three numbers.
pub fn dotted(v: (i32, i32, i32)) -> (r: String)
    ensures
        r@ == dotted_of(v),
{
    let mut s = signed_decimal(v.0 as i64);
    s.append(".");
    s.append(signed_decimal(v.1 as i64).as_str());
    s.append(".");
    s.append(signed_decimal(v.2 as i64).as_str());
    s
}

/// The classification of libzmq of that version behind a binding: the
/// synchronous one, or the one wrapped in futures.
pub fn binding_description(asynchronous: bool, version: (i32, i32, i32), binding: &str) -> (d:
    Description)
    ensures
        is_binding(
            d,
            dotted_of(version),
            binding@,
            if asynchronous {
                "async"@
            } else {
                "sync"@
            },
        ),
{
    let concurrency: &'static str = if asynchronous {
        "async"
    } else {
        "sync"
    };
    Description {
        engine: "libzmq",
        lib_version: dotted(version),
        binding_version: Some(binding.to_owned()),
        lib_language: "C++",
        implementation: "ffi",
        ffi_to: Some("C"),
        concurrency,
        threading: "native",
        io: "epoll",
    }
}

/// The classification of the linked libzmq behind a binding: the engine's
/// version is that of the real linked library, whatever it is.
pub fn describe_libzmq(asynchronous: bool, binding: &str) -> (d: Description)
    ensures
        exists|v: (i32, i32, i32)|
            is_binding(
                d,
                #[trigger] dotted_of(v),
                binding@,
                if asynchronous {
                    "async"@
                } else {
                    "sync"@
                },
            ),
{
    let v = linked_libzmq();
    binding_description(asynchronous, v, binding)
}

/// The name of a role.
pub open spec fn role_name(role: Role) -> Seq<char> {
    match role {
        Role::Pub => "Pub"@,
        Role::Sub => "Sub"@,
    }
}

/// What a target is started with.
pub struct Start {
    pub role: Role,
    pub kind: String,
    pub transport: String,
    pub endpoint: String,
    pub payload_bytes: u32,
    pub messages: u64,
    pub warmup: u64,
}

/// The line that a target begins with; the variant is shown where it has any.
pub open spec fn start_line_of(binary: Seq<char>, s: Start, variant: Option<Seq<char>>) -> Seq<
    char,
> {
    let front = binary + ": role="@ + role_name(s.role) + " kind="@ + s.kind@ + " transport="@
        + s.transport@ + " endpoint="@ + s.endpoint@ + " payload="@ + crate::number::decimal_of(
        s.payload_bytes as nat,
    ) + "B msgs="@ + crate::number::decimal_of(s.messages as nat) + " warmup="@
        + crate::number::decimal_of(s.warmup as nat);
    match variant {
        Some(v) => front + " variant="@ + v,
        None => front,
    }
}

/// The line that a target begins with.
pub fn start_line(binary: &str, s: &Start, variant: &Option<String>) -> (r: String)
    ensures
        r@ == start_line_of(binary@, *s, crate::text::opt_view(*variant)),
{
    let mut t = binary.to_owned();
    t.append(": role=");
    t.append(
        match s.role {
            Role::Pub => "Pub",
            Role::Sub => "Sub",
        },
    );
    t.append(" kind=");
    t.append(s.kind.as_str());
    t.append(" transport=");
    t.append(s.transport.as_str());
    t.append(" endpoint=");
    t.append(s.endpoint.as_str());
    t.append(" payload=");
    t.append(decimal(s.payload_bytes as u64).as_str());
    t.append("B msgs=");
    t.append(decimal(s.messages).as_str());
    t.append(" warmup=");
    t.append(decimal(s.warmup).as_str());
    if let Some(v) = variant {
        t.append(" variant=");
        t.append(v.as_str());
    }
    t
}

} // verus!
