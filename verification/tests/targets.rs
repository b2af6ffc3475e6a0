use zmq_arena::cell::{parse_latency, parse_throughput_line};
use zmq_arena::config::Kind;
use zmq_arena::loops::{
    on_echoed, Block, BlockNext, Drain, EchoNext, Echoed, GatherNext, Gathering, Got, Intake, Next,
    OnError, Producer, RoundTrips, Seen, SendNext, Style, TakeNext, Trip, Window,
};
use zmq_arena::report::{latency_line, nothing_line, throughput_line};
use zmq_arena::sorted_map::SortedMap;
use zmq_arena::target::{
    arg_value, bench_opts, binding_description, bulk_recv_opts, bulk_send_opts,
    compio_description, describe, describe_libzmq, dispatch, dotted, job, knob, knob_number,
    latency_opts, lock_version, merged_knobs, native_description, omq_endpoint, omq_runtime,
    omq_verdict, parse_endpoint, parse_kind, parse_knob, payload, peers_or_one, pub_workers,
    require_tcp, sender_opts, start_line, stub_refusal, uses_io_uring, Backend, Endpoint, Engine,
    OmqRuntime, Role, Socket, Start, Work,
};

fn s(t: &str) -> String {
    t.to_string()
}

fn list(v: &[&str]) -> Vec<String> {
    v.iter().map(|x| x.to_string()).collect()
}

fn pairs(v: &[(&str, &str)]) -> Vec<(String, String)> {
    v.iter().map(|(a, b)| (a.to_string(), b.to_string())).collect()
}

#[test]
fn a_latency_report_and_its_reading() {
    let mut rtts: Vec<u64> = (1..=1000).rev().collect();
    let line = latency_line(&mut rtts);
    assert_eq!(line, "LATENCY 1000 1 501 901 991 1000 1000");
    let l = parse_latency(&format!("{line}\n")).unwrap();
    assert_eq!((l.count, l.min_ns, l.p50_ns, l.p90_ns), (1000, 1, 501, 901));
    assert_eq!((l.p99_ns, l.p999_ns, l.max_ns), (991, 1000, 1000));
    assert_eq!(latency_line(&mut vec![]), "LATENCY 0 0 0 0 0 0 0");
    assert_eq!(latency_line(&mut vec![u64::MAX]), format!("LATENCY 1{}", " 18446744073709551615".repeat(6)));
}

#[test]
fn a_latency_report_leaves_the_round_trips_sorted() {
    let mut rtts = vec![30, 10, 20];
    assert_eq!(latency_line(&mut rtts), "LATENCY 3 10 20 30 30 30 30");
    assert_eq!(rtts, vec![10, 20, 30]);
}

#[test]
fn latency_ranks_are_those_of_the_shares() {
    for n in 1..2000u64 {
        let mut rtts: Vec<u64> = (0..n).collect();
        let l = parse_latency(&latency_line(&mut rtts)).unwrap();
        let q = |p: f64| ((n as f64 * p) as u64).min(n - 1);
        assert_eq!(l.p50_ns, q(0.50));
        assert_eq!(l.p90_ns, q(0.90));
        assert_eq!(l.p99_ns, q(0.99));
        assert_eq!(l.p999_ns, q(0.999));
        assert!(l.p50_ns <= l.p90_ns && l.p90_ns <= l.p99_ns && l.p99_ns <= l.p999_ns);
    }
}

#[test]
fn a_throughput_report_and_its_reading() {
    let line = throughput_line(42, "1.500000");
    assert_eq!(line, "THROUGHPUT 42 1.500000");
    assert_eq!(parse_throughput_line(&format!("{line}\n")), Some((42, s("1.500000"))));
    assert_eq!(nothing_line(), "THROUGHPUT 0 0.000001");
}

#[test]
fn a_window_counts_from_the_first_message() {
    let w = Window::new(Drain::Never, false);
    let (w, n) = w.on_seen(Seen::Nothing);
    assert_eq!(n, Next::Receive);
    let (w, n) = w.on_seen(Seen::Message);
    assert_eq!(n, Next::StartClock);
    assert_eq!(w.on_clock(false), Next::Receive);
    let (w, n) = w.on_seen(Seen::Message);
    assert_eq!((w.count, n), (2, Next::LookAtClock));
    let (w, n) = w.on_seen(Seen::Nothing);
    assert_eq!((w.count, n), (2, Next::LookAtClock));
    assert_eq!(w.on_clock(true), Next::Report);
    let (w, n) = w.on_seen(Seen::Gone);
    assert_eq!((w.count, n), (2, Next::Report));
    assert_eq!(Window::new(Drain::Freely, false).on_seen(Seen::Gone).1, Next::ReportNothing);
    let strict = Window::new(Drain::Never, true);
    assert_eq!(strict.on_seen(Seen::Gone).1, Next::ReportNothingAndFail);
    assert_eq!(strict.on_seen(Seen::Message).0.on_seen(Seen::Gone).1, Next::Report);
}

#[test]
fn a_window_drains() {
    let (w, _) = Window::new(Drain::Freely, false).on_seen(Seen::Message);
    let (w, n) = w.on_seen(Seen::Message);
    assert_eq!(n, Next::TryReceive);
    let (w, n) = w.on_seen(Seen::Message);
    assert_eq!((w.count, n), (3, Next::TryReceive));
    let (w, n) = w.on_seen(Seen::Gone);
    assert_eq!(n, Next::LookAtClock);
    assert_eq!(w.on_clock(false), Next::Receive);

    let (w, _) = Window::new(Drain::InTime, false).on_seen(Seen::Message);
    let (w, n) = w.on_seen(Seen::Message);
    assert_eq!(n, Next::LookAtClock);
    assert_eq!(w.on_clock(false), Next::TryReceive);
    assert_eq!(w.on_clock(true), Next::Report);
    let (w, n) = w.on_seen(Seen::Nothing);
    assert_eq!((n, w.on_clock(false)), (Next::LookAtClock, Next::Receive));
}

#[test]
fn a_strict_block() {
    let (b, t) = Block::begin(1, 2, Style::Strict);
    assert!(!t.start_clock);
    let (b, t) = b.on_got(Got::Message);
    assert!(t.start_clock && t.next == BlockNext::Receive);
    let (b, t) = b.on_got(Got::Message);
    assert!(!t.start_clock && t.next == BlockNext::Receive);
    assert_eq!(b.on_got(Got::Broken).1.next, BlockNext::Fail);
    assert_eq!(b.on_got(Got::Ended).1.next, BlockNext::Fail);
    let (b, t) = b.on_got(Got::Message);
    assert_eq!((t.next, b.measured), (BlockNext::Report, 2));
    let (_, t) = Block::begin(0, 0, Style::Strict);
    assert!(t.start_clock && t.next == BlockNext::Report);
}

#[test]
fn a_streamed_block() {
    let (b, _) = Block::begin(2, 2, Style::Stream);
    assert_eq!(b.on_got(Got::Ended).1.next, BlockNext::ReportNothing);
    let (b, t) = b.on_got(Got::Broken);
    assert_eq!((b.warmed, t.next), (1, BlockNext::Receive));
    let (b, t) = b.on_got(Got::Message);
    assert!(t.start_clock);
    let (b, _) = b.on_got(Got::Message);
    let (b, t) = b.on_got(Got::Broken);
    assert_eq!((b.measured, t.next), (1, BlockNext::Report));
}

#[test]
fn a_drained_block() {
    let (b, t) = Block::begin(0, 3, Style::Draining);
    assert!(!t.start_clock && t.next == BlockNext::Receive);
    let (b, t) = b.on_got(Got::Message);
    assert!(t.start_clock && t.next == BlockNext::TryReceive);
    let (b, t) = b.on_got(Got::Empty);
    assert_eq!(t.next, BlockNext::Receive);
    assert_eq!(b.on_got(Got::Broken).1.next, BlockNext::Fail);
    let (b, t) = b.on_got(Got::Ended);
    assert_eq!((b.measured, t.next), (1, BlockNext::Report));
    assert_eq!(Block::begin(0, 0, Style::Draining).1.next, BlockNext::Report);
}

#[test]
fn round_trips() {
    let mut r = RoundTrips::new(1, 2);
    let mut seen = vec![];
    loop {
        let n = r.next();
        seen.push(n);
        if n == Trip::Report {
            break;
        }
        r = r.done();
    }
    assert_eq!(seen, vec![Trip::Untimed, Trip::Timed, Trip::Timed, Trip::Report]);
    assert_eq!(RoundTrips::new(0, 0).next(), Trip::Report);
}

#[test]
fn producers() {
    let (mut p, mut n) = Producer::begin(Some(130), 64, OnError::Fail);
    let mut flushes = 0;
    let mut sends = 0;
    while n == SendNext::Send {
        let (q, flush, next) = p.on_sent(true);
        sends += 1;
        flushes += flush as u32;
        p = q;
        n = next;
    }
    assert_eq!((sends, flushes, n), (130, 2, SendNext::Finish));
    assert_eq!(Producer::begin(Some(0), 0, OnError::Fail).1, SendNext::Finish);
    let (p, _) = Producer::begin(None, 0, OnError::Stop);
    assert_eq!(p.on_sent(true).2, SendNext::Send);
    assert_eq!(p.on_sent(false).2, SendNext::Stop);
    let (p, _) = Producer::begin(None, 2, OnError::Ignore);
    let (p, flush, n) = p.on_sent(false);
    assert!(!flush && n == SendNext::Send);
    assert!(p.on_sent(false).1);
    assert_eq!(p.on_flushed(false, SendNext::Send), SendNext::Send);
    let (p, _) = Producer::begin(Some(5), 1, OnError::Fail);
    assert_eq!(p.on_flushed(true, SendNext::Finish), SendNext::Finish);
    assert_eq!(p.on_flushed(false, SendNext::Finish), SendNext::Fail);
    let (p, _) = Producer::begin(None, 1, OnError::Stop);
    assert_eq!(p.on_flushed(false, SendNext::Send), SendNext::Stop);
}

#[test]
fn echoes() {
    let next = |e: Echoed| on_echoed(e, OnError::Stop, OnError::Fail);
    assert_eq!(next(Echoed::Sent), EchoNext::Echo);
    assert_eq!(next(Echoed::Ended), EchoNext::Stop);
    assert_eq!(next(Echoed::NotReceived), EchoNext::Stop);
    assert_eq!(next(Echoed::NotSent), EchoNext::Fail);
    let ignore = on_echoed(Echoed::NotReceived, OnError::Ignore, OnError::Fail);
    assert_eq!(ignore, EchoNext::Echo);
}

#[test]
fn a_fixed_number_of_messages_is_taken() {
    assert_eq!(Intake::begin(0).1, TakeNext::Done);
    let (i, n) = Intake::begin(2);
    assert_eq!(n, TakeNext::Receive);
    let (i, n) = i.on_got(Got::Message);
    assert_eq!((i.left, n), (1, TakeNext::Receive));
    assert_eq!(i.on_got(Got::Message).1, TakeNext::Done);
    for g in [Got::Broken, Got::Empty, Got::Ended] {
        assert_eq!(i.on_got(g).1, TakeNext::Fail);
    }
}

#[test]
fn a_publisher_waits_for_its_subscribers() {
    assert_eq!(Gathering::begin(0).1, GatherNext::Publish);
    let (mut g, mut n) = Gathering::begin(32);
    let mut accepted = 0;
    while n == GatherNext::Accept {
        assert_eq!(g.on_accept(false).1, GatherNext::Fail);
        (g, n) = g.on_accept(true);
        accepted += 1;
    }
    assert_eq!((accepted, n), (32, GatherNext::Publish));
    assert_eq!(Producer::begin(Some(5), 0, OnError::Fail).0.on_sent(false).2, SendNext::Fail);
}

const ENGINES: [Engine; 8] = [
    Engine::RustZmq,
    Engine::ZmqRs,
    Engine::Celerity,
    Engine::Tmq,
    Engine::Rzmq,
    Engine::Monocoque(Backend::Compio),
    Engine::OmqTokio,
    Engine::OmqBlocking,
];

#[test]
fn one_role_binds_and_the_sockets_meet() {
    for kind in [Kind::Throughput, Kind::Latency, Kind::PubSub, Kind::FanOut, Kind::FanIn] {
        let p = job(Engine::Tmq, kind, Role::Pub, 1, 1, None);
        let c = job(Engine::Tmq, kind, Role::Sub, 1, 1, None);
        assert_ne!(p.binds, c.binds);
        assert!(matches!(
            (p.socket, c.socket),
            (Socket::Push, Socket::Pull)
                | (Socket::Req, Socket::Rep)
                | (Socket::Publish, Socket::Subscribe)
        ));
    }
    assert!(job(Engine::Rzmq, Kind::FanIn, Role::Sub, 1, 1, None).binds);
    assert!(job(Engine::Rzmq, Kind::FanOut, Role::Pub, 1, 1, None).binds);
}

#[test]
fn the_work_of_each_engine() {
    let mono = Engine::Monocoque(Backend::Tokio);
    let w = |e, k, r, p| job(e, k, r, 10, 3, p).work;
    assert_eq!(
        w(Engine::RustZmq, Kind::Throughput, Role::Sub, None),
        Work::ReceiveAll { total: 13 }
    );
    assert_eq!(
        w(Engine::ZmqRs, Kind::Throughput, Role::Pub, None),
        Work::SendCount { total: 13, flush_every: 0 }
    );
    assert_eq!(
        w(mono, Kind::Throughput, Role::Pub, None),
        Work::SendCount { total: 13, flush_every: 64 }
    );
    assert_eq!(
        w(Engine::Rzmq, Kind::Throughput, Role::Pub, None),
        Work::SendForever { flush_every: 0, on_error: OnError::Stop }
    );
    assert_eq!(
        w(mono, Kind::FanOut, Role::Pub, Some(4)),
        Work::SendForever { flush_every: 256, on_error: OnError::Ignore }
    );
    assert_eq!(
        w(mono, Kind::PubSub, Role::Pub, Some(4)),
        Work::SendForever { flush_every: 0, on_error: OnError::Ignore }
    );
    assert_eq!(
        w(Engine::Tmq, Kind::Throughput, Role::Sub, None),
        Work::Measure { style: Style::Stream }
    );
    assert_eq!(
        w(mono, Kind::Throughput, Role::Sub, None),
        Work::Measure { style: Style::Draining }
    );
    assert_eq!(
        w(Engine::OmqTokio, Kind::Throughput, Role::Sub, None),
        Work::Measure { style: Style::Strict }
    );
    assert_eq!(w(Engine::OmqTokio, Kind::PubSub, Role::Sub, None), Work::Count { drain: Drain::Freely, must_hear: false });
    assert_eq!(
        w(Engine::OmqBlocking, Kind::FanIn, Role::Sub, None),
        Work::Count { drain: Drain::InTime, must_hear: false }
    );
    assert_eq!(w(mono, Kind::FanIn, Role::Sub, None), Work::Count { drain: Drain::InTime, must_hear: false });
    assert_eq!(w(mono, Kind::FanOut, Role::Sub, None), Work::Count { drain: Drain::Freely, must_hear: false });
    assert_eq!(w(mono, Kind::PubSub, Role::Sub, None), Work::Count { drain: Drain::Never, must_hear: false });
    assert_eq!(
        w(Engine::RustZmq, Kind::FanIn, Role::Sub, None),
        Work::Count { drain: Drain::Never, must_hear: true }
    );
    assert_eq!(w(Engine::Celerity, Kind::Latency, Role::Pub, None), Work::RoundTrips);
    assert_eq!(
        w(Engine::RustZmq, Kind::Latency, Role::Sub, None),
        Work::Echo { on_receive_error: OnError::Stop, on_send_error: OnError::Fail }
    );
    assert_eq!((peers_or_one(None), peers_or_one(Some(0)), peers_or_one(Some(7))), (1, 1, 7));
}

#[test]
fn kinds_by_their_words() {
    for k in [Kind::Throughput, Kind::Latency, Kind::PubSub, Kind::FanOut, Kind::FanIn] {
        assert_eq!(parse_kind(k.token()), Some(k));
    }
    assert_eq!(parse_kind("Latency"), None);
}

#[test]
fn kinds_that_an_engine_does_not_run() {
    let tcp = "tcp://127.0.0.1:1";
    let e = |engine, word| dispatch(engine, word, tcp).err().unwrap_or_default();
    assert_eq!(e(Engine::RustZmq, "x"), "rust-zmq: kind 'x' not implemented");
    assert_eq!(e(Engine::OmqTokio, "x"), "omq-tokio: kind 'x' not implemented");
    assert_eq!(e(Engine::OmqBlocking, "x"), "omq blocking: kind 'x' not implemented");
    assert_eq!(e(Engine::ZmqRs, "x"), "zmq.rs: kind 'x' not implemented");
    assert!(e(Engine::ZmqRs, "fanout").contains("does not support fan-out"));
    assert!(e(Engine::ZmqRs, "fanin").contains("does not support fan-in"));
    assert_eq!(
        e(Engine::Celerity, "throughput"),
        "celerity: kind 'throughput' not supported. celerity 0.1.1 has no PUSH/PULL, so \
         throughput, fan-out and fan-in cannot be run against it."
    );
    assert_eq!(dispatch(Engine::Celerity, "pubsub", tcp), Ok(Kind::PubSub));
    assert_eq!(dispatch(Engine::ZmqRs, "throughput", "ipc:///x"), Ok(Kind::Throughput));
    for engine in ENGINES {
        assert_eq!(dispatch(engine, "latency", "ipc:///x"), Ok(Kind::Latency));
    }
}

#[test]
fn multi_peer_kinds_are_tcp_only() {
    let e = |engine| require_tcp(engine, Kind::PubSub, "ipc:///x").err();
    assert_eq!(e(Engine::RustZmq), Some(s("rust-zmq pubsub: tcp only (got ipc:///x)")));
    assert_eq!(e(Engine::ZmqRs), Some(s("zmq.rs pubsub: tcp only (got ipc:///x)")));
    assert_eq!(e(Engine::Rzmq), Some(s("rzmq pubsub: tcp only, got ipc:///x")));
    assert_eq!(e(Engine::Tmq), Some(s("tmq pubsub: tcp only, got ipc:///x")));
    assert_eq!(e(Engine::Celerity), Some(s("celerity pubsub: tcp only, got ipc:///x")));
    assert_eq!(
        e(Engine::Monocoque(Backend::Smol)),
        Some(s("monocoque pubsub: tcp only for now"))
    );
    assert_eq!(e(Engine::OmqTokio), None);
    assert_eq!(require_tcp(Engine::Tmq, Kind::Latency, "ipc:///x"), Ok(()));
    assert_eq!(require_tcp(Engine::Tmq, Kind::FanIn, "tcp://h:1"), Ok(()));
    assert_eq!(
        dispatch(Engine::Rzmq, "fanin", "ipc:///x").err(),
        Some(s("rzmq fanin: tcp only, got ipc:///x"))
    );
    assert_eq!(stub_refusal(Role::Pub), "omq-compio publisher loop not implemented");
    assert_eq!(stub_refusal(Role::Sub), "omq-compio subscriber loop not implemented");
}

#[test]
fn endpoints_that_omq_takes() {
    assert_eq!(omq_endpoint("tcp://127.0.0.1:5555"), Ok(()));
    assert_eq!(omq_endpoint("ipc:///tmp/x.sock"), Ok(()));
    assert_eq!(omq_endpoint("inproc://x"), Ok(()));
    assert_eq!(omq_endpoint("inproc://"), Err(s("invalid endpoint: inproc://")));
    assert_eq!(omq_endpoint("nonsense"), Err(s("invalid endpoint: nonsense")));
    assert_eq!(omq_endpoint("gopher://x"), Err(s("invalid endpoint: gopher://x")));
    assert_eq!(omq_verdict(true, "x"), Ok(()));
    assert_eq!(omq_verdict(false, "x"), Err(s("invalid endpoint: x")));
}

#[test]
fn endpoints_are_split() {
    assert!(matches!(parse_endpoint("tcp://127.0.0.1:9"), Ok(Endpoint::Tcp(a)) if a == "127.0.0.1:9"));
    assert!(matches!(parse_endpoint("ipc:///run/a.sock"), Ok(Endpoint::Ipc(p)) if p == "/run/a.sock"));
    assert_eq!(
        parse_endpoint("udp://x").err(),
        Some(s("unsupported endpoint (need tcp:// or ipc://): udp://x"))
    );
}

#[test]
fn knobs() {
    assert_eq!(parse_knob(" a = b=c "), Ok((s("a"), s("b=c"))));
    assert_eq!(parse_knob("oops"), Err(s("knob must be key=value, got `oops`")));
    let k = merged_knobs(
        &pairs(&[("ARENA_KNOB_SNDHWM", "5"), ("HOME", "/"), ("ARENA_KNOB_IO_THREADS", "3")]),
        &pairs(&[("rcvhwm", "x"), ("sndhwm", "9"), ("sndhwm", "-10")]),
    );
    assert_eq!(knob_number(&k, "sndhwm"), Some(-10));
    assert_eq!(knob_number(&k, "io_threads"), Some(3));
    assert_eq!(knob_number(&k, "rcvhwm"), None);
    assert_eq!(knob_number(&k, "home"), None);
    assert_eq!(knob_number(&SortedMap::new(), "sndhwm"), None);
}

#[test]
fn knobs_of_a_list() {
    let l = list(&["x", "a=1=2", "a=3", "pub_workers=4"]);
    assert_eq!(knob(&l, "a"), Some(s("1=2")));
    assert_eq!(knob(&l, "x"), None);
    let none = pairs(&[]);
    assert_eq!(pub_workers(&none, &l), 4);
    assert_eq!(pub_workers(&none, &list(&["pub_workers=many"])), 1);
    assert_eq!(pub_workers(&none, &list(&["pub_workers=0"])), 0);
    assert_eq!(pub_workers(&none, &vec![]), 1);
    let env = pairs(&[("PATH", "/bin"), ("ARENA_KNOB_PUB_WORKERS", "3")]);
    assert_eq!(pub_workers(&env, &vec![]), 3);
    assert_eq!(pub_workers(&env, &l), 4);
    assert_eq!(pub_workers(&env, &list(&["pub_workers=many"])), 1);
}

#[test]
fn arguments() {
    let a = list(&["bin", "describe", "--variant", "blocking", "--variant", "x"]);
    assert_eq!(arg_value(&a, "--variant"), Some(s("blocking")));
    assert_eq!(arg_value(&a, "--none"), None);
    assert_eq!(arg_value(&list(&["--variant"]), "--variant"), None);
    assert_eq!(omq_runtime("blocking"), OmqRuntime::Blocking);
    assert_eq!(omq_runtime("multi_thread"), OmqRuntime::MultiThread);
    assert_eq!(omq_runtime("default"), OmqRuntime::CurrentThread);
    assert!(uses_io_uring("io_uring") && !uses_io_uring("default"));
}

#[test]
fn socket_options() {
    assert_eq!(bench_opts(2 * 1024 * 1024 - 1).buffers, None);
    assert_eq!(bench_opts(2 * 1024 * 1024).buffers, Some(4 * 1024 * 1024));
    assert!(!bench_opts(1).nodrop && sender_opts(1).nodrop);
    let b = bulk_send_opts();
    assert_eq!((b.read_buffer, b.write_buffer), (Some(65536), Some(65536)));
    assert_eq!((b.coalescing, b.threshold), (Some(true), Some(65536)));
    let r = bulk_recv_opts();
    assert_eq!((r.read_buffer, r.write_buffer, r.coalescing), (Some(65536), Some(8192), None));
    assert_eq!(latency_opts().coalescing, Some(false));
    assert_eq!(payload(3), b"xxx".to_vec());
    assert!(payload(0).is_empty());
}

#[test]
fn versions_from_a_lock_file() {
    let lock = "[[package]]\nname = \"zmq-sys\"\nversion = \"0.12.0\"\n\n[[package]]\n  name = \"zmq\"\n\
                source = \"x\"\n  version = \"0.10.0\"\n";
    assert_eq!(lock_version(lock, "zmq"), Some(s("0.10.0")));
    assert_eq!(lock_version(lock, "zmq-sys"), Some(s("0.12.0")));
    assert_eq!(lock_version(lock, "none"), None);
    assert_eq!(lock_version("name = \"zmq\"\n", "zmq"), None);
}

#[test]
fn descriptions() {
    assert_eq!(
        describe(&native_description(Engine::OmqTokio, "blocking", "0.21.4")),
        "{\"engine\":\"omq\",\"lib_version\":\"0.21.4\",\"binding_version\":null,\
         \"lib_language\":\"Rust\",\"impl\":\"native\",\"ffi_to\":null,\"language\":\"Rust\",\
         \"concurrency\":\"sync\",\"threading\":\"single\",\"io\":\"epoll\"}"
    );
    let t = |e, v: &str| {
        let d = native_description(e, v, "1");
        (d.engine, d.concurrency, d.threading, d.io)
    };
    assert_eq!(t(Engine::OmqTokio, "multi_thread"), ("omq", "async", "multi", "epoll"));
    assert_eq!(t(Engine::ZmqRs, ""), ("zmq.rs", "async", "multi", "epoll"));
    assert_eq!(t(Engine::Celerity, ""), ("celerity", "async", "multi", "epoll"));
    assert_eq!(t(Engine::Rzmq, "io_uring"), ("rzmq", "async", "multi", "io_uring"));
    assert_eq!(t(Engine::Rzmq, "default"), ("rzmq", "async", "multi", "epoll"));
    assert_eq!(
        t(Engine::Monocoque(Backend::Compio), ""),
        ("monocoque", "async", "single", "io_uring")
    );
    assert_eq!(t(Engine::Monocoque(Backend::Smol), "").3, "epoll");
    assert_eq!(compio_description("1").io, "io_uring");
}

#[test]
fn descriptions_of_libzmq() {
    assert_eq!(dotted((4, 3, -5)), "4.3.-5");
    assert_eq!(
        describe(&binding_description(true, (4, 3, 4), "0.5.0")),
        "{\"engine\":\"libzmq\",\"lib_version\":\"4.3.4\",\"binding_version\":\"0.5.0\",\
         \"lib_language\":\"C++\",\"impl\":\"ffi\",\"ffi_to\":\"C\",\"language\":\"Rust\",\
         \"concurrency\":\"async\",\"threading\":\"native\",\"io\":\"epoll\"}"
    );
    let d = describe_libzmq(false, "0.10.0");
    let (a, b, c) = zmq::version();
    assert_eq!(d.lib_version, format!("{a}.{b}.{c}"));
    assert_eq!(d.concurrency, "sync");
}

#[test]
fn the_first_line_of_a_target() {
    let st = Start {
        role: Role::Pub,
        kind: s("latency"),
        transport: s("tcp"),
        endpoint: s("tcp://h:1"),
        payload_bytes: 64,
        messages: 10,
        warmup: 2,
    };
    assert_eq!(
        start_line("tmq-target", &st, &Some(s("default"))),
        "tmq-target: role=Pub kind=latency transport=tcp endpoint=tcp://h:1 payload=64B msgs=10 \
         warmup=2 variant=default"
    );
    assert!(start_line("celerity-target", &st, &None).ends_with(" warmup=2"));
}
