use zmq_arena::cell::{
    cell_id, format_knobs, padded, parse_latency, parse_throughput_line, peer_args, plan_line,
    target_args,
};
use zmq_arena::cgroups::{Cgroup, Step};
use zmq_arena::config::{Isolation, Kind, MatrixEntry, TargetSpec, Transport};
use zmq_arena::host::{
    bench_gate, cpu_count, first_line_after, governor_file, memory_total_kb, turbo_enabled,
    uniform_governor, virtualized, Host, HostFacts,
};
use zmq_arena::netns::{ip, namespace_name, setup_args, IpOutcome, NetNs, Progress, Setup};
use zmq_arena::paths::join;
use zmq_arena::record::{
    cell_ids, cell_record, cgroups_unavailable, copy_entry, done_line, primary, record_file, run_header,
    skip_line, wait_until, wait_until_peak, CellRecord, MetaCache, Observed, Poll, TargetMeta,
    Wait,
};
use zmq_arena::script::{
    execute_cell, latency_budget, make_endpoint, run_latency, run_multipeer, run_throughput,
    throughput_budget, Action, Budget, Leaf, Output, Site, Spawn,
};
use zmq_arena::sorted_map::SortedMap;
use zmq_arena::telemetry::{
    counter_plan, counting_unavailable, cpus, peak_rss_bytes, read_counter, rusage_children,
    status_file, task_dir, thread_ids, tracepoint_id, tracepoint_paths, vm_hwm_kb, Elapsed,
    LatencySnapshot, RawUsage, SchedCounters, SyscallCounters, SyscallKind, SyscallProbe, Usage,
};

fn entry(kind: Kind, transport: Transport) -> MatrixEntry {
    let mut knobs = SortedMap::new();
    knobs.insert("sndhwm".to_string(), "1000".to_string());
    knobs.insert("io_threads".to_string(), "2".to_string());
    MatrixEntry {
        target: TargetSpec {
            id: "ZeroMQ_rs".to_string(),
            binary: "bin/zmq".to_string(),
            variant: Some("fast".to_string()),
            knobs,
        },
        transport,
        kind,
        peers: Some(3),
        duration_secs: None,
        payload_bytes: 64,
        messages: 1_000_000,
        warmup_messages: 5_000,
    }
}

fn bare(kind: Kind, transport: Transport) -> MatrixEntry {
    let mut e = entry(kind, transport);
    e.target.variant = None;
    e.target.knobs = SortedMap::new();
    e.peers = None;
    e
}

fn words(v: &[String]) -> String {
    v.join(" ")
}

#[test]
fn cell_ids_are_lower_case_and_padded() {
    let e = entry(Kind::PubSub, Transport::TcpNetns);
    assert_eq!(cell_id(&e, 7), "zeromq_rs-tcpnetns-pubsub-64b-p3-007");
    assert_eq!(cell_id(&bare(Kind::FanIn, Transport::Ipc), 1234), "zeromq_rs-ipc-fanin-64b-p0-1234");
    assert_eq!(padded(0), "000");
    assert_eq!(padded(42), "042");
    assert_eq!(padded(999), "999");
}

#[test]
fn cell_ids_fold_letters_outside_ascii_too() {
    let mut e = bare(Kind::Latency, Transport::Inproc);
    e.target.id = "ÉTAT".to_string();
    assert_eq!(cell_id(&e, 12), "état-inproc-latency-64b-p0-012");
}

#[test]
fn the_ids_of_a_matrix_differ() {
    let list = vec![
        bare(Kind::Latency, Transport::Ipc),
        bare(Kind::Latency, Transport::Ipc),
        entry(Kind::Latency, Transport::Ipc),
    ];
    let ids = cell_ids(&list);
    assert_eq!(ids.len(), 3);
    assert_eq!(ids[0], "zeromq_rs-ipc-latency-64b-p0-000");
    assert_eq!(ids[1], "zeromq_rs-ipc-latency-64b-p0-001");
    assert_ne!(ids[1], ids[2]);
}

#[test]
fn ids_outside_ascii_differ_too() {
    let mut list = vec![
        bare(Kind::Latency, Transport::Ipc),
        bare(Kind::Latency, Transport::Ipc),
        bare(Kind::Latency, Transport::Ipc),
    ];
    for (e, id) in list.iter_mut().zip(["\u{130}\u{3a3}", "\u{130}\u{3a3}", "\u{1d400}-000"]) {
        e.target.id = id.to_string();
    }
    let ids = cell_ids(&list);
    for i in 0..3 {
        assert!(ids[i].ends_with(&format!("-ipc-latency-64b-p0-00{i}")));
        assert!(!ids[i + 1..].contains(&ids[i]));
    }
}

#[test]
fn no_capital_is_left_in_an_id() {
    let mut e = bare(Kind::FanOut, Transport::TcpNetns);
    for id in ["\u{c9}TAT \u{3a3}X", "\u{130}I\u{212a}K", "Zmq"] {
        e.target.id = id.to_string();
        assert!(!cell_id(&e, 1).chars().any(|c| c.is_ascii_uppercase()));
    }
}

#[test]
fn knobs_are_listed_in_the_order_of_their_keys() {
    assert_eq!(format_knobs(&entry(Kind::FanIn, Transport::Ipc)), "io_threads=2,sndhwm=1000");
    assert_eq!(format_knobs(&bare(Kind::FanIn, Transport::Ipc)), "default");
}

#[test]
fn target_arguments() {
    let a = target_args(&entry(Kind::FanOut, Transport::TcpNetns), "pub", "tcp://127.0.0.1:9");
    assert_eq!(
        words(&a),
        "--role pub --kind fanout --transport tcp --endpoint tcp://127.0.0.1:9 --payload-bytes 64 \
         --messages 1000000 --warmup 5000 --peers 3 --variant fast --knob io_threads=2 --knob \
         sndhwm=1000"
    );
    let b = target_args(&bare(Kind::Latency, Transport::Ipc), "sub", "ipc:///x");
    assert_eq!(
        words(&b),
        "--role sub --kind latency --transport ipc --endpoint ipc:///x --payload-bytes 64 \
         --messages 1000000 --warmup 5000"
    );
}

#[test]
fn peer_arguments() {
    let e = bare(Kind::PubSub, Transport::Inproc);
    let a = peer_args(&e, "pub", "x", true, "2");
    assert_eq!(words(&a[14..]), "--bind --duration-secs 2");
    let b = peer_args(&e, "sub", "x", false, "0.5");
    assert_eq!(words(&b[14..]), "--duration-secs 0.5");
    assert_eq!(a[5], "inproc");
}

#[test]
fn throughput_lines() {
    let out = "noise\nTHROUGHPUT 12\n  THROUGHPUT 42 1.500000 more\nTHROUGHPUT 7 1\n";
    assert_eq!(parse_throughput_line(out), Some((42, "1.500000".to_string())));
    assert_eq!(parse_throughput_line("THROUGHPUT x 1.0\nTHROUGHPUT 3 1.0"), None);
    assert_eq!(parse_throughput_line(""), None);
    assert_eq!(parse_throughput_line("THROUGHPUT +5 nan"), Some((5, "nan".to_string())));
    assert_eq!(parse_throughput_line("THROUGHPUT 18446744073709551616 1"), None);
    assert_eq!(parse_throughput_line("THROUGHPUT 5 abc\n"), None);
    assert_eq!(parse_throughput_line("THROUGHPUT 5 abc\nTHROUGHPUT 5 1.0\n"), None);
}

#[test]
fn latency_lines() {
    let want = LatencySnapshot {
        count: 10,
        min_ns: 1,
        p50_ns: 2,
        p90_ns: 3,
        p99_ns: 4,
        p999_ns: 5,
        max_ns: 6,
    };
    assert_eq!(parse_latency("x\r\nLATENCY 10 1 2 3 4 5 6\r\n"), Some(want));
    assert_eq!(parse_latency("LATENCY 10 1 2 3 4 5 6 extra"), Some(want));
    assert_eq!(parse_latency("LATENCY 10 1 2 3 4 5\n"), None);
    assert_eq!(parse_latency("LATENCY 10 1 2 3 4 5 -6\n"), None);
    assert_eq!(parse_latency("latency 10 1 2 3 4 5 6\n"), None);
}

#[test]
fn plan_lines() {
    assert_eq!(
        plan_line(&entry(Kind::FanOut, Transport::TcpNetns), "id"),
        "  plan id: target=ZeroMQ_rs variant=fast transport=TcpNetns kind=FanOut peers=Some(3) \
         payload=64B msgs=1000000 (knobs: io_threads=2,sndhwm=1000)"
    );
    assert_eq!(
        plan_line(&bare(Kind::Throughput, Transport::Ipc), "id"),
        "  plan id: target=ZeroMQ_rs variant=default transport=Ipc kind=Throughput peers=None \
         payload=64B msgs=1000000 (knobs: default)"
    );
}

fn site() -> Site {
    Site { temp_dir: "/tmp".to_string(), port: 5555 }
}

const INPROC: &str = "inproc needs a single in-process target, not a spawned pair";

#[test]
fn endpoints() {
    for kind in [Kind::Throughput, Kind::Latency, Kind::PubSub, Kind::FanOut, Kind::FanIn] {
        let at = |t: Transport| make_endpoint(&bare(kind, t), "cell", &site());
        assert_eq!(
            at(Transport::Ipc),
            Ok((
                "ipc:///tmp/zmq-arena-cell.sock".to_string(),
                Some("/tmp/zmq-arena-cell.sock".to_string())
            ))
        );
        assert_eq!(at(Transport::TcpNetns), Ok(("tcp://127.0.0.1:5555".to_string(), None)));
        assert_eq!(at(Transport::Inproc), Err(INPROC.to_string()));
    }
}

#[test]
fn cells_that_cannot_be_run() {
    let refused = |k: Kind, t: Transport| execute_cell(&bare(k, t), "c", &site()).err();
    for (kind, name) in
        [(Kind::PubSub, "PubSub"), (Kind::FanOut, "FanOut"), (Kind::FanIn, "FanIn")]
    {
        for t in [Transport::Ipc, Transport::Inproc] {
            let want = Some(format!("{name} is supported on tcp only"));
            assert_eq!(refused(kind, t), want);
            assert_eq!(run_multipeer(&bare(kind, t), "c", &site(), true).err(), want);
            assert_eq!(run_multipeer(&bare(kind, t), "c", &site(), false).err(), want);
        }
        assert_eq!(refused(kind, Transport::TcpNetns), None);
    }
    for kind in [Kind::Throughput, Kind::Latency] {
        assert_eq!(refused(kind, Transport::Inproc), Some(INPROC.to_string()));
        assert_eq!(refused(kind, Transport::Ipc), None);
    }
    let e = bare(Kind::Latency, Transport::Inproc);
    assert_eq!(run_latency(&e, "c", &site()).err(), Some(INPROC.to_string()));
    assert_eq!(run_throughput(&e, "c", &site()).err(), Some(INPROC.to_string()));
}

#[test]
fn budgets() {
    let mut e = bare(Kind::Throughput, Transport::Ipc);
    assert_eq!(throughput_budget(&e), 20);
    assert_eq!(latency_budget(&e), 50);
    e.messages = 100;
    assert_eq!(throughput_budget(&e), 10);
    assert_eq!(latency_budget(&e), 15);
}

fn spawns(s: &[Action]) -> Vec<&Spawn> {
    s.iter()
        .filter_map(|a| match a {
            Action::Start(p) => Some(p),
            _ => None,
        })
        .collect()
}

#[test]
fn the_script_of_a_throughput_cell() {
    let e = bare(Kind::Throughput, Transport::Ipc);
    let s = execute_cell(&e, "c", &site()).unwrap();
    assert_eq!(s.len(), 17);
    let socket = "/tmp/zmq-arena-c.sock";
    assert!(matches!(&s[0], Action::RemoveSocket(Some(p)) if p == socket));
    assert!(matches!(&s[1], Action::MakeLeaf(Leaf::Sub, n) if n == "c-sub"));
    assert!(matches!(&s[2], Action::MakeLeaf(Leaf::Pub, n) if n == "c-pub"));
    assert!(matches!(s[5], Action::Sleep(150)));
    assert!(matches!(s[6], Action::OpenProbe));
    assert!(matches!(s[7], Action::StartClock));
    assert!(matches!(s[9], Action::AwaitMeasured(Budget::Secs(20))));
    assert!(matches!(s[12], Action::ReadOutput));
    assert!(matches!(s[13], Action::AwaitOthers(5)));
    assert!(matches!(&s[14], Action::RemoveSocket(Some(p)) if p == socket));
    let p = spawns(&s);
    assert_eq!(p.len(), 2);
    assert!(p[0].measured && !p[1].measured);
    assert_eq!(p[0].context, "spawning consumer bin/zmq");
    assert_eq!(p[1].context, "spawning producer bin/zmq");
    assert_eq!(p[0].args[1], "sub");
    assert_eq!(p[1].args[1], "pub");
    assert_eq!(p[0].stdout, Output::Piped);
    assert_eq!(p[1].stdout, Output::Inherit);
    assert!(p[0].args.contains(&"ipc:///tmp/zmq-arena-c.sock".to_string()));
}

#[test]
fn the_script_of_a_latency_cell() {
    let e = bare(Kind::Latency, Transport::TcpNetns);
    let s = execute_cell(&e, "c", &site()).unwrap();
    let p = spawns(&s);
    assert_eq!(p.len(), 2);
    assert!(!p[0].measured && p[1].measured);
    assert_eq!(p[0].context, "spawning REP server bin/zmq");
    assert_eq!(p[1].context, "spawning REQ client bin/zmq");
    assert_eq!(p[1].stdout, Output::Piped);
    assert_eq!(p[1].leaf, Leaf::Pub);
    assert!(matches!(s[0], Action::RemoveSocket(None)));
    assert!(matches!(s[7], Action::Sleep(120)));
    assert!(matches!(s[9], Action::AwaitMeasured(Budget::Secs(50))));
    assert!(matches!(s[12], Action::KillOthers));
    assert!(matches!(s[15], Action::LeafMemory(Leaf::Pub)));
    assert!(p[1].args.contains(&"tcp://127.0.0.1:5555".to_string()));
}

#[test]
fn the_scripts_of_multi_peer_cells() {
    let e = entry(Kind::PubSub, Transport::TcpNetns);
    let s = execute_cell(&e, "c", &site()).unwrap();
    let p = spawns(&s);
    assert_eq!(p.len(), 4);
    assert_eq!(p.iter().filter(|x| x.measured).count(), 1);
    assert_eq!(p[0].context, "spawning producer bin/zmq");
    assert!(p[0].args.contains(&"--bind".to_string()));
    assert!(p[1].measured && p[1].stdout == Output::Piped);
    assert_eq!(p[2].context, "spawning drain consumer bin/zmq");
    assert!(p[2].quiet && p[2].stdout == Output::Null && p[2].leaf == Leaf::Sub);
    assert!(matches!(&s[0], Action::MakeLeaf(Leaf::Pub, _)));
    assert!(s.iter().any(|a| matches!(a, Action::AwaitMeasured(Budget::WindowPlus(15)))));

    let f = execute_cell(&entry(Kind::FanIn, Transport::TcpNetns), "c", &site()).unwrap();
    let p = spawns(&f);
    assert_eq!(p.len(), 4);
    assert_eq!(p[0].context, "spawning measured sink bin/zmq");
    assert!(p[0].measured && p[0].args.contains(&"--bind".to_string()));
    assert!(p[1..].iter().all(|x| x.args[1] == "pub" && x.quiet && x.stdout == Output::Inherit));

    let mut none = bare(Kind::FanOut, Transport::TcpNetns);
    none.peers = Some(0);
    none.duration_secs = Some("0.25".to_string());
    let g = execute_cell(&none, "c", &site()).unwrap();
    let p = spawns(&g);
    assert_eq!(p.len(), 2);
    assert_eq!(p[1].args.last().map(String::as_str), Some("0.25"));
}

#[test]
fn waiting() {
    assert_eq!(wait_until(Poll::Exited), Wait::Over { exited: true });
    assert_eq!(wait_until(Poll::Failed), Wait::Over { exited: false });
    assert_eq!(wait_until(Poll::Running { late: true }), Wait::Kill);
    assert_eq!(wait_until(Poll::Running { late: false }), Wait::Sleep(20));
    let mut peak = 0;
    for r in [Some(5), None, Some(90), Some(40)] {
        let (w, p) = wait_until_peak(peak, r, Poll::Running { late: false });
        assert_eq!(w, Wait::Sleep(20));
        peak = p;
    }
    assert_eq!(wait_until_peak(peak, Some(1), Poll::Exited), (Wait::Over { exited: true }, 90));
}

fn usage(cpu_micros: i128, v: u64, i: u64) -> Usage {
    Usage {
        cpu_micros,
        sched: SchedCounters { voluntary_ctxt_switches: v, involuntary_ctxt_switches: i },
    }
}

fn observed(output: &str) -> Observed {
    Observed {
        finished: true,
        elapsed_nanos: 2_000_000_000,
        output: output.to_string(),
        rss_peak: 4096,
        leaf_peak: None,
        syscalls: SyscallCounters { epoll_wait: 3, ..SyscallCounters::default() },
        before: usage(1_000, 10, 7),
        after: usage(4_500, 25, 5),
    }
}

fn record(e: &MatrixEntry, o: &Observed) -> Result<CellRecord, String> {
    cell_record("run", "cell", e, TargetMeta::of_engine("x"), o)
}

#[test]
fn the_record_of_a_throughput_cell() {
    let e = entry(Kind::Throughput, Transport::Ipc);
    let r = record(&e, &observed("")).unwrap();
    assert_eq!((r.run_id.as_str(), r.cell_id.as_str()), ("run", "cell"));
    assert_eq!(r.entry.target.knobs.entries.len(), 2);
    assert_eq!(r.cpu_micros, 3_500);
    assert_eq!(r.sched.voluntary_ctxt_switches, 15);
    assert_eq!(r.sched.involuntary_ctxt_switches, 0);
    assert_eq!(r.syscalls.epoll_wait, 3);
    assert_eq!(r.peak_memory_bytes, 4096);
    assert_eq!(r.latency, LatencySnapshot::default());
    let t = r.throughput.unwrap();
    assert_eq!((t.messages, t.payload_bytes), (1_005_000, 64));
    assert!(matches!(t.elapsed, Elapsed::Nanos(2_000_000_000)));

    let mut o = observed("");
    o.elapsed_nanos = 0;
    o.leaf_peak = Some(77);
    o.after.cpu_micros = 0;
    let r = record(&e, &o).unwrap();
    assert!(matches!(r.throughput.unwrap().elapsed, Elapsed::Nanos(1)));
    assert_eq!(r.peak_memory_bytes, 77);
    assert_eq!(r.cpu_micros, 0);

    o.finished = false;
    assert_eq!(
        record(&e, &o).err(),
        Some("cell timed out after 20s (consumer did not finish)".to_string())
    );
}

#[test]
fn a_short_count_fails_a_throughput_cell() {
    let mut e = entry(Kind::Throughput, Transport::Ipc);
    e.messages = 1000;
    assert!(record(&e, &observed("THROUGHPUT 1000 1.5\n")).is_ok());
    assert!(record(&e, &observed("no report\n")).is_ok());
    assert_eq!(
        record(&e, &observed("THROUGHPUT 3 1.5\n")).err(),
        Some("consumer received 3 of 1000 messages".to_string())
    );
    assert_eq!(
        record(&e, &observed("THROUGHPUT 1001 1.5\n")).err(),
        Some("consumer received 1001 of 1000 messages".to_string())
    );
    let mut late = observed("THROUGHPUT 3 1.5\n");
    late.finished = false;
    assert_eq!(
        record(&e, &late).err(),
        Some("cell timed out after 10s (consumer did not finish)".to_string())
    );
}

#[test]
fn the_primary_metric() {
    let mut e = bare(Kind::Latency, Transport::Ipc);
    e.messages = 3;
    let mut r = record(&e, &observed("LATENCY 3 1 2 2 2 2 9\n")).unwrap();
    assert_eq!(primary(&r, 77), 2);
    r.latency.p50_ns = u64::MAX;
    assert_eq!(primary(&r, 77), i64::MAX);
    r.entry.kind = Kind::FanIn;
    assert_eq!(primary(&r, 77), 77);
}

#[test]
fn the_record_of_a_latency_cell() {
    let mut e = bare(Kind::Latency, Transport::Ipc);
    let mut o = observed("LATENCY 3 1 2 2 2 2 9\n");
    assert_eq!(
        record(&e, &o).err(),
        Some("client made 3 of 1000000 round trips".to_string())
    );
    e.messages = 3;
    o.leaf_peak = Some(0);
    let r = record(&e, &o).unwrap();
    assert_eq!((r.latency.count, r.latency.max_ns), (3, 9));
    assert!(r.throughput.is_none());
    assert_eq!(r.peak_memory_bytes, 4096);
    assert_eq!(
        record(&e, &observed("oh \"no\"\n")).err(),
        Some("no LATENCY line in client output: \"oh \\\"no\\\"\\n\"".to_string())
    );
    o.finished = false;
    assert_eq!(record(&e, &o).err(), Some("latency cell timed out after 15s".to_string()));
}

#[test]
fn the_record_of_a_multi_peer_cell() {
    let e = bare(Kind::FanOut, Transport::TcpNetns);
    let o = observed("THROUGHPUT 9 1.25\n");
    let r = record(&e, &o).unwrap();
    let t = r.throughput.unwrap();
    assert_eq!(t.messages, 9);
    assert!(matches!(t.elapsed, Elapsed::Seconds(s) if s == "1.25"));
    assert_eq!(
        record(&e, &observed("x")).err(),
        Some("no THROUGHPUT line from consumer: \"x\"".to_string())
    );
    assert_eq!(
        record(&e, &observed("THROUGHPUT 9 soon")).err(),
        Some("no THROUGHPUT line from consumer: \"THROUGHPUT 9 soon\"".to_string())
    );
    let mut late = observed("");
    late.finished = false;
    assert_eq!(record(&e, &late).err(), Some("FanOut measured consumer timed out".to_string()));
}

#[test]
fn a_copy_of_an_entry_holds_the_same() {
    let e = entry(Kind::PubSub, Transport::Inproc);
    let c = copy_entry(&e);
    assert_eq!(c.target.knobs.entries, e.target.knobs.entries);
    assert_eq!(c.target.variant, e.target.variant);
    assert_eq!((c.kind, c.transport, c.peers), (e.kind, e.transport, e.peers));
}

#[test]
fn each_binary_is_asked_once() {
    let mut cache = MetaCache::new();
    let a = "bin/a".to_string();
    assert!(cache.lookup(&a).is_none());
    let (m, note) = cache.target_meta(&a, "alpha", None);
    assert_eq!(m.engine, "alpha");
    assert_eq!(m.lib_version, "");
    assert_eq!(
        note,
        Some("  note: bin/a has no usable `describe`; recording id only".to_string())
    );
    assert_eq!(cache.lookup(&a).map(|m| m.engine), Some("alpha".to_string()));
    let b = "bin/b".to_string();
    let mut told = TargetMeta::of_engine("beta");
    told.lib_version = "4.3.5".to_string();
    let (m, note) = cache.target_meta(&b, "x", Some(told));
    assert!(note.is_none());
    assert_eq!(m.lib_version, "4.3.5");
    assert_eq!(cache.lookup(&b).map(|m| m.engine), Some("beta".to_string()));
    let (m, note) = cache.target_meta(&b, "x", None);
    assert_eq!((m.engine.as_str(), note), ("beta", None));
    let (m, note) = cache.target_meta(&a, "x", Some(TargetMeta::of_engine("other")));
    assert_eq!((m.engine.as_str(), note), ("alpha", None));
    assert_eq!(cache.lookup(&a).map(|m| m.engine), Some("alpha".to_string()));
}

#[test]
fn lines_of_a_run() {
    assert_eq!(run_header("r", 12, false), "zmq-arena: run_id=r cells=12 dry_run=false");
    assert_eq!(run_header("r", 0, true), "zmq-arena: run_id=r cells=0 dry_run=true");
    assert_eq!(record_file("scratch", "c"), "scratch/c.json");
    assert_eq!(done_line("c", "p"), "  done c -> p");
    assert_eq!(skip_line("c", "why"), "  skip c: why");
    assert_eq!(
        cgroups_unavailable("EPERM", false),
        Some(
            "  cgroups unavailable (EPERM); running without isolation (run as root for pinning)"
                .to_string()
        )
    );
    assert_eq!(cgroups_unavailable("EPERM", true), None);
}

#[test]
fn paths() {
    assert_eq!(join("a", "b"), "a/b");
    assert_eq!(join("a/", "b"), "a/b");
    assert_eq!(join("", "b"), "b");
    assert_eq!(join("a", "/b"), "/b");
    assert_eq!(join("a", ""), "a/");
}

fn isolation() -> Isolation {
    Isolation { cpuset_cpus: "0-3".to_string(), cpuset_mems: None, memory_max_bytes: 1024 }
}

fn shown(s: &[Step]) -> Vec<String> {
    s.iter()
        .map(|x| match x {
            Step::Mkdir(d) => format!("mkdir {d}"),
            Step::Write(f, t) => format!("write {f} {t}"),
            Step::TryWrite(f, t) => format!("try {f} {t}"),
        })
        .collect()
}

#[test]
fn a_leaf_is_created_from_the_root_down() {
    let c = Cgroup::new("run", "cell", isolation());
    assert_eq!(c.path, "/sys/fs/cgroup/zmq-arena/run/cell");
    assert!(c.is_below_root());
    assert_eq!(
        shown(&c.create()),
        vec![
            "try /sys/fs/cgroup/cgroup.subtree_control +cpuset +memory",
            "mkdir /sys/fs/cgroup/zmq-arena",
            "try /sys/fs/cgroup/zmq-arena/cgroup.subtree_control +cpuset +memory",
            "mkdir /sys/fs/cgroup/zmq-arena/run",
            "try /sys/fs/cgroup/zmq-arena/run/cgroup.subtree_control +cpuset +memory",
            "mkdir /sys/fs/cgroup/zmq-arena/run/cell",
        ]
    );
}

#[test]
fn a_run_name_with_a_separator_has_one_level_more() {
    let c = Cgroup::new("a//b/.", "cell", isolation());
    let s = shown(&c.create());
    assert_eq!(s.len(), 8);
    assert_eq!(s[3], "mkdir /sys/fs/cgroup/zmq-arena/a");
    assert_eq!(s[5], "mkdir /sys/fs/cgroup/zmq-arena/a//b");
    let e = Cgroup::new("", "cell", isolation());
    assert_eq!(e.path, "/sys/fs/cgroup/zmq-arena/cell");
    assert_eq!(e.create().len(), 4);
}

#[test]
fn an_absolute_run_name_leads_elsewhere() {
    assert!(!Cgroup::new("/x", "cell", isolation()).is_below_root());
    assert!(!Cgroup::new("run", "/sys/fs/cgroup", isolation()).is_below_root());
}

#[test]
fn limits_and_tasks() {
    let mut c = Cgroup::new("r", "c", isolation());
    assert_eq!(
        shown(&c.apply_limits()),
        vec![
            "write /sys/fs/cgroup/zmq-arena/r/c/cpuset.cpus 0-3",
            "write /sys/fs/cgroup/zmq-arena/r/c/cpuset.mems 0",
            "write /sys/fs/cgroup/zmq-arena/r/c/memory.max 1024",
        ]
    );
    c.isolation.cpuset_mems = Some("1".to_string());
    assert_eq!(shown(&c.apply_limits())[1], "write /sys/fs/cgroup/zmq-arena/r/c/cpuset.mems 1");
    assert_eq!(
        shown(&[c.attach(99)]),
        vec!["write /sys/fs/cgroup/zmq-arena/r/c/cgroup.procs 99"]
    );
}

#[test]
fn memory_of_a_leaf() {
    let c = Cgroup::new("r", "c", isolation());
    assert_eq!(c.memory_file(true), "/sys/fs/cgroup/zmq-arena/r/c/memory.peak");
    assert_eq!(c.memory_file(false), "/sys/fs/cgroup/zmq-arena/r/c/memory.current");
    assert_eq!(Cgroup::peak_memory_bytes(&Some(" 123\n".to_string())), Some(123));
    assert_eq!(Cgroup::peak_memory_bytes(&Some("max\n".to_string())), Some(0));
    assert_eq!(Cgroup::peak_memory_bytes(&None), None);
}

const CPUINFO: &str = "processor\t: 0\nmodel name\t: Fast CPU: 9000 \nflags\t\t: fpu vme\n\n\
                       processor\t: 1\nmodel name\t: Other\nflags\t\t: fpu vme\n";

fn facts() -> HostFacts {
    HostFacts {
        cpuinfo: Some(CPUINFO.to_string()),
        meminfo: Some("MemTotal:       16384 kB\nMemFree: 1 kB\n".to_string()),
        osrelease: Some("6.1.0\n".to_string()),
        governors: vec![Some("performance\n".to_string()), Some("performance".to_string())],
        no_turbo: Some("1\n".to_string()),
        boost: None,
        euid: 0,
    }
}

#[test]
fn a_bench_host() {
    let h = Host::probe(&facts());
    assert_eq!(h.cpu, "Fast CPU: 9000");
    assert_eq!(h.cpu_count, 2);
    assert_eq!(h.kernel, "6.1.0");
    assert_eq!(h.memory_total_kb, 16384);
    assert_eq!(h.governor, Some("performance".to_string()));
    assert_eq!(h.turbo, Some(false));
    assert!(h.root && h.admissible && !h.virtualized);
    assert!(h.inadmissible_reasons.is_empty());
    assert_eq!(h.note, "bare metal, performance governor, turbo disabled, run as root");
    assert_eq!(bench_gate(true, &h), Ok(()));
}

#[test]
fn a_dev_host() {
    let mut f = facts();
    f.cpuinfo = Some("flags : fpu hypervisor\n".to_string());
    f.governors = vec![Some("powersave".to_string())];
    f.no_turbo = None;
    f.boost = Some("1".to_string());
    f.euid = 1000;
    let h = Host::probe(&f);
    assert!(h.virtualized && !h.admissible);
    assert_eq!(h.cpu, "unknown CPU");
    assert_eq!(h.cpu_count, 1);
    assert_eq!(
        h.note,
        "not admissible: runs in a VM, so frequency and neighbours are not controlled; cpufreq \
         governor is powersave, not performance; turbo/boost is enabled, so clocks are not \
         pinned; not run as root, so cgroup pinning and perf counters are absent"
    );
    assert_eq!(bench_gate(false, &h), Ok(()));
    let e = bench_gate(true, &h).unwrap_err();
    assert!(e.contains("\n  - cpufreq governor is powersave, not performance\n"));
    assert!(e.ends_with("(results are then recorded as not admissible)."));
}

#[test]
fn a_host_that_hides_everything() {
    let h = Host::probe(&HostFacts {
        cpuinfo: None,
        meminfo: None,
        osrelease: None,
        governors: vec![],
        no_turbo: None,
        boost: None,
        euid: 0,
    });
    assert_eq!(h.kernel, "unknown");
    assert_eq!(h.memory_total_kb, 0);
    assert_eq!(
        h.inadmissible_reasons,
        vec![
            "cpufreq governor is not uniform or not readable",
            "turbo/boost state is not readable"
        ]
    );
}

#[test]
fn parts_of_a_host() {
    assert_eq!(cpu_count(""), 1);
    assert_eq!(first_line_after("a b\na: c : d\n", "a"), None);
    assert_eq!(first_line_after("x\na: c : d\n", "a"), Some("c : d".to_string()));
    assert_eq!(memory_total_kb("MemTotal: lots"), 0);
    assert_eq!(memory_total_kb("MemTotal:\n"), 0);
    assert!(!virtualized("notflags: hypervisor\nflags: xhypervisor"));
    assert!(virtualized("flags: x hypervisor"));
    assert_eq!(governor_file(3), "/sys/devices/system/cpu/cpu3/cpufreq/scaling_governor");
    let g = |v: &[Option<&str>]| {
        uniform_governor(&v.iter().map(|x| x.map(str::to_string)).collect())
    };
    assert_eq!(g(&[Some("a"), Some("a\n")]), Some("a".to_string()));
    assert_eq!(g(&[Some("a"), Some("b")]), None);
    assert_eq!(g(&[Some("a"), None]), None);
    assert_eq!(g(&[None]), None);
    assert_eq!(g(&[]), None);
    let t = |a: Option<&str>, b: Option<&str>| {
        turbo_enabled(&a.map(str::to_string), &b.map(str::to_string))
    };
    assert_eq!(t(Some("0"), Some("0")), Some(true));
    assert_eq!(t(Some("1"), Some("1")), Some(false));
    assert_eq!(t(None, Some("1\n")), Some(true));
    assert_eq!(t(None, Some("0")), Some(false));
    assert_eq!(t(None, None), None);
}

#[test]
fn namespace_names_are_safe() {
    assert_eq!(namespace_name("2026-07/é x"), "zmqarena-2026-07---x");
    assert_eq!(namespace_name(""), "zmqarena-");
}

#[test]
fn a_namespace_is_set_up() {
    let c = NetNs::create("r1");
    assert_eq!(c.stage, Setup::Clearing);
    assert_eq!(words(&setup_args(c.stage, &c.name)), "netns del zmqarena-r1");
    let c = match NetNs::advance(c, &IpOutcome::Failure("no such".to_string())) {
        Progress::Continue(c) => c,
        _ => panic!("a missing leftover is no failure"),
    };
    assert_eq!(words(&setup_args(c.stage, &c.name)), "netns add zmqarena-r1");
    let c = match NetNs::advance(c, &IpOutcome::Success) {
        Progress::Continue(c) => c,
        _ => panic!("the loopback comes next"),
    };
    assert_eq!(
        words(&setup_args(c.stage, &c.name)),
        "netns exec zmqarena-r1 ip link set lo up"
    );
    let ns = match NetNs::advance(c, &IpOutcome::Success) {
        Progress::Ready(ns) => ns,
        _ => panic!("the namespace is ready"),
    };
    assert_eq!(ns.name(), "zmqarena-r1");
    assert_eq!(words(&ns.command("bin/x")), "netns exec zmqarena-r1 bin/x");
    assert_eq!(words(&ns.removal()), "netns del zmqarena-r1");
}

#[test]
fn a_namespace_that_fails_is_removed() {
    let mut c = NetNs::create("r");
    c.stage = Setup::Adding;
    match NetNs::advance(c, &IpOutcome::NotRun("ENOENT".to_string())) {
        Progress::Failed(e) => assert_eq!(e, "running ip: ENOENT"),
        _ => panic!("no namespace"),
    }
    let mut c = NetNs::create("r");
    c.stage = Setup::RaisingLoopback;
    let c = match NetNs::advance(c, &IpOutcome::Failure(" down \n".to_string())) {
        Progress::Continue(c) => c,
        _ => panic!("it is removed again"),
    };
    assert_eq!(c.stage, Setup::Undoing);
    match NetNs::advance(c, &IpOutcome::Success) {
        Progress::Failed(e) => assert_eq!(e, "bringing lo up: down"),
        _ => panic!("no namespace"),
    }
    assert_eq!(ip(&IpOutcome::Success), Ok(()));
}

#[test]
fn usage_of_the_children() {
    let u = rusage_children(Some(RawUsage {
        user_sec: 2,
        user_usec: 500_000,
        system_sec: 1,
        system_usec: 250_000,
        voluntary: 9,
        involuntary: -4,
    }));
    assert_eq!(u, usage(3_750_000, 9, 0));
    assert_eq!(rusage_children(None), usage(0, 0, 0));
    let a = SchedCounters { voluntary_ctxt_switches: 5, involuntary_ctxt_switches: 5 };
    let b = SchedCounters { voluntary_ctxt_switches: 7, involuntary_ctxt_switches: 2 };
    assert_eq!(b.since(a).voluntary_ctxt_switches, 2);
    assert_eq!(b.since(a).involuntary_ctxt_switches, 0);
}

#[test]
fn memory_of_a_process() {
    let s = "Name:\tx\nVmPeak:\t 9 kB\nVmHWM:\t   2048 kB\nVmHWM: 1 kB\n";
    assert_eq!(vm_hwm_kb(s), Some(2048));
    assert_eq!(peak_rss_bytes(s), Some(2048 * 1024));
    assert_eq!(peak_rss_bytes("VmHWM:\n"), None);
    assert_eq!(peak_rss_bytes("VmHWM: x kB\n"), None);
    assert_eq!(peak_rss_bytes(""), None);
    assert_eq!(status_file(7), "/proc/7/status");
    assert_eq!(task_dir(7), "/proc/7/task");
}

#[test]
fn syscall_counters() {
    let plan = counter_plan(&vec![10, 20]);
    assert_eq!(plan.len(), 10);
    assert_eq!(plan[0], (10, SyscallKind::EpollWait));
    assert_eq!(plan[9], (20, SyscallKind::IoUringEnter));
    assert_eq!(plan[6].1.tracepoint(), "sys_enter_epoll_ctl");
    let attempts = vec![
        (SyscallKind::EpollWait, Some(3)),
        (SyscallKind::SendMsg, None),
        (SyscallKind::RecvMsg, Some(4)),
        (SyscallKind::EpollWait, Some(5)),
    ];
    let p = SyscallProbe::open_cgroup(&attempts).unwrap();
    assert_eq!(p.counters.len(), 3);
    let c = p.read(&vec![100, 7, 11]);
    assert_eq!((c.epoll_wait, c.recvmsg, c.sendmsg, c.epoll_ctl, c.io_uring_enter), (111, 7, 0, 0, 0));
}

#[test]
fn syscall_counters_that_do_not_open() {
    let none = vec![(SyscallKind::EpollCtl, None)];
    assert!(SyscallProbe::open_cgroup(&none).is_none());
    let (p, say) = SyscallProbe::open(&none, false);
    assert!(say);
    assert_eq!(p.read(&vec![]), SyscallCounters::default());
    assert!(!SyscallProbe::open(&none, true).1);
    assert!(!SyscallProbe::open(&vec![(SyscallKind::EpollCtl, Some(1))], false).1);
    assert!(counting_unavailable().starts_with("  syscall counting unavailable"));
    assert_eq!(read_counter(8, 5), 5);
    assert_eq!(read_counter(-1, 5), 0);
}

#[test]
fn threads_and_tracepoints() {
    let names = vec!["12".to_string(), "x".to_string(), "4294967296".to_string(), "3".to_string()];
    assert_eq!(thread_ids(9, &names), vec![12, 3]);
    assert_eq!(thread_ids(9, &vec![]), vec![9]);
    let (a, b) = tracepoint_paths("sys_enter_sendmsg");
    assert_eq!(a, "/sys/kernel/tracing/events/syscalls/sys_enter_sendmsg/id");
    assert_eq!(b, "/sys/kernel/debug/tracing/events/syscalls/sys_enter_sendmsg/id");
    let t = |s: &str| Some(s.to_string());
    assert_eq!(tracepoint_id(&t("41\n"), &t("42")), Some(41));
    assert_eq!(tracepoint_id(&t("x"), &t(" 42 ")), Some(42));
    assert_eq!(tracepoint_id(&None, &None), None);
}

#[test]
fn the_cpus_of_a_cpuset() {
    assert_eq!(cpus("2"), Some(vec![2]));
    assert_eq!(cpus("2-3"), Some(vec![2, 3]));
    assert_eq!(cpus("0-1, 8,5-5"), Some(vec![0, 1, 8, 5]));
    for bad in ["", ",", "1,", "3-2", "a", "1-", "-1", "1-2-3", "4294967296"] {
        assert_eq!(cpus(bad), None, "{bad}");
    }
}
