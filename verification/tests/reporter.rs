use zmq_arena::archive::{Build, Entry};
use zmq_arena::axis::{nice_axis, Axis, Decimal};
use zmq_arena::charts::{
    footnote, layout, newest, provenance, render_all, sizes_of, source, Chart, Dated, Rendering, Source,
    Unit,
};
use zmq_arena::model::{
    gbps, lat_p50_us, lat_p99_us, msgs, Archive, Hardware, Latency, Measure, Query, Record,
    Series, Stability, Throughput,
};
use zmq_arena::sorted_map::SortedMap;
use zmq_arena::theme::{
    axis, axis_end, background, fmt_size, grid, legend, legend_height, muted, panel_lines,
    parse_hex, present, series_max, text_colour, tick_label, Impl, Rgb,
};

fn m(v: f64) -> Measure {
    Measure { bits: v.to_bits() }
}

fn record(variant: &str, kind: &str, size: u64, rate: f64) -> Record {
    Record {
        variant: variant.to_string(),
        kind: kind.to_string(),
        transport: "tcp_netns".to_string(),
        payload_bytes: size,
        peers: None,
        engine: None,
        lib_version: None,
        binding_version: None,
        latency: Some(Latency { p50_us: m(rate / 10.0), p99_us: m(rate) }),
        throughput: Some(Throughput { msgs_per_s: m(rate), gbps: m(rate / 2.0) }),
        stability: None,
    }
}

fn archive(records: Vec<Record>) -> Archive {
    Archive {
        date: "2026-07-03".to_string(),
        hardware: Hardware { cpu: None, note: None },
        records,
    }
}

fn library(key: &str) -> Impl {
    Impl {
        key: key.to_string(),
        label: key.to_uppercase(),
        note: String::new(),
        color: muted(),
    }
}

fn q<'a>(kind: &'a str, peers: Option<u32>) -> Query<'a> {
    Query { kind, transport: "tcp_netns", peers }
}

fn flat(s: &Series) -> Vec<(u64, String, f64)> {
    s.entries
        .iter()
        .flat_map(|(size, row)| {
            row.entries.iter().map(move |(k, v)| (*size, k.clone(), f64::from_bits(v.bits)))
        })
        .collect()
}

#[test]
fn measures_above_zero() {
    for v in [f64::MIN_POSITIVE, 5e-324, 1.0, f64::MAX, f64::INFINITY] {
        assert!(m(v).is_above_zero());
    }
    for v in [0.0, -0.0, -1.0, f64::NEG_INFINITY, f64::NAN, -f64::NAN] {
        assert!(!m(v).is_above_zero());
    }
}

#[test]
fn a_series_is_keyed_by_size_and_variant() {
    let a = archive(vec![
        record("b", "throughput", 64, 5.0),
        record("a", "throughput", 64, 7.0),
        record("a", "throughput", 16, 9.0),
        record("a", "latency", 16, 1.0),
        record("b", "throughput", 64, 6.0),
        record("c", "throughput", 64, 0.0),
        record("d", "throughput", 64, f64::NAN),
    ]);
    assert_eq!(
        flat(&a.series(&q("throughput", None), msgs)),
        vec![
            (16, "a".to_string(), 9.0),
            (64, "a".to_string(), 7.0),
            (64, "b".to_string(), 6.0)
        ]
    );
}

#[test]
fn a_series_leaves_out_inverted_and_foreign_cells() {
    let mut bad = record("a", "pubsub", 64, 5.0);
    bad.stability = Some(Stability { inverted: true, stable: true });
    assert!(!bad.plottable());
    let mut few = record("b", "pubsub", 64, 5.0);
    few.peers = Some(4);
    let mut far = record("c", "pubsub", 64, 5.0);
    far.transport = "ipc".to_string();
    let mut none = record("d", "pubsub", 64, 5.0);
    none.throughput = None;
    none.latency = None;
    assert_eq!((msgs(&none), gbps(&none)), (None, None));
    assert_eq!((lat_p50_us(&none), lat_p99_us(&none)), (None, None));
    let a = archive(vec![bad, few, far, none, record("e", "pubsub", 64, 5.0)]);
    assert_eq!(flat(&a.series(&q("pubsub", None), gbps)).len(), 2);
    let s = a.series(&q("pubsub", Some(4)), gbps);
    assert_eq!(flat(&s), vec![(64, "b".to_string(), 2.5)]);
}

#[test]
fn version_labels() {
    let mut native = record("n", "latency", 16, 1.0);
    native.lib_version = Some("0.4.0".to_string());
    let mut bound = record("t", "latency", 16, 1.0);
    bound.lib_version = Some("4.3.4".to_string());
    bound.binding_version = Some("0.5.0".to_string());
    bound.engine = Some("libzmq".to_string());
    let mut anon = record("u", "latency", 16, 1.0);
    anon.lib_version = Some("1".to_string());
    anon.binding_version = Some("2".to_string());
    let mut only = record("w", "latency", 16, 1.0);
    only.binding_version = Some("7".to_string());
    let mut later = record("n", "latency", 64, 1.0);
    later.lib_version = Some("9.9.9".to_string());
    let a = archive(vec![record("n", "latency", 1, 1.0), native, bound, anon, only, later]);
    let v = a.versions();
    let get = |k: &str| v.get(&k.to_string()).cloned();
    assert_eq!(get("n"), Some("0.4.0".to_string()));
    assert_eq!(get("t"), Some("0.5.0 (libzmq 4.3.4)".to_string()));
    assert_eq!(get("u"), Some("2 (engine 1)".to_string()));
    assert_eq!(get("w"), Some("7".to_string()));
    assert_eq!(v.entries.len(), 4);
}

#[test]
fn unstable_cells_are_counted() {
    let flag = |inverted, stable| {
        let mut r = record("a", "fanin", 64, 2.0);
        r.stability = Some(Stability { inverted, stable });
        r.peers = Some(4);
        r.latency = None;
        r
    };
    let a = archive(vec![
        flag(false, false),
        flag(false, true),
        flag(true, false),
        flag(false, false),
        record("a", "fanin", 64, 1.0),
    ]);
    assert_eq!(a.unstable_count(&q("fanin", None), msgs), 2);
    assert_eq!(a.unstable_count(&q("fanin", Some(4)), msgs), 2);
    assert_eq!(a.unstable_count(&q("fanin", Some(5)), msgs), 0);
    // A cell without the metric, or with a zero, is not plotted.
    assert_eq!(a.unstable_count(&q("fanin", None), lat_p50_us), 0);
    let mut zero = flag(false, false);
    zero.throughput = Some(Throughput { msgs_per_s: m(0.0), gbps: m(0.5) });
    let b = archive(vec![zero]);
    assert_eq!(b.unstable_count(&q("fanin", None), msgs), 0);
    assert_eq!(b.unstable_count(&q("fanin", None), gbps), 1);
    assert_eq!(
        footnote(2),
        "2 plotted cell(s) did not converge across replicates; read the shape, not the exact \
         value. Inverted cells are omitted."
    );
    assert_eq!(footnote(0), "Cells flagged inverted by replication are omitted.");
}

#[test]
fn where_the_numbers_came_from() {
    let mut a = archive(vec![]);
    assert_eq!(provenance(&a), "run 2026-07-03 - unknown host");
    a.hardware.cpu = Some("CPU".to_string());
    a.hardware.note = Some("bare metal".to_string());
    assert_eq!(provenance(&a), "run 2026-07-03 - CPU - bare metal");
}

#[test]
fn colours() {
    assert_eq!(parse_hex("#0fA9ff"), Rgb { r: 0x0f, g: 0xa9, b: 0xff });
    assert_eq!(parse_hex("###010203"), Rgb { r: 1, g: 2, b: 3 });
    assert_eq!(parse_hex("+1+f00"), Rgb { r: 1, g: 15, b: 0 });
    for bad in ["", "#12345", "1234567", "12345g", "++0000", "é1234", "éé12"] {
        assert_eq!(parse_hex(bad), muted());
    }
    assert_eq!(background(), Rgb { r: 15, g: 18, b: 22 });
    assert_eq!(grid(), Rgb { r: 42, g: 49, b: 58 });
    assert_eq!(axis(), muted());
    assert_eq!(text_colour(), Rgb { r: 230, g: 233, b: 238 });
}

#[test]
fn sizes() {
    assert_eq!(fmt_size(0), "0 B");
    assert_eq!(fmt_size(1023), "1023 B");
    assert_eq!(fmt_size(1024), "1 KiB");
    assert_eq!(fmt_size(16384 + 512), "16 KiB");
    let s = vec![16, 4096];
    assert_eq!(tick_label(&s, 1), "4 KiB");
    assert_eq!(tick_label(&s, 2), "");
    assert_eq!((axis_end(&vec![]), axis_end(&vec![1]), axis_end(&s)), (1, 1, 1));
    assert_eq!(axis_end(&vec![1, 2, 3]), 2);
}

#[test]
fn libraries_with_a_point() {
    let a = archive(vec![
        record("c", "throughput", 64, 5.0),
        record("a", "throughput", 16, 7.0),
        record("zz", "throughput", 32, 99.0),
    ]);
    let s = a.series(&q("throughput", None), msgs);
    let empty: Series = SortedMap::new();
    let impls = vec![library("a"), library("b"), library("c")];
    let shown = present(&[&empty, &s], &impls);
    assert_eq!(shown.iter().map(|i| i.key.as_str()).collect::<Vec<_>>(), vec!["a", "c"]);
    assert_eq!(series_max(&s, &shown), m(7.0));
    assert_eq!(series_max(&empty, &shown), m(0.0));
    assert_eq!(sizes_of(&[&s, &empty]), vec![16, 32, 64]);
}

#[test]
fn the_first_library_is_drawn_last() {
    let a = archive(vec![
        record("a", "throughput", 16, 1.0),
        record("a", "throughput", 64, 2.0),
        record("b", "throughput", 64, 3.0),
    ]);
    let s = a.series(&q("throughput", None), msgs);
    let impls = vec![library("a"), library("b"), library("x")];
    let all: Vec<&Impl> = impls.iter().collect();
    let lines = panel_lines(&vec![16, 32, 64], &all, &s);
    assert_eq!(lines.len(), 2);
    assert_eq!(lines[0].library.key, "b");
    assert_eq!(lines[0].points, vec![(2, m(3.0))]);
    assert_eq!(lines[1].library.key, "a");
    assert_eq!(lines[1].points, vec![(0, m(1.0)), (2, m(2.0))]);
}

#[test]
fn the_legend_wraps() {
    assert_eq!(legend_height(0, 950), 8);
    assert_eq!(legend_height(5, 950), 38);
    assert_eq!(legend_height(6, 950), 68);
    assert_eq!(legend_height(3, 100), 98);
    assert_eq!(legend_height(2, -5), 68);
    let impls: Vec<Impl> = (0..7).map(|i| library(&format!("k{i}"))).collect();
    let all: Vec<&Impl> = impls.iter().collect();
    let mut versions = SortedMap::new();
    versions.insert("k6".to_string(), "1.2".to_string());
    let e = legend(&all, &versions, 950);
    assert_eq!(e.len(), 7);
    assert_eq!((e[0].x, e[0].y), (18, 8));
    assert_eq!((e[4].x, e[4].y), (18 + 4 * 182, 8));
    assert_eq!((e[6].x, e[6].y), (18 + 182, 38));
    assert_eq!(e[5].label, "K5");
    assert_eq!(e[6].label, "K6 1.2");
    let places: Vec<(i32, i32)> = e.iter().map(|x| (x.x, x.y)).collect();
    for i in 0..places.len() {
        assert!(!places[i + 1..].contains(&places[i]));
    }
    assert_eq!(legend(&all[..2].to_vec(), &versions, -5)[1].x, 18);
}

#[test]
fn the_parts_of_a_chart_fill_it() {
    for n in [0, 1, 5, 12, 60] {
        let l = layout(n).unwrap();
        assert_eq!(l.header + l.body + l.legend + l.footnote, 470);
    }
    assert_eq!(layout(3).unwrap().legend, 38);
    assert_eq!(layout(12).unwrap().legend, 98);
    assert!(layout(61).is_none());
    assert!(layout(usize::MAX).is_none());
}

fn drawn<'a>(r: &'a Rendering<'a>) -> &'a Chart<'a> {
    match r {
        Rendering::Draw(c) => c,
        Rendering::Skip(f) => panic!("{f} has cells"),
    }
}

#[test]
fn seven_charts() {
    let mut ps = record("a", "pubsub", 64, 4.0);
    ps.peers = Some(32);
    ps.stability = Some(Stability { inverted: false, stable: false });
    let a = archive(vec![
        record("a", "latency", 16, 10.0),
        record("b", "latency", 64, 30.0),
        record("b", "throughput", 64, 8.0),
        ps,
    ]);
    let impls = vec![library("a"), library("b")];
    let r = render_all(&a, &impls, 32, 4);
    assert_eq!(r.len(), 7);
    let lat = drawn(&r[0]);
    assert_eq!(lat.file, "headline_reqrep_tcp.svg");
    assert_eq!(lat.title, "REQ/REP latency over TCP");
    assert_eq!(lat.left.caption, "p50 round-trip (lower is better)");
    assert_eq!(lat.right.caption, "p99 round-trip (lower is better)");
    assert_eq!(lat.left.sizes, vec![16, 64]);
    assert_eq!(lat.right.top, m(30.0));
    assert_eq!((lat.left.unit, lat.right.unit), (Unit::Micros, Unit::Micros));
    assert_eq!(lat.impls.len(), 2);
    assert_eq!(lat.footnote, "Cells flagged inverted by replication are omitted.");
    let push = drawn(&r[1]);
    assert_eq!(push.impls.len(), 1);
    assert_eq!((push.left.unit, push.right.unit), (Unit::Messages, Unit::Gigabytes));
    let sub = drawn(&r[2]);
    assert_eq!(sub.title, "PUB/SUB throughput over TCP, 32 subscribers");
    assert!(sub.footnote.starts_with("1 plotted cell(s)"));
    let names = [
        "extended_pushpull_ipc.svg",
        "extended_reqrep_ipc.svg",
        "extended_fanout_tcp.svg",
        "extended_fanin_tcp.svg",
    ];
    for (i, n) in names.iter().enumerate() {
        assert!(matches!(&r[3 + i], Rendering::Skip(f) if f == n));
    }
}

#[test]
fn the_newest_archive() {
    let names = |v: &[&str]| v.iter().map(|s| s.to_string()).collect::<Vec<String>>();
    let none: Vec<Dated> = Vec::new();
    assert_eq!(
        newest(
            &names(&["2026-01-02-run.json", "2026-07-03-run.json", "zz.json", "2025-run.json"]),
            &none
        ),
        Some("2026-07-03-run.json".to_string())
    );
    assert_eq!(newest(&names(&["run.json", "x"]), &none), None);
    assert_eq!(newest(&names(&["-run.json"]), &none), Some("-run.json".to_string()));
}

#[test]
fn the_manifest_dates_the_archives() {
    let dated = |f: &str, d: &str| Dated { file: f.to_string(), date: d.to_string() };
    let names: Vec<String> = ["a-run.json", "b-run.json", "c-run.json"]
        .iter()
        .map(|s| s.to_string())
        .collect();
    let manifest = vec![
        dated("b-run.json", "2026-07-03"),
        dated("c-run.json", "2026-01-01"),
        dated("a-run.json", "2026-07-03"),
        dated("gone-run.json", "2027-01-01"),
    ];
    // Of the two with the later date, the one with the later name.
    assert_eq!(newest(&names, &manifest), Some("b-run.json".to_string()));
    // An archive that is not listed is ordered by its name.
    let more = vec!["2026-08-01-run.json".to_string(), "b-run.json".to_string()];
    assert_eq!(newest(&more, &manifest), Some("2026-08-01-run.json".to_string()));
}

#[test]
fn which_archive_is_charted() {
    let s = |t: &str| Some(t.to_string());
    assert!(matches!(source(s("a"), s("b")), Ok(Source::File(f)) if f == "a"));
    assert!(matches!(source(None, s("b")), Ok(Source::Newest(d)) if d == "b"));
    assert_eq!(
        source(None, None).err(),
        Some("pass --run <archive.json> or --latest <dir>".to_string())
    );
}

fn d(digits: u64, exp: i32) -> Decimal {
    Decimal { digits, exp }
}

#[test]
fn readable_axes() {
    // 3.7 in at most five steps: steps of one, four of them.
    assert_eq!(nice_axis(d(37, -1), 5), Axis { max: d(4, 0), ticks: 4 });
    // 3700000 / 5 = 740000: steps of a million.
    assert_eq!(nice_axis(d(37, 5), 5), Axis { max: d(4, 6), ticks: 4 });
    // 10 / 5 = 2: steps of two.
    assert_eq!(nice_axis(d(10, 0), 5), Axis { max: d(10, 0), ticks: 5 });
    // 23 / 5 = 4.6: steps of five.
    assert_eq!(nice_axis(d(23, 0), 5), Axis { max: d(25, 0), ticks: 5 });
    // 5 / 5 = 1: steps of one.
    assert_eq!(nice_axis(d(5, 0), 5), Axis { max: d(5, 0), ticks: 5 });
    assert_eq!(nice_axis(d(0, 3), 5), Axis { max: d(1, 0), ticks: 2 });
    assert_eq!(nice_axis(d(7, 0), 0), Axis { max: d(1, 1), ticks: 1 });
}

#[test]
fn an_axis_reaches_the_value_in_few_steps() {
    for digits in [1, 3, 9, 10, 11, 99, 12345, 999_999_999_999, u64::MAX] {
        for lines in [1, 2, 5, 7, 1000] {
            let a = nice_axis(d(digits, 0), lines);
            let top = a.max.digits as f64 * 10f64.powi(a.max.exp);
            assert!(top >= digits as f64 * 0.999_999_999);
            assert!(a.ticks >= 1 && a.ticks <= lines as u64);
        }
    }
}

fn entry(build: Option<&str>, variant: Option<&str>) -> Entry {
    Entry {
        build: build.map(str::to_string),
        variant: variant.map(str::to_string),
        engine: Some("own".to_string()),
        lib_version: Some("1".to_string()),
        binding_version: None,
        kind: "latency".to_string(),
        transport: "ipc".to_string(),
        payload_bytes: 64,
        peers: Some(2),
        latency: Some(Latency { p50_us: m(1.0), p99_us: m(2.0) }),
        throughput: None,
        stability: None,
    }
}

#[test]
fn records_refer_to_builds() {
    let mut builds = SortedMap::new();
    builds.insert(
        "tmq@0.5.0+libzmq-4.3.4".to_string(),
        Build {
            variant: "tmq".to_string(),
            engine: Some("libzmq".to_string()),
            lib_version: Some("4.3.4".to_string()),
            binding_version: Some("0.5.0".to_string()),
        },
    );
    let r = entry(Some("tmq@0.5.0+libzmq-4.3.4"), None).resolve(&builds).unwrap();
    assert_eq!(r.variant, "tmq");
    assert_eq!(r.engine.as_deref(), Some("libzmq"));
    assert_eq!(r.lib_version.as_deref(), Some("4.3.4"));
    assert_eq!(r.binding_version.as_deref(), Some("0.5.0"));
    assert_eq!((r.kind.as_str(), r.transport.as_str()), ("latency", "ipc"));
    assert_eq!((r.payload_bytes, r.peers), (64, Some(2)));
    assert_eq!(lat_p99_us(&r), Some(m(2.0)));
    let old = entry(None, Some("zmq.rs")).resolve(&builds).unwrap();
    assert_eq!((old.variant.as_str(), old.engine.as_deref()), ("zmq.rs", Some("own")));
    assert_eq!(
        entry(Some("x@1"), Some("x")).resolve(&builds).err(),
        Some("record refers to unknown build x@1".to_string())
    );
    assert_eq!(
        entry(None, None).resolve(&builds).err(),
        Some("record names neither a build nor a variant".to_string())
    );
}
