//! The chart set.
//!
//! Two tiers: the headline charts hold the three patterns over tcp that every
//! implementation implements; the extended ones hold ipc, fan-out and fan-in.
//! The tiers split by pattern, never by library: every chart draws every
//! implementation that produced cells for it.
use vstd::prelude::*;
use crate::model::{gbps, lat_p50_us, lat_p99_us, msgs, Archive, Measure, Query, Record, Series};
use crate::number::decimal;
use crate::sorted_map::SortedMap;
use crate::text::{ends_with, less, or_text, same};
use crate::theme::{legend_height, panel_lines, present, series_max, Impl, Line};

verus! {

/// The width of a chart.
pub const W: u32 = 950;

/// The height of a chart.
pub const H: u32 = 470;

/// The height of its title block.
pub const HEADER_H: u32 = 62;

/// The least height of its legend; the real one depends on how many series wrap
/// into how many rows.
pub const LEGEND_MIN_H: u32 = 38;

/// The height of its footnote.
pub const FOOTNOTE_H: u32 = 18;

/// Whether `v` is the ascending list of the sizes that occur in the series.
pub open spec fn sizes_are(
    v: Seq<u64>,
    all: Seq<Map<u64, Map<Seq<char>, Measure>>>,
) -> bool {
    &&& forall|i: int, j: int| 0 <= i < j < v.len() ==> v[i] < v[j]
    &&& forall|x: u64| #[trigger] v.contains(x) <==> exists|s: int|
        0 <= s < all.len() && (#[trigger] all[s]).dom().contains(x)
}

/// Payload sizes present in the series, ascending. Read from the data, so that a
/// run charts what it actually measured.
pub fn sizes_of(series: &[&Series]) -> (r: Vec<u64>)
    requires
        forall|s: int|
            0 <= s < series@.len() ==> crate::model::series_wf(*(#[trigger] series@[s])),
    ensures
        sizes_are(r@, crate::theme::points_of(series@)),
{
    let ghost all = crate::theme::points_of(series@);
    let mut seen: SortedMap<u64, bool> = SortedMap::new();
    let mut s: usize = 0;
    while s < series.len()
        invariant
            s <= series@.len(),
            seen.wf(),
            all == crate::theme::points_of(series@),
            forall|k: int|
                0 <= k < series@.len() ==> crate::model::series_wf(*(#[trigger] series@[k])),
            forall|x: u64| #[trigger]
                seen@.dom().contains(x) <==> exists|k: int|
                    0 <= k < s && (#[trigger] all[k]).dom().contains(x),
        decreases series@.len() - s,
    {
        let one: &Series = series[s];
        let ghost before = seen@;
        let mut i: usize = 0;
        while i < one.entries.len()
            invariant
                i <= one.entries@.len(),
                seen.wf(),
                forall|x: u64| #[trigger]
                    seen@.dom().contains(x) <==> before.dom().contains(x) || exists|j: int|
                        0 <= j < i && (#[trigger] one.entries@[j]).0 == x,
            decreases one.entries@.len() - i,
        {
            let ghost prev = seen@;
            let size: u64 = one.entries[i].0;
            seen.insert(size, true);
            proof {
                assert forall|x: u64| #[trigger] seen@.dom().contains(x) <==> before.dom().contains(
                    x,
                ) || exists|j: int| 0 <= j < i + 1 && (#[trigger] one.entries@[j]).0 == x by {
                    assert(seen@ == prev.insert(size, true));
                    if x == size {
                        assert(one.entries@[i as int].0 == x);
                    } else if prev.dom().contains(x) && !before.dom().contains(x) {
                        let j = choose|j: int| 0 <= j < i && (#[trigger] one.entries@[j]).0 == x;
                        assert(one.entries@[j].0 == x);
                    }
                }
            }
            i += 1;
        }
        proof {
            assert(all[s as int] == crate::model::points(*one));
            assert(crate::model::series_wf(*series@[s as int]));
            assert forall|x: u64| #[trigger] seen@.dom().contains(x) <==> exists|k: int|
                0 <= k < s + 1 && (#[trigger] all[k]).dom().contains(x) by {
                assert(all[s as int].dom().contains(x) == one@.dom().contains(x));
                if one@.dom().contains(x) {
                    crate::sorted_map::lemma_key_has_entry(one.entries@, x);
                    let j = choose|j: int|
                        0 <= j < one.entries@.len() && (#[trigger] one.entries@[j]).0@ == x;
                    assert(one.entries@[j].0 == x);
                }
                if exists|j: int|
                    0 <= j < one.entries@.len() && (#[trigger] one.entries@[j]).0 == x {
                    let j = choose|j: int|
                        0 <= j < one.entries@.len() && (#[trigger] one.entries@[j]).0 == x;
                    crate::sorted_map::lemma_map_has(one.entries@, j);
                }
                if before.dom().contains(x) {
                    let k = choose|k: int| 0 <= k < s && (#[trigger] all[k]).dom().contains(x);
                    assert(all[k].dom().contains(x));
                }
            }
        }
        s += 1;
    }
    let mut out: Vec<u64> = Vec::new();
    let mut i: usize = 0;
    while i < seen.entries.len()
        invariant
            i <= seen.entries@.len(),
            out@.len() == i,
            forall|k: int| 0 <= k < i ==> out@[k] == seen.entries@[k].0,
        decreases seen.entries@.len() - i,
    {
        out.push(seen.entries[i].0);
        i += 1;
    }
    proof {
        assert forall|a: int, b: int| 0 <= a < b < out@.len() implies out@[a] < out@[b] by {
            assert(out@[a] == seen.entries@[a].0 && out@[b] == seen.entries@[b].0);
        }
        assert forall|x: u64| #[trigger] out@.contains(x) <==> seen@.dom().contains(x) by {
            if out@.contains(x) {
                let k = choose|k: int| 0 <= k < out@.len() && out@[k] == x;
                crate::sorted_map::lemma_map_has(seen.entries@, k);
            }
            if seen@.dom().contains(x) {
                crate::sorted_map::lemma_key_has_entry(seen.entries@, x);
                let k = choose|k: int|
                    0 <= k < seen.entries@.len() && (#[trigger] seen.entries@[k]).0@ == x;
                assert(out@[k] == x);
            }
        }
    }
    out
}

/// Where the numbers came from.
pub open spec fn provenance_of(a: Archive) -> Seq<char> {
    let line = "run "@ + a.date@ + " - "@ + crate::text::text_or(a.hardware.cpu, "unknown host"@);
    match a.hardware.note {
        Some(note) => line + " - "@ + note@,
        None => line,
    }
}

/// Where the numbers came from: the run, the host and its note. A reader who
/// cannot see that cannot tell a verdict from a smoke test.
pub fn provenance(a: &Archive) -> (r: String)
    ensures
        r@ == provenance_of(*a),
{
    let mut s = "run ".to_owned();
    s.append(a.date.as_str());
    s.append(" - ");
    s.append(or_text(&a.hardware.cpu, "unknown host").as_str());
    if let Some(note) = &a.hardware.note {
        s.append(" - ");
        s.append(note.as_str());
    }
    s
}

/// What to distrust about a chart.
pub open spec fn footnote_of(unstable: nat) -> Seq<char> {
    if unstable == 0 {
        "Cells flagged inverted by replication are omitted."@
    } else {
        crate::number::decimal_of(unstable)
            + " plotted cell(s) did not converge across replicates; read the shape, not the exact value. Inverted cells are omitted."@
    }
}

/// What to distrust about a chart, given how many of its cells did not converge.
pub fn footnote(unstable: usize) -> (r: String)
    ensures
        r@ == footnote_of(unstable as nat),
{
    if unstable == 0 {
        "Cells flagged inverted by replication are omitted.".to_owned()
    } else {
        let mut s = decimal(unstable as u64);
        s.append(
            " plotted cell(s) did not converge across replicates; read the shape, not the exact value. Inverted cells are omitted.",
        );
        s
    }
}

/// What a panel's values are.
#[derive(Clone, Copy, Debug, PartialEq, Eq, Structural)]
pub enum Unit {
    /// Messages per second.
    Messages,
    /// Gigabytes per second.
    Gigabytes,
    /// Microseconds.
    Micros,
}

/// One of the panels of a chart.
pub struct Panel<'a> {
    pub caption: &'static str,
    /// The payload sizes along the horizontal axis.
    pub sizes: Vec<u64>,
    /// The greatest value, from which the vertical axis follows.
    pub top: Measure,
    pub unit: Unit,
    /// The lines, in the order in which they are drawn.
    pub lines: Vec<Line<'a>>,
}

/// Everything that a chart shows and says about itself: what it is, what it
/// measures, where the numbers came from, and what to distrust about them.
pub struct Chart<'a> {
    pub file: &'static str,
    pub title: String,
    pub subtitle: &'static str,
    pub provenance: String,
    pub footnote: String,
    /// The libraries with a point, in legend order.
    pub impls: Vec<&'a Impl>,
    pub versions: SortedMap<String, String>,
    pub left: Panel<'a>,
    pub right: Panel<'a>,
}

/// What becomes of a chart.
pub enum Rendering<'a> {
    /// It has no cells and is left out.
    Skip(&'static str),
    Draw(Chart<'a>),
}

/// Whether a panel shows these points.
pub open spec fn panel_is(
    p: Panel<'_>,
    caption: Seq<char>,
    unit: Unit,
    sizes: Seq<u64>,
    impls: Seq<Impl>,
    pts: Map<u64, Map<Seq<char>, Measure>>,
) -> bool {
    &&& p.caption@ == caption
    &&& p.unit == unit
    &&& p.sizes@ == sizes
    &&& crate::theme::is_top(pts, impls, p.top)
    &&& crate::theme::lines_view(p.lines@) == crate::theme::panel_lines_of(sizes, impls, pts)
}

/// What a chart is asked for.
pub struct Asked {
    pub file: Seq<char>,
    pub title: Seq<char>,
    pub subtitle: Seq<char>,
    pub selector: crate::model::Selector,
}

/// Whether a chart is the one asked for, of the archive's cells, with the two
/// panels' points given, and how many of the plotted cells are unstable.
pub open spec fn chart_is(
    c: Chart<'_>,
    asked: Asked,
    a: Archive,
    impls: Seq<Impl>,
    unstable: nat,
    captions: (Seq<char>, Seq<char>),
    units: (Unit, Unit),
    left: Map<u64, Map<Seq<char>, Measure>>,
    right: Map<u64, Map<Seq<char>, Measure>>,
) -> bool {
    let shown = crate::theme::present_of(impls, seq![left, right]);
    &&& c.file@ == asked.file
    &&& c.title@ == asked.title
    &&& c.subtitle@ == asked.subtitle
    &&& c.provenance@ == provenance_of(a)
    &&& c.footnote@ == footnote_of(unstable)
    &&& crate::theme::impls_of(c.impls@) == shown
    &&& c.versions.wf()
    &&& crate::model::labels(c.versions) == crate::model::versions_of(a.records@)
    &&& sizes_are(c.left.sizes@, seq![left, right])
    &&& panel_is(c.left, captions.0, units.0, c.left.sizes@, shown, left)
    &&& panel_is(c.right, captions.1, units.1, c.left.sizes@, shown, right)
}

/// Whether a rendering is the one asked for: the chart is left out exactly
/// where its left panel has no points.
pub open spec fn rendering_is(
    r: Rendering<'_>,
    asked: Asked,
    a: Archive,
    impls: Seq<Impl>,
    unstable: nat,
    captions: (Seq<char>, Seq<char>),
    units: (Unit, Unit),
    left: Map<u64, Map<Seq<char>, Measure>>,
    right: Map<u64, Map<Seq<char>, Measure>>,
) -> bool {
    match r {
        Rendering::Skip(file) => file@ == asked.file && left == Map::<
            u64,
            Map<Seq<char>, Measure>,
        >::empty(),
        Rendering::Draw(c) => left != Map::<u64, Map<Seq<char>, Measure>>::empty() && chart_is(
            c,
            asked,
            a,
            impls,
            unstable,
            captions,
            units,
            left,
            right,
        ),
    }
}

/// The points of an archive's cells under a metric.
pub open spec fn points_under(
    a: Archive,
    q: crate::model::Selector,
    metric: spec_fn(Record) -> Option<Measure>,
) -> Map<u64, Map<Seq<char>, Measure>> {
    crate::model::series_of(a.records@, q, a.records@.map_values(metric))
}

/// The metric by which a cell is drawn on a chart at all: that of the left panel
/// where it has a point there, else that of the right one.
pub open spec fn drawn_of(left: Option<Measure>, right: Option<Measure>) -> Option<Measure> {
    if left is Some && left->0.above_zero() {
        left
    } else {
        right
    }
}

fn drawn(left: Option<Measure>, right: Option<Measure>) -> (r: Option<Measure>)
    ensures
        r == drawn_of(left, right),
{
    match left {
        Some(m) => if m.is_above_zero() {
            left
        } else {
            right
        },
        None => right,
    }
}

fn rate_drawn(r: &Record) -> (v: Option<Measure>)
    ensures
        v == drawn_of(crate::model::msgs_of(*r), crate::model::gbps_of(*r)),
{
    drawn(msgs(r), gbps(r))
}

fn latency_drawn(r: &Record) -> (v: Option<Measure>)
    ensures
        v == drawn_of(crate::model::p50_of(*r), crate::model::p99_of(*r)),
{
    drawn(lat_p50_us(r), lat_p99_us(r))
}

/// How many cells that a metric plots are unstable.
pub open spec fn unstable_under(
    a: Archive,
    q: crate::model::Selector,
    metric: spec_fn(Record) -> Option<Measure>,
) -> nat {
    crate::model::unstable_in(a.records@, q, a.records@.map_values(metric))
}

/// A cell is drawn on a chart exactly where one of its two panels has a point of
/// it.
pub proof fn law_drawn_in_a_panel(
    r: Record,
    q: crate::model::Selector,
    left: Option<Measure>,
    right: Option<Measure>,
)
    ensures
        crate::model::plotted(r, q, drawn_of(left, right)) <==> crate::model::plotted(r, q, left)
            || crate::model::plotted(r, q, right),
{
}

/// Whether a rendering is a throughput-family chart: message rate beside byte
/// rate. Both matter and they disagree, and one panel alone hides that.
pub open spec fn is_rate_chart(
    r: Rendering<'_>,
    asked: Asked,
    a: Archive,
    impls: Seq<Impl>,
) -> bool {
    rendering_is(
        r,
        asked,
        a,
        impls,
        unstable_under(
            a,
            asked.selector,
            |r: Record| drawn_of(crate::model::msgs_of(r), crate::model::gbps_of(r)),
        ),
        ("message rate (higher is better)"@, "byte rate (higher is better)"@),
        (Unit::Messages, Unit::Gigabytes),
        points_under(a, asked.selector, |r: Record| crate::model::msgs_of(r)),
        points_under(a, asked.selector, |r: Record| crate::model::gbps_of(r)),
    )
}

/// Whether a rendering is a latency chart: median beside tail. The first says
/// what a typical call costs, the second what the worst one in a hundred costs.
pub open spec fn is_latency_chart(
    r: Rendering<'_>,
    asked: Asked,
    a: Archive,
    impls: Seq<Impl>,
) -> bool {
    rendering_is(
        r,
        asked,
        a,
        impls,
        unstable_under(
            a,
            asked.selector,
            |r: Record| drawn_of(crate::model::p50_of(r), crate::model::p99_of(r)),
        ),
        ("p50 round-trip (lower is better)"@, "p99 round-trip (lower is better)"@),
        (Unit::Micros, Unit::Micros),
        points_under(a, asked.selector, |r: Record| crate::model::p50_of(r)),
        points_under(a, asked.selector, |r: Record| crate::model::p99_of(r)),
    )
}

fn build<'a>(
    a: &Archive,
    file: &'static str,
    title: String,
    subtitle: &'static str,
    q: &Query<'_>,
    impls: &'a Vec<Impl>,
    unstable: usize,
    captions: (&'static str, &'static str),
    units: (Unit, Unit),
    left: &Series,
    right: &Series,
) -> (r: Rendering<'a>)
    requires
        crate::model::series_wf(*left),
        crate::model::series_wf(*right),
    ensures
        rendering_is(
            r,
            Asked { file: file@, title: title@, subtitle: subtitle@, selector: q@ },
            *a,
            impls@,
            unstable as nat,
            (captions.0@, captions.1@),
            units,
            crate::model::points(*left),
            crate::model::points(*right),
        ),
{
    if left.entries.len() == 0 {
        assert(crate::model::points(*left) =~= Map::<u64, Map<Seq<char>, Measure>>::empty());
        return Rendering::Skip(file);
    }
    proof {
        crate::sorted_map::lemma_map_has(left.entries@, 0);
        assert(crate::model::points(*left).dom().contains(left.entries@[0].0));
    }
    let both: [&Series; 2] = [left, right];
    let ghost pts = seq![crate::model::points(*left), crate::model::points(*right)];
    assert(crate::theme::points_of(both@) =~= pts);
    let shown = present(&both, impls);
    let sizes = sizes_of(&both);
    let again = sizes.clone();
    assert(again@ =~= sizes@);
    let left_panel = Panel {
        caption: captions.0,
        top: series_max(left, &shown),
        unit: units.0,
        lines: panel_lines(&sizes, &shown, left),
        sizes,
    };
    let right_panel = Panel {
        caption: captions.1,
        top: series_max(right, &shown),
        unit: units.1,
        lines: panel_lines(&again, &shown, right),
        sizes: again,
    };
    Rendering::Draw(
        Chart {
            file,
            title,
            subtitle,
            provenance: provenance(a),
            footnote: footnote(unstable),
            impls: shown,
            versions: a.versions(),
            left: left_panel,
            right: right_panel,
        },
    )
}

/// A throughput-family chart.
pub fn rate_chart<'a>(
    a: &Archive,
    file: &'static str,
    title: String,
    subtitle: &'static str,
    q: &Query<'_>,
    impls: &'a Vec<Impl>,
) -> (r: Rendering<'a>)
    ensures
        is_rate_chart(
            r,
            Asked { file: file@, title: title@, subtitle: subtitle@, selector: q@ },
            *a,
            impls@,
        ),
{
    let left = a.series(q, msgs);
    let right = a.series(q, gbps);
    let unstable: usize = a.unstable_count(q, rate_drawn);
    proof {
        let f = |r: Record| crate::model::msgs_of(r);
        let g = |r: Record| crate::model::gbps_of(r);
        let u = choose|vals: Seq<Option<Measure>>|
            crate::model::metrics_are(msgs, a.records@, q@, vals) && crate::model::points(left)
                == #[trigger] crate::model::series_of(a.records@, q@, vals);
        let v = choose|vals: Seq<Option<Measure>>|
            crate::model::metrics_are(gbps, a.records@, q@, vals) && crate::model::points(right)
                == #[trigger] crate::model::series_of(a.records@, q@, vals);
        let h = |r: Record| drawn_of(crate::model::msgs_of(r), crate::model::gbps_of(r));
        let w = choose|vals: Seq<Option<Measure>>|
            crate::model::metrics_are(rate_drawn, a.records@, q@, vals) && unstable
                == #[trigger] crate::model::unstable_in(a.records@, q@, vals);
        crate::model::lemma_unstable_same(a.records@, q@, w, a.records@.map_values(h));
        crate::model::lemma_series_same(a.records@, q@, u, a.records@.map_values(f));
        crate::model::lemma_series_same(a.records@, q@, v, a.records@.map_values(g));
    }
    build(
        a,
        file,
        title,
        subtitle,
        q,
        impls,
        unstable,
        ("message rate (higher is better)", "byte rate (higher is better)"),
        (Unit::Messages, Unit::Gigabytes),
        &left,
        &right,
    )
}

/// A latency chart.
pub fn latency_chart<'a>(
    a: &Archive,
    file: &'static str,
    title: String,
    subtitle: &'static str,
    q: &Query<'_>,
    impls: &'a Vec<Impl>,
) -> (r: Rendering<'a>)
    ensures
        is_latency_chart(
            r,
            Asked { file: file@, title: title@, subtitle: subtitle@, selector: q@ },
            *a,
            impls@,
        ),
{
    let left = a.series(q, lat_p50_us);
    let right = a.series(q, lat_p99_us);
    let unstable: usize = a.unstable_count(q, latency_drawn);
    proof {
        let f = |r: Record| crate::model::p50_of(r);
        let g = |r: Record| crate::model::p99_of(r);
        let u = choose|vals: Seq<Option<Measure>>|
            crate::model::metrics_are(lat_p50_us, a.records@, q@, vals)
                && crate::model::points(left) == #[trigger] crate::model::series_of(
                a.records@,
                q@,
                vals,
            );
        let v = choose|vals: Seq<Option<Measure>>|
            crate::model::metrics_are(lat_p99_us, a.records@, q@, vals)
                && crate::model::points(right) == #[trigger] crate::model::series_of(
                a.records@,
                q@,
                vals,
            );
        let h = |r: Record| drawn_of(crate::model::p50_of(r), crate::model::p99_of(r));
        let w = choose|vals: Seq<Option<Measure>>|
            crate::model::metrics_are(latency_drawn, a.records@, q@, vals) && unstable
                == #[trigger] crate::model::unstable_in(a.records@, q@, vals);
        crate::model::lemma_unstable_same(a.records@, q@, w, a.records@.map_values(h));
        crate::model::lemma_series_same(a.records@, q@, u, a.records@.map_values(f));
        crate::model::lemma_series_same(a.records@, q@, v, a.records@.map_values(g));
    }
    build(
        a,
        file,
        title,
        subtitle,
        q,
        impls,
        unstable,
        ("p50 round-trip (lower is better)", "p99 round-trip (lower is better)"),
        (Unit::Micros, Unit::Micros),
        &left,
        &right,
    )
}

fn titled(front: &str, n: u32, back: &str) -> (r: String)
    ensures
        r@ == front@ + crate::number::decimal_of(n as nat) + back@,
{
    let mut s = front.to_owned();
    s.append(decimal(n as u64).as_str());
    s.append(back);
    s
}

/// What is asked for, spelled out.
pub open spec fn asked(
    file: Seq<char>,
    title: Seq<char>,
    subtitle: Seq<char>,
    kind: Seq<char>,
    transport: Seq<char>,
    peers: Option<u32>,
) -> Asked {
    Asked {
        file,
        title,
        subtitle,
        selector: crate::model::Selector { kind, transport, peers },
    }
}

/// The charts of an archive, headline ones first.
pub fn render_all<'a>(
    a: &Archive,
    impls: &'a Vec<Impl>,
    pubsub_peers: u32,
    fan_peers: u32,
) -> (r: Vec<Rendering<'a>>)
    ensures
        r@.len() == 7,
        is_latency_chart(
            r@[0],
            asked(
                "headline_reqrep_tcp.svg"@,
                "REQ/REP latency over TCP"@,
                "Round-trip time against payload size. One request in flight at a time."@,
                "latency"@,
                "tcp_netns"@,
                None,
            ),
            *a,
            impls@,
        ),
        is_rate_chart(
            r@[1],
            asked(
                "headline_pushpull_tcp.svg"@,
                "PUSH/PULL throughput over TCP"@,
                "One producer to one consumer, streaming as fast as the pair allows."@,
                "throughput"@,
                "tcp_netns"@,
                None,
            ),
            *a,
            impls@,
        ),
        is_rate_chart(
            r@[2],
            asked(
                "headline_pubsub_tcp.svg"@,
                "PUB/SUB throughput over TCP, "@ + crate::number::decimal_of(pubsub_peers as nat)
                    + " subscribers"@,
                "Aggregate rate out of one publisher broadcasting to every subscriber."@,
                "pubsub"@,
                "tcp_netns"@,
                Some(pubsub_peers),
            ),
            *a,
            impls@,
        ),
        is_rate_chart(
            r@[3],
            asked(
                "extended_pushpull_ipc.svg"@,
                "PUSH/PULL throughput over IPC"@,
                "The same pattern over unix domain sockets."@,
                "throughput"@,
                "ipc"@,
                None,
            ),
            *a,
            impls@,
        ),
        is_latency_chart(
            r@[4],
            asked(
                "extended_reqrep_ipc.svg"@,
                "REQ/REP latency over IPC"@,
                "The same pattern over unix domain sockets."@,
                "latency"@,
                "ipc"@,
                None,
            ),
            *a,
            impls@,
        ),
        is_rate_chart(
            r@[5],
            asked(
                "extended_fanout_tcp.svg"@,
                "PUSH fan-out over TCP, "@ + crate::number::decimal_of(fan_peers as nat)
                    + " workers"@,
                "One producer sharing work across many consumers."@,
                "fanout"@,
                "tcp_netns"@,
                Some(fan_peers),
            ),
            *a,
            impls@,
        ),
        is_rate_chart(
            r@[6],
            asked(
                "extended_fanin_tcp.svg"@,
                "PULL fan-in over TCP, "@ + crate::number::decimal_of(fan_peers as nat)
                    + " workers"@,
                "Many producers converging on one consumer."@,
                "fanin"@,
                "tcp_netns"@,
                Some(fan_peers),
            ),
            *a,
            impls@,
        ),
{
    let mut out: Vec<Rendering<'a>> = Vec::new();
    out.push(
        latency_chart(
            a,
            "headline_reqrep_tcp.svg",
            "REQ/REP latency over TCP".to_owned(),
            "Round-trip time against payload size. One request in flight at a time.",
            &Query { kind: "latency", transport: "tcp_netns", peers: None },
            impls,
        ),
    );
    out.push(
        rate_chart(
            a,
            "headline_pushpull_tcp.svg",
            "PUSH/PULL throughput over TCP".to_owned(),
            "One producer to one consumer, streaming as fast as the pair allows.",
            &Query { kind: "throughput", transport: "tcp_netns", peers: None },
            impls,
        ),
    );
    out.push(
        rate_chart(
            a,
            "headline_pubsub_tcp.svg",
            titled("PUB/SUB throughput over TCP, ", pubsub_peers, " subscribers"),
            "Aggregate rate out of one publisher broadcasting to every subscriber.",
            &Query { kind: "pubsub", transport: "tcp_netns", peers: Some(pubsub_peers) },
            impls,
        ),
    );
    out.push(
        rate_chart(
            a,
            "extended_pushpull_ipc.svg",
            "PUSH/PULL throughput over IPC".to_owned(),
            "The same pattern over unix domain sockets.",
            &Query { kind: "throughput", transport: "ipc", peers: None },
            impls,
        ),
    );
    out.push(
        latency_chart(
            a,
            "extended_reqrep_ipc.svg",
            "REQ/REP latency over IPC".to_owned(),
            "The same pattern over unix domain sockets.",
            &Query { kind: "latency", transport: "ipc", peers: None },
            impls,
        ),
    );
    out.push(
        rate_chart(
            a,
            "extended_fanout_tcp.svg",
            titled("PUSH fan-out over TCP, ", fan_peers, " workers"),
            "One producer sharing work across many consumers.",
            &Query { kind: "fanout", transport: "tcp_netns", peers: Some(fan_peers) },
            impls,
        ),
    );
    out.push(
        rate_chart(
            a,
            "extended_fanin_tcp.svg",
            titled("PULL fan-in over TCP, ", fan_peers, " workers"),
            "Many producers converging on one consumer.",
            &Query { kind: "fanin", transport: "tcp_netns", peers: Some(fan_peers) },
            impls,
        ),
    );
    out
}

/// The heights of a chart's parts, from the title block down.
#[derive(Clone, Copy, Debug, PartialEq, Eq, Structural)]
pub struct Layout {
    pub header: u32,
    pub body: u32,
    pub legend: u32,
    pub footnote: u32,
}

/// The height of a legend of so many entries in a chart.
pub open spec fn legend_h(count: int) -> int {
    let h = crate::theme::legend_height_of(count, W as int);
    if h >= LEGEND_MIN_H {
        h
    } else {
        LEGEND_MIN_H as int
    }
}

/// Whether a legend of so many entries leaves the body no room. Such a chart
/// cannot be drawn.
pub open spec fn crowded(count: int) -> bool {
    legend_h(count) > H - HEADER_H - FOOTNOTE_H
}

/// The heights of the parts of a chart with so many legend entries, which fill
/// it exactly, or None where the legend leaves the body no room.
pub fn layout(count: usize) -> (r: Option<Layout>)
    ensures
        match r {
            Some(l) => {
                &&& !crowded(count as int)
                &&& l.header == HEADER_H
                &&& l.legend == legend_h(count as int)
                &&& l.footnote == FOOTNOTE_H
                &&& l.header + l.body + l.legend + l.footnote == H
            },
            None => crowded(count as int),
        },
{
    if count > 1000 {
        assert(crate::theme::columns_of(count as int, 950) == 5);
        assert(crate::theme::rows_of(count as int, 950) == (count + 4) / 5);
        return None;
    }
    assert(crate::theme::rows_of(count as int, 950) <= count) by (nonlinear_arith)
        requires
            crate::theme::columns_of(count as int, 950) >= 1,
            count >= 1 || crate::theme::columns_of(count as int, 950) == 1,
    ;
    let h: u32 = legend_height(count, 950);
    let legend: u32 = if h >= LEGEND_MIN_H {
        h
    } else {
        LEGEND_MIN_H
    };
    if legend > H - HEADER_H - FOOTNOTE_H {
        return None;
    }
    Some(
        Layout {
            header: HEADER_H,
            body: H - HEADER_H - legend - FOOTNOTE_H,
            legend,
            footnote: FOOTNOTE_H,
        },
    )
}

/// Every series that the arena's own list can hold, up to sixty, has room in
/// the legend.
pub proof fn law_sixty_series_fit(count: int)
    requires
        0 <= count <= 60,
    ensures
        !crowded(count),
{
    let cols = crate::theme::columns_of(count, 950);
    assert(914int / 160 == 5);
    if count >= 5 {
        assert(cols == 5);
    } else if count >= 1 {
        assert(cols == count);
        assert((count + count - 1) / count <= 1) by (nonlinear_arith)
            requires
                count >= 1,
        ;
    }
}

/// What an archive's file name ends in.
pub open spec fn archive_suffix() -> Seq<char> {
    "-run.json"@
}

/// One archive of the run manifest.
pub struct Dated {
    pub file: String,
    pub date: String,
}

/// What an archive is ordered by: the date that the manifest gives for it, or
/// its name, which begins with its date, where the manifest does not list it.
pub open spec fn date_of(manifest: Seq<Dated>, name: Seq<char>) -> Seq<char>
    decreases manifest.len(),
{
    if manifest.len() == 0 {
        name
    } else if manifest[0].file@ == name {
        manifest[0].date@
    } else {
        date_of(manifest.skip(1), name)
    }
}

/// Whether the archive `a` is older than `b`. Of two with the same date, the
/// one whose name comes first is.
pub open spec fn is_older(manifest: Seq<Dated>, a: Seq<char>, b: Seq<char>) -> bool {
    let x = date_of(manifest, a);
    let y = date_of(manifest, b);
    crate::text::before(x, y) || (x == y && crate::text::before(a, b))
}

/// Whether a name is that of an archive and none of the archives is newer.
pub open spec fn is_newest(manifest: Seq<Dated>, names: Seq<Seq<char>>, n: Seq<char>) -> bool {
    &&& names.contains(n)
    &&& crate::text::ends(n, archive_suffix())
    &&& forall|i: int|
        0 <= i < names.len() && crate::text::ends(names[i], archive_suffix()) ==> !is_older(
            manifest,
            n,
            #[trigger] names[i],
        )
}

fn date<'a>(manifest: &'a Vec<Dated>, name: &'a str) -> (r: &'a str)
    ensures
        r@ == date_of(manifest@, name@),
{
    let mut i: usize = 0;
    assert(manifest@.skip(0) =~= manifest@);
    while i < manifest.len()
        invariant
            i <= manifest@.len(),
            date_of(manifest@, name@) == date_of(manifest@.skip(i as int), name@),
        decreases manifest@.len() - i,
    {
        if same(manifest[i].file.as_str(), name) {
            return manifest[i].date.as_str();
        }
        assert(manifest@.skip(i as int).skip(1) =~= manifest@.skip(i + 1));
        i += 1;
    }
    name
}

fn older(manifest: &Vec<Dated>, a: &str, b: &str) -> (r: bool)
    ensures
        r == is_older(manifest@, a@, b@),
{
    let x = date(manifest, a);
    let y = date(manifest, b);
    less(x, y) || (same(x, y) && less(a, b))
}

proof fn lemma_not_older_than_itself(manifest: Seq<Dated>, a: Seq<char>)
    ensures
        !is_older(manifest, a, a),
{
    crate::text::lemma_before_irreflexive(a, 0);
    crate::text::lemma_before_irreflexive(date_of(manifest, a), 0);
}

proof fn lemma_older_transitive(manifest: Seq<Dated>, a: Seq<char>, b: Seq<char>, c: Seq<char>)
    requires
        is_older(manifest, a, b),
        is_older(manifest, b, c),
    ensures
        is_older(manifest, a, c),
{
    let x = date_of(manifest, a);
    let y = date_of(manifest, b);
    let z = date_of(manifest, c);
    if crate::text::before(x, y) && crate::text::before(y, z) {
        crate::text::lemma_before_transitive(x, y, z, 0);
    }
    if x == y && y == z {
        if !crate::text::before(x, z) && crate::text::before(a, b) && crate::text::before(b, c) {
            crate::text::lemma_before_transitive(a, b, c, 0);
        }
    }
}

/// The newest archive among the names of a directory's files, by the dates of
/// the run manifest. Without one, which is the empty list, it is the last in
/// the order of their names, since they begin with their date.
pub fn newest(names: &Vec<String>, manifest: &Vec<Dated>) -> (r: Option<String>)
    ensures
        match r {
            Some(n) => is_newest(manifest@, crate::text::views(names@), n@),
            None => forall|i: int|
                0 <= i < names@.len() ==> !crate::text::ends(
                    (#[trigger] names@[i])@,
                    archive_suffix(),
                ),
        },
{
    let ghost all = crate::text::views(names@);
    let mut best: Option<usize> = None;
    let mut i: usize = 0;
    while i < names.len()
        invariant
            i <= names@.len(),
            all == crate::text::views(names@),
            match best {
                Some(b) => {
                    &&& b < i
                    &&& crate::text::ends(names@[b as int]@, archive_suffix())
                    &&& forall|k: int|
                        0 <= k < i && crate::text::ends(names@[k]@, archive_suffix()) ==> !is_older(
                            manifest@,
                            names@[b as int]@,
                            (#[trigger] names@[k])@,
                        )
                },
                None => forall|k: int|
                    0 <= k < i ==> !crate::text::ends((#[trigger] names@[k])@, archive_suffix()),
            },
        decreases names@.len() - i,
    {
        if ends_with(names[i].as_str(), "-run.json") {
            proof {
                lemma_not_older_than_itself(manifest@, names@[i as int]@);
            }
            match best {
                Some(b) => {
                    if older(manifest, names[b].as_str(), names[i].as_str()) {
                        proof {
                            let past = names@[b as int]@;
                            let found = names@[i as int]@;
                            assert forall|k: int|
                                0 <= k < i && crate::text::ends(
                                    names@[k]@,
                                    archive_suffix(),
                                ) implies !is_older(manifest@, found, (#[trigger] names@[k])@) by {
                                if is_older(manifest@, found, names@[k]@) {
                                    lemma_older_transitive(manifest@, past, found, names@[k]@);
                                }
                            }
                        }
                        best = Some(i);
                    }
                },
                None => {
                    best = Some(i);
                },
            }
        }
        i += 1;
    }
    match best {
        Some(b) => {
            proof {
                assert(all[b as int] == names@[b as int]@);
                assert forall|k: int|
                    0 <= k < all.len() && crate::text::ends(
                        all[k],
                        archive_suffix(),
                    ) implies !is_older(manifest@, all[b as int], #[trigger] all[k]) by {
                    assert(all[k] == names@[k]@);
                }
            }
            Some(names[b].clone())
        },
        None => None,
    }
}

/// Without a manifest the archives stand in the order of their names.
pub proof fn law_names_order_archives(a: Seq<char>, b: Seq<char>)
    ensures
        is_older(Seq::empty(), a, b) == crate::text::before(a, b),
{
    crate::text::lemma_before_irreflexive(a, 0);
}

/// Which archive a report is made of.
pub enum Source {
    /// This file.
    File(String),
    /// The newest one in this directory.
    Newest(String),
}

/// Which archive a report is made of: the file, where one is named, else the
/// newest one of the directory.
pub fn source(run: Option<String>, latest: Option<String>) -> (r: Result<Source, String>)
    ensures
        match r {
            Ok(Source::File(f)) => run == Some(f),
            Ok(Source::Newest(d)) => run is None && latest == Some(d),
            Err(e) => run is None && latest is None && e@
                == "pass --run <archive.json> or --latest <dir>"@,
        },
{
    match run {
        Some(f) => Ok(Source::File(f)),
        None => match latest {
            Some(d) => Ok(Source::Newest(d)),
            None => Err("pass --run <archive.json> or --latest <dir>".to_owned()),
        },
    }
}

/// An archive that the manifest lists has the date of its first entry there, and
/// one that it does not list goes by its name.
pub proof fn law_manifest_gives_the_date(manifest: Seq<Dated>, name: Seq<char>, i: int)
    requires
        0 <= i <= manifest.len(),
        i < manifest.len() ==> manifest[i].file@ == name,
        forall|j: int| 0 <= j < i ==> (#[trigger] manifest[j]).file@ != name,
    ensures
        date_of(manifest, name) == (if i < manifest.len() {
            manifest[i].date@
        } else {
            name
        }),
    decreases manifest.len(),
{
    if i > 0 {
        assert(manifest[0].file@ != name);
        let rest = manifest.skip(1);
        assert forall|j: int| 0 <= j < i - 1 implies (#[trigger] rest[j]).file@ != name by {
            assert(manifest[j + 1].file@ != name);
        }
        law_manifest_gives_the_date(rest, name, i - 1);
    }
}

/// Archives have an age: none is older than itself, of two that differ one is the
/// older and not both, and what is older than an older one is older. A later date
/// is never older.
pub proof fn law_archives_are_ordered(
    manifest: Seq<Dated>,
    a: Seq<char>,
    b: Seq<char>,
    c: Seq<char>,
)
    ensures
        !is_older(manifest, a, a),
        a != b ==> is_older(manifest, a, b) != is_older(manifest, b, a),
        is_older(manifest, a, b) && is_older(manifest, b, c) ==> is_older(manifest, a, c),
        crate::text::before(date_of(manifest, a), date_of(manifest, b)) ==> is_older(
            manifest,
            a,
            b,
        ),
{
    lemma_not_older_than_itself(manifest, a);
    let x = date_of(manifest, a);
    let y = date_of(manifest, b);
    if a != b {
        crate::text::lemma_before_total(a, b, 0);
        if x != y {
            crate::text::lemma_before_total(x, y, 0);
        } else {
            crate::text::lemma_before_irreflexive(x, 0);
        }
        if is_older(manifest, a, b) && is_older(manifest, b, a) {
            lemma_older_transitive(manifest, a, b, a);
        }
    }
    if is_older(manifest, a, b) && is_older(manifest, b, c) {
        lemma_older_transitive(manifest, a, b, c);
    }
}

/// There is one newest archive at most: two that are both have the same name. It
/// is an archive, and no archive of the directory is newer.
pub proof fn law_newest_is_unique(
    manifest: Seq<Dated>,
    names: Seq<Seq<char>>,
    a: Seq<char>,
    b: Seq<char>,
)
    requires
        is_newest(manifest, names, a),
        is_newest(manifest, names, b),
    ensures
        a == b,
        crate::text::ends(a, "-run.json"@),
        names.contains(a),
        forall|i: int|
            0 <= i < names.len() && crate::text::ends(#[trigger] names[i], "-run.json"@)
                && names[i] != a ==> is_older(manifest, names[i], a),
{
    let i = choose|i: int| 0 <= i < names.len() && names[i] == a;
    let j = choose|j: int| 0 <= j < names.len() && names[j] == b;
    assert(!is_older(manifest, a, names[j]));
    assert(!is_older(manifest, b, names[i]));
    law_archives_are_ordered(manifest, a, b, a);
    assert forall|k: int|
        0 <= k < names.len() && crate::text::ends(#[trigger] names[k], "-run.json"@) && names[k]
            != a implies is_older(manifest, names[k], a) by {
        assert(!is_older(manifest, a, names[k]));
        law_archives_are_ordered(manifest, a, names[k], a);
    }
}

/// A chart says where its numbers came from: the run, the host, and the host's
/// note where it has one.
pub proof fn law_provenance_names_the_run(a: Archive)
    ensures
        ({
            let line = "run "@ + a.date@ + " - "@ + (match a.hardware.cpu {
                Some(c) => c@,
                None => "unknown host"@,
            });
            match a.hardware.note {
                Some(n) => provenance_of(a) == line + " - "@ + n@,
                None => provenance_of(a) == line,
            }
        }),
{
}

/// A footnote begins with the number of the cells to distrust, where there are
/// any.
pub proof fn law_footnote_begins_with_the_number(n: nat)
    requires
        n > 0,
    ensures
        crate::text::begins(footnote_of(n), crate::number::decimal_of(n)),
{
    let d = crate::number::decimal_of(n);
    assert(footnote_of(n).subrange(0, d.len() as int) =~= d);
}

/// A legend has the room that its rows need and the least that one may have, and a
/// chart cannot be drawn exactly where that leaves nothing of its height between
/// the title and the footnote.
pub proof fn law_legend_room(count: int)
    ensures
        legend_h(count) >= 38,
        legend_h(count) >= crate::theme::legend_height_of(count, 950),
        legend_h(count) == 38 || legend_h(count) == crate::theme::legend_height_of(count, 950),
        crowded(count) <==> 62 + legend_h(count) + 18 > 470,
{
}

} // verus!
