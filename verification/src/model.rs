//! The run archive as the reporter reads it.
//!
//! A deliberately partial view of the record schema: the fields that the charts
//! plot, plus the stability block that says whether a cell may be plotted at
//! all.
use vstd::prelude::*;
use crate::sorted_map::SortedMap;
use crate::text::{or_text, same};

verus! {

/// A measured value, by the bit pattern of its IEEE 754 double. The patterns of
/// the values above zero are those from one up to infinity's, and among them a
/// greater pattern is a greater value.
#[derive(Clone, Copy, Debug, PartialEq, Eq, Structural)]
pub struct Measure {
    pub bits: u64,
}

/// The pattern of positive infinity, the greatest of all values above zero.
pub const INFINITY_BITS: u64 = 0x7ff0_0000_0000_0000;

impl Measure {
    /// Whether the value is above zero.
    pub open spec fn above_zero(self) -> bool {
        0 < self.bits <= INFINITY_BITS
    }

    /// Whether the value is above zero.
    pub fn is_above_zero(self) -> (r: bool)
        ensures
            r == self.above_zero(),
    {
        0 < self.bits && self.bits <= INFINITY_BITS
    }
}

/// Round-trip latency in microseconds.
#[derive(Clone, Copy, Debug, PartialEq, Eq, Structural)]
pub struct Latency {
    pub p50_us: Measure,
    pub p99_us: Measure,
}

/// Message rate and byte rate, the latter in gigabytes per second: it is easier
/// to sanity-check against link and memory bandwidth than a bit rate.
#[derive(Clone, Copy, Debug, PartialEq, Eq, Structural)]
pub struct Throughput {
    pub msgs_per_s: Measure,
    pub gbps: Measure,
}

/// What replication says of a cell.
#[derive(Clone, Copy, Debug, PartialEq, Eq, Structural)]
pub struct Stability {
    /// Set when a cell's message rate is beaten by a larger payload in the same
    /// sweep, which is physically impossible on one path and marks the number
    /// as a measurement artifact.
    pub inverted: bool,
    pub stable: bool,
}

/// The host of a run.
pub struct Hardware {
    pub cpu: Option<String>,
    pub note: Option<String>,
}

/// One cell of a run.
pub struct Record {
    pub variant: String,
    pub kind: String,
    pub transport: String,
    pub payload_bytes: u64,
    pub peers: Option<u32>,
    pub engine: Option<String>,
    pub lib_version: Option<String>,
    /// Set only by bindings: the wrapper crate's own version. `lib_version` is
    /// then the engine underneath it.
    pub binding_version: Option<String>,
    pub latency: Option<Latency>,
    pub throughput: Option<Throughput>,
    pub stability: Option<Stability>,
}

/// A run.
pub struct Archive {
    pub date: String,
    pub hardware: Hardware,
    pub records: Vec<Record>,
}

/// payload size -> variant -> value.
pub type Series = SortedMap<u64, SortedMap<String, Measure>>;

/// Selector for one chart's worth of cells.
pub struct Query<'a> {
    pub kind: &'a str,
    pub transport: &'a str,
    pub peers: Option<u32>,
}

/// A selector over characters.
pub struct Selector {
    pub kind: Seq<char>,
    pub transport: Seq<char>,
    pub peers: Option<u32>,
}

impl<'a> View for Query<'a> {
    type V = Selector;

    open spec fn view(&self) -> Selector {
        Selector { kind: self.kind@, transport: self.transport@, peers: self.peers }
    }
}

/// Whether replication did not prove a cell wrong.
pub open spec fn is_plottable(r: Record) -> bool {
    !(r.stability matches Some(s) && s.inverted)
}

impl Record {
    /// A cell is plottable unless replication proved it wrong. Charts must not
    /// draw an inverted cell: it is a known-bad number, and a line through it
    /// reads as a real dip.
    pub fn plottable(&self) -> (r: bool)
        ensures
            r == is_plottable(*self),
    {
        match &self.stability {
            Some(s) => !s.inverted,
            None => true,
        }
    }
}

/// Whether a cell is one of those that a query selects and may be plotted.
pub open spec fn selected(r: Record, q: Selector) -> bool {
    &&& r.kind@ == q.kind
    &&& r.transport@ == q.transport
    &&& is_plottable(r)
    &&& q.peers is Some ==> r.peers == q.peers
}

fn is_selected(r: &Record, q: &Query<'_>) -> (b: bool)
    ensures
        b == selected(*r, q@),
{
    if !same(r.kind.as_str(), q.kind) || !same(r.transport.as_str(), q.transport)
        || !r.plottable() {
        return false;
    }
    match q.peers {
        Some(p) => match r.peers {
            Some(n) => n == p,
            None => false,
        },
        None => true,
    }
}

/// A series as a map of maps.
pub open spec fn points(s: Series) -> Map<u64, Map<Seq<char>, Measure>> {
    s@.map_values(|m: SortedMap<String, Measure>| m@)
}

/// A series whose rows are maps too.
pub open spec fn series_wf(s: Series) -> bool {
    &&& s.wf()
    &&& forall|k: u64| s@.dom().contains(k) ==> (#[trigger] s@[k]).wf()
}

/// The points with one more, in place of what stood there.
pub open spec fn with_point(
    m: Map<u64, Map<Seq<char>, Measure>>,
    size: u64,
    variant: Seq<char>,
    v: Measure,
) -> Map<u64, Map<Seq<char>, Measure>> {
    let row = if m.dom().contains(size) {
        m[size]
    } else {
        Map::empty()
    };
    m.insert(size, row.insert(variant, v))
}

/// The points of a list of cells, given each cell's metric: those that the
/// query selects and whose metric is there and above zero. Of two cells with the
/// same size and variant the later one counts.
pub open spec fn series_of(
    records: Seq<Record>,
    q: Selector,
    metrics: Seq<Option<Measure>>,
) -> Map<u64, Map<Seq<char>, Measure>>
    decreases records.len(),
{
    if records.len() == 0 || metrics.len() != records.len() {
        Map::empty()
    } else {
        let rest = series_of(records.drop_last(), q, metrics.drop_last());
        let r = records.last();
        if plotted(r, q, metrics.last()) {
            with_point(rest, r.payload_bytes, r.variant@, metrics.last()->0)
        } else {
            rest
        }
    }
}

/// Whether a cell with that metric becomes a point.
pub open spec fn plotted(r: Record, q: Selector, metric: Option<Measure>) -> bool {
    selected(r, q) && metric is Some && metric->0.above_zero()
}

fn put(series: &mut Series, size: u64, variant: String, v: Measure)
    requires
        series_wf(*old(series)),
    ensures
        series_wf(*final(series)),
        points(*final(series)) == with_point(points(*old(series)), size, variant@, v),
{
    let ghost before = series@;
    let mut row: SortedMap<String, Measure> = match series.take(&size) {
        Some(r) => r,
        None => SortedMap::new(),
    };
    let ghost old_row = row@;
    row.insert(variant, v);
    series.insert(size, row);
    proof {
        assert(series@ =~= before.insert(size, row));
        assert(points(*series) =~= with_point(points(*old(series)), size, variant@, v)) by {
            if before.dom().contains(size) {
                assert(points(*old(series))[size] == before[size]@);
            }
        }
        assert forall|k: u64| series@.dom().contains(k) implies (#[trigger] series@[k]).wf() by {
            if k != size {
                assert(before.dom().contains(k));
                assert(before[k].wf());
            }
        }
    }
}

/// Whether `vals` are results that the metric may give for the cells that the
/// query selects.
pub open spec fn metrics_are<F: Fn(&Record) -> Option<Measure>>(
    metric: F,
    records: Seq<Record>,
    q: Selector,
    vals: Seq<Option<Measure>>,
) -> bool {
    &&& vals.len() == records.len()
    &&& forall|i: int|
        0 <= i < records.len() && selected(records[i], q) ==> call_ensures(
            metric,
            (&records[i],),
            #[trigger] vals[i],
        )
}

impl Archive {
    /// Collect one metric into a payload-size keyed series, skipping cells that
    /// replication flagged as wrong and cells whose metric is missing or zero.
    pub fn series<F: Fn(&Record) -> Option<Measure>>(&self, q: &Query<'_>, metric: F) -> (out:
        Series)
        requires
            forall|r: &Record| #[trigger] call_requires(metric, (r,)),
        ensures
            series_wf(out),
            exists|vals: Seq<Option<Measure>>|
                metrics_are(metric, self.records@, q@, vals) && points(out) == #[trigger] series_of(
                    self.records@,
                    q@,
                    vals,
                ),
    {
        let mut out: Series = SortedMap::new();
        let mut i: usize = 0;
        let ghost mut vals: Seq<Option<Measure>> = Seq::empty();
        let ghost all = self.records@;
        assert(points(out) =~= Map::<u64, Map<Seq<char>, Measure>>::empty());
        while i < self.records.len()
            invariant
                i <= all.len(),
                all == self.records@,
                vals.len() == i,
                forall|r: &Record| #[trigger] call_requires(metric, (r,)),
                forall|k: int|
                    0 <= k < i && selected(all[k], q@) ==> call_ensures(
                        metric,
                        (&all[k],),
                        #[trigger] vals[k],
                    ),
                series_wf(out),
                points(out) == series_of(all.take(i as int), q@, vals),
            decreases all.len() - i,
        {
            let r = &self.records[i];
            let ghost before = vals;
            let mut found: Option<Measure> = None;
            if is_selected(r, q) {
                found = metric(r);
            }
            proof {
                vals = vals.push(found);
                assert(vals.drop_last() =~= before);
                assert(all.take(i + 1).drop_last() =~= all.take(i as int));
                assert(all.take(i + 1).last() == *r);
            }
            if let Some(v) = found {
                if v.is_above_zero() {
                    put(&mut out, r.payload_bytes, r.variant.clone(), v);
                }
            }
            i += 1;
        }
        proof {
            assert(all.take(all.len() as int) =~= all);
            assert(metrics_are(metric, all, q@, vals));
        }
        out
    }

    /// Version string per variant, for the legend. Takes the first seen; a run
    /// measures one build of each engine.
    ///
    /// For a binding the wrapper's own version is the identity and the engine
    /// underneath is context, so it reads `0.5.0 (libzmq 4.3.4)`. Native engines
    /// have no binding version and keep the plain library version.
    pub fn versions(&self) -> (out: SortedMap<String, String>)
        ensures
            out.wf(),
            labels(out) == versions_of(self.records@),
    {
        let mut out: SortedMap<String, String> = SortedMap::new();
        let mut i: usize = 0;
        let ghost all = self.records@;
        assert(labels(out) =~= Map::<Seq<char>, Seq<char>>::empty());
        assert(all.take(0) =~= Seq::empty());
        while i < self.records.len()
            invariant
                i <= all.len(),
                all == self.records@,
                out.wf(),
                labels(out) == versions_of(all.take(i as int)),
            decreases all.len() - i,
        {
            let r = &self.records[i];
            proof {
                assert(all.take(i + 1).drop_last() =~= all.take(i as int));
                assert(all.take(i + 1).last() == *r);
            }
            let ghost before = out;
            if let Some(label) = version_label(r) {
                out.insert_if_absent(r.variant.clone(), label);
                assert(labels(out) =~= (if labels(before).dom().contains(r.variant@) {
                    labels(before)
                } else {
                    labels(before).insert(r.variant@, label@)
                }));
            }
            i += 1;
        }
        assert(all.take(all.len() as int) =~= all);
        out
    }

    /// How many of the cells that one metric plots did not converge across
    /// replicates. Shown on the chart so that a reader knows how much to trust
    /// the shape.
    pub fn unstable_count<F: Fn(&Record) -> Option<Measure>>(
        &self,
        q: &Query<'_>,
        metric: F,
    ) -> (n: usize)
        requires
            forall|r: &Record| #[trigger] call_requires(metric, (r,)),
        ensures
            exists|vals: Seq<Option<Measure>>|
                metrics_are(metric, self.records@, q@, vals) && n == #[trigger] unstable_in(
                    self.records@,
                    q@,
                    vals,
                ),
    {
        let mut n: usize = 0;
        let mut i: usize = 0;
        let ghost mut vals: Seq<Option<Measure>> = Seq::empty();
        let ghost all = self.records@;
        while i < self.records.len()
            invariant
                n <= i <= all.len(),
                all == self.records@,
                vals.len() == i,
                forall|r: &Record| #[trigger] call_requires(metric, (r,)),
                forall|k: int|
                    0 <= k < i && selected(all[k], q@) ==> call_ensures(
                        metric,
                        (&all[k],),
                        #[trigger] vals[k],
                    ),
                n == unstable_in(all.take(i as int), q@, vals),
            decreases all.len() - i,
        {
            let r = &self.records[i];
            let ghost before = vals;
            let mut found: Option<Measure> = None;
            if is_selected(r, q) {
                found = metric(r);
            }
            proof {
                vals = vals.push(found);
                assert(vals.drop_last() =~= before);
                assert(all.take(i + 1).drop_last() =~= all.take(i as int));
                assert(all.take(i + 1).last() == *r);
            }
            let shaky: bool = match &r.stability {
                Some(s) => !s.stable,
                None => false,
            };
            if let Some(v) = found {
                if v.is_above_zero() && shaky {
                    n += 1;
                }
            }
            i += 1;
        }
        proof {
            assert(all.take(all.len() as int) =~= all);
            assert(metrics_are(metric, all, q@, vals));
        }
        n
    }
}

/// A map of texts, over characters.
pub open spec fn labels(m: SortedMap<String, String>) -> Map<Seq<char>, Seq<char>> {
    m@.map_values(|s: String| s@)
}

/// The version label of a cell, if it states any version.
pub open spec fn label_of(r: Record) -> Option<Seq<char>> {
    match (r.binding_version, r.lib_version) {
        (Some(b), Some(l)) => Some(
            b@ + " ("@ + crate::text::text_or(r.engine, "engine"@) + " "@ + l@ + ")"@,
        ),
        (Some(b), None) => Some(b@),
        (None, Some(l)) => Some(l@),
        (None, None) => None,
    }
}

fn version_label(r: &Record) -> (s: Option<String>)
    ensures
        crate::text::opt_view(s) == label_of(*r),
{
    match &r.binding_version {
        Some(b) => match &r.lib_version {
            Some(l) => {
                let mut s = b.clone();
                s.append(" (");
                s.append(or_text(&r.engine, "engine").as_str());
                s.append(" ");
                s.append(l.as_str());
                s.append(")");
                Some(s)
            },
            None => Some(b.clone()),
        },
        None => match &r.lib_version {
            Some(l) => Some(l.clone()),
            None => None,
        },
    }
}

/// The version label of each variant: that of its first cell that has one.
pub open spec fn versions_of(records: Seq<Record>) -> Map<Seq<char>, Seq<char>>
    decreases records.len(),
{
    if records.len() == 0 {
        Map::empty()
    } else {
        let rest = versions_of(records.drop_last());
        let r = records.last();
        match label_of(r) {
            Some(l) => if rest.dom().contains(r.variant@) {
                rest
            } else {
                rest.insert(r.variant@, l)
            },
            None => rest,
        }
    }
}

/// Whether replication flags a cell as not stable.
pub open spec fn is_unstable(r: Record) -> bool {
    r.stability matches Some(s) && !s.stable
}

/// How many of the cells that become points are flagged as not stable, given
/// each cell's metric.
pub open spec fn unstable_in(
    records: Seq<Record>,
    q: Selector,
    metrics: Seq<Option<Measure>>,
) -> nat
    decreases records.len(),
{
    if records.len() == 0 || metrics.len() != records.len() {
        0
    } else {
        let r = records.last();
        unstable_in(records.drop_last(), q, metrics.drop_last()) + (if plotted(r, q, metrics.last())
            && is_unstable(r) {
            1nat
        } else {
            0nat
        })
    }
}

/// The message rate of a cell.
pub open spec fn msgs_of(r: Record) -> Option<Measure> {
    match r.throughput {
        Some(t) => Some(t.msgs_per_s),
        None => None,
    }
}

/// The byte rate of a cell.
pub open spec fn gbps_of(r: Record) -> Option<Measure> {
    match r.throughput {
        Some(t) => Some(t.gbps),
        None => None,
    }
}

/// The median round trip of a cell.
pub open spec fn p50_of(r: Record) -> Option<Measure> {
    match r.latency {
        Some(l) => Some(l.p50_us),
        None => None,
    }
}

/// The tail round trip of a cell.
pub open spec fn p99_of(r: Record) -> Option<Measure> {
    match r.latency {
        Some(l) => Some(l.p99_us),
        None => None,
    }
}

pub fn msgs(r: &Record) -> (v: Option<Measure>)
    ensures
        v == msgs_of(*r),
{
    match &r.throughput {
        Some(t) => Some(t.msgs_per_s),
        None => None,
    }
}

pub fn gbps(r: &Record) -> (v: Option<Measure>)
    ensures
        v == gbps_of(*r),
{
    match &r.throughput {
        Some(t) => Some(t.gbps),
        None => None,
    }
}

pub fn lat_p50_us(r: &Record) -> (v: Option<Measure>)
    ensures
        v == p50_of(*r),
{
    match &r.latency {
        Some(l) => Some(l.p50_us),
        None => None,
    }
}

pub fn lat_p99_us(r: &Record) -> (v: Option<Measure>)
    ensures
        v == p99_of(*r),
{
    match &r.latency {
        Some(l) => Some(l.p99_us),
        None => None,
    }
}

/// Only the metrics of the cells that are selected matter to a count.
pub proof fn lemma_unstable_same(
    records: Seq<Record>,
    q: Selector,
    a: Seq<Option<Measure>>,
    b: Seq<Option<Measure>>,
)
    requires
        a.len() == records.len(),
        b.len() == records.len(),
        forall|i: int|
            0 <= i < records.len() && selected(records[i], q) ==> #[trigger] a[i] == b[i],
    ensures
        unstable_in(records, q, a) == unstable_in(records, q, b),
    decreases records.len(),
{
    if records.len() > 0 {
        let n = records.len() - 1;
        assert forall|i: int| 0 <= i < n && selected(records.drop_last()[i], q) implies #[trigger] a.drop_last()[i]
            == b.drop_last()[i] by {
            assert(a[i] == b[i]);
        }
        lemma_unstable_same(records.drop_last(), q, a.drop_last(), b.drop_last());
        if selected(records[n], q) {
            assert(a[n] == b[n]);
        }
    }
}

/// Only the metrics of the cells that are selected matter to a series.
pub proof fn lemma_series_same(
    records: Seq<Record>,
    q: Selector,
    a: Seq<Option<Measure>>,
    b: Seq<Option<Measure>>,
)
    requires
        a.len() == records.len(),
        b.len() == records.len(),
        forall|i: int|
            0 <= i < records.len() && selected(records[i], q) ==> #[trigger] a[i] == b[i],
    ensures
        series_of(records, q, a) == series_of(records, q, b),
    decreases records.len(),
{
    if records.len() > 0 {
        let n = records.len() - 1;
        assert forall|i: int| 0 <= i < n && selected(records.drop_last()[i], q) implies #[trigger] a.drop_last()[i]
            == b.drop_last()[i] by {
            assert(a[i] == b[i]);
        }
        lemma_series_same(records.drop_last(), q, a.drop_last(), b.drop_last());
        if selected(records[n], q) {
            assert(a[n] == b[n]);
        }
    }
}

/// A point of a series is the metric of a cell that was selected, is plottable
/// and measured something; and every such cell has its point, its own value or
/// that of a later cell with the same size and variant.
pub proof fn law_series_points(
    records: Seq<Record>,
    q: Selector,
    metrics: Seq<Option<Measure>>,
    size: u64,
    variant: Seq<char>,
)
    requires
        metrics.len() == records.len(),
    ensures
        ({
            let m = series_of(records, q, metrics);
            (m.dom().contains(size) && m[size].dom().contains(variant)) <==> exists|i: int|
                is_point(records, q, metrics, size, variant, i)
        }),
        forall|i: int|
            is_last_point(records, q, metrics, size, variant, i) ==> series_of(
                records,
                q,
                metrics,
            )[size][variant] == (#[trigger] metrics[i])->0,
    decreases records.len(),
{
    let m = series_of(records, q, metrics);
    if records.len() > 0 {
        let n = records.len() - 1;
        let rest = records.drop_last();
        let vals = metrics.drop_last();
        law_series_points(rest, q, vals, size, variant);
        let p = series_of(rest, q, vals);
        assert(rest.len() == n && vals.len() == n);
        assert forall|i: int| 0 <= i < n implies is_point(records, q, metrics, size, variant, i)
            == is_point(rest, q, vals, size, variant, i) by {
            assert(rest[i] == records[i] && vals[i] == metrics[i]);
        }
        if is_point(records, q, metrics, size, variant, n) {
            assert(m.dom().contains(size) && m[size].dom().contains(variant));
        } else {
            assert((m.dom().contains(size) && m[size].dom().contains(variant)) == (
            p.dom().contains(size) && p[size].dom().contains(variant)));
            if exists|i: int| is_point(records, q, metrics, size, variant, i) {
                let i = choose|i: int| is_point(records, q, metrics, size, variant, i);
                assert(is_point(rest, q, vals, size, variant, i));
            }
            if exists|i: int| is_point(rest, q, vals, size, variant, i) {
                let i = choose|i: int| is_point(rest, q, vals, size, variant, i);
                assert(is_point(records, q, metrics, size, variant, i));
            }
        }
        assert forall|i: int|
            is_last_point(records, q, metrics, size, variant, i) implies m[size][variant] == (
        #[trigger] metrics[i])->0 by {
            if i < n {
                assert(!is_point(records, q, metrics, size, variant, n));
                assert(is_point(rest, q, vals, size, variant, i));
                assert(is_last_point(rest, q, vals, size, variant, i));
                assert(vals[i] == metrics[i]);
                assert(p.dom().contains(size) && p[size].dom().contains(variant));
            }
        }
    }
}

/// Whether the cell at `i` is a point of that size and variant.
pub open spec fn is_point(
    records: Seq<Record>,
    q: Selector,
    metrics: Seq<Option<Measure>>,
    size: u64,
    variant: Seq<char>,
    i: int,
) -> bool {
    &&& 0 <= i < records.len()
    &&& plotted(records[i], q, metrics[i])
    &&& records[i].payload_bytes == size
    &&& records[i].variant@ == variant
}

/// Whether the cell at `i` is the last such one.
pub open spec fn is_last_point(
    records: Seq<Record>,
    q: Selector,
    metrics: Seq<Option<Measure>>,
    size: u64,
    variant: Seq<char>,
    i: int,
) -> bool {
    &&& is_point(records, q, metrics, size, variant, i)
    &&& forall|j: int| j > i ==> !#[trigger] is_point(records, q, metrics, size, variant, j)
}

/// The version of a variant is the label of its first record that has one, and a
/// variant without such a record has none.
pub proof fn law_first_version_counts(records: Seq<Record>, i: int)
    requires
        0 <= i < records.len(),
        label_of(records[i]) is Some,
        forall|j: int|
            0 <= j < i && (#[trigger] records[j]).variant@ == records[i].variant@ ==> label_of(
                records[j],
            ) is None,
    ensures
        versions_of(records).dom().contains(records[i].variant@),
        Some(versions_of(records)[records[i].variant@]) == label_of(records[i]),
    decreases records.len(),
{
    let rest = records.drop_last();
    if i < rest.len() {
        assert(rest[i] == records[i]);
        assert forall|j: int| 0 <= j < i && (#[trigger] rest[j]).variant@ == rest[i].variant@ implies label_of(
            rest[j],
        ) is None by {
            assert(records[j].variant@ == records[i].variant@);
        }
        law_first_version_counts(rest, i);
    } else {
        let v = records[i].variant@;
        assert forall|j: int| 0 <= j < rest.len() && (#[trigger] rest[j]).variant@ == v implies label_of(
            rest[j],
        ) is None by {
            assert(records[j].variant@ == v);
        }
        law_unlabelled_variants_have_none(rest, v);
    }
}

/// A variant none of whose records states a version has none.
pub proof fn law_unlabelled_variants_have_none(records: Seq<Record>, variant: Seq<char>)
    requires
        forall|j: int|
            0 <= j < records.len() && (#[trigger] records[j]).variant@ == variant ==> label_of(
                records[j],
            ) is None,
    ensures
        !versions_of(records).dom().contains(variant),
    decreases records.len(),
{
    if records.len() > 0 {
        let rest = records.drop_last();
        assert forall|j: int| 0 <= j < rest.len() && (#[trigger] rest[j]).variant@ == variant implies label_of(
            rest[j],
        ) is None by {
            assert(records[j].variant@ == variant);
        }
        law_unlabelled_variants_have_none(rest, variant);
        assert(records[records.len() - 1] == records.last());
    }
}

/// The label of a record is the version of what was measured: the binding's own,
/// with the engine's behind it where there is one, else the engine's.
pub proof fn law_label_names_the_binding_first(r: Record)
    ensures
        r.binding_version is None && r.lib_version is None <==> label_of(r) is None,
        r.binding_version matches Some(b) ==> crate::text::begins(label_of(r)->0, b@),
        r.binding_version is None && r.lib_version is Some ==> label_of(r) == Some(
            r.lib_version->0@,
        ),
        r.binding_version is Some && r.lib_version is None ==> label_of(r) == Some(
            r.binding_version->0@,
        ),
        r.binding_version is Some && r.lib_version is Some ==> label_of(r) == Some(
            r.binding_version->0@ + " ("@ + (match r.engine {
                Some(e) => e@,
                None => "engine"@,
            }) + " "@ + r.lib_version->0@ + ")"@,
        ),
{
    if r.binding_version is Some {
        let b = r.binding_version->0@;
        let l = label_of(r)->0;
        assert(l.subrange(0, b.len() as int) =~= b);
    }
}

} // verus!
