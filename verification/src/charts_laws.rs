//! What holds of every chart: each point that it draws was measured, in the unit
//! that its panel says, and what was measured is drawn.
use vstd::prelude::*;
use crate::charts::{Asked, Chart, Panel, Rendering, Unit};
use crate::model::{Archive, Measure, Record, Selector};
use crate::theme::Impl;

verus! {

/// Whether a record is a cell that a query asks for, of that size and variant,
/// and that replication did not prove wrong.
pub open spec fn is_cell(r: Record, q: Selector, size: u64, variant: Seq<char>) -> bool {
    &&& r.kind@ == q.kind
    &&& r.transport@ == q.transport
    &&& q.peers matches Some(p) ==> r.peers == Some(p)
    &&& r.stability matches Some(s) ==> !s.inverted
    &&& r.payload_bytes == size
    &&& r.variant@ == variant
}

/// Whether a value is there and above zero.
pub open spec fn is_measured(v: Option<Measure>) -> bool {
    v matches Some(m) && 0 < m.bits <= 0x7ff0_0000_0000_0000
}

proof fn lemma_point_is_cell(
    records: Seq<Record>,
    q: Selector,
    metrics: Seq<Option<Measure>>,
    size: u64,
    variant: Seq<char>,
    i: int,
)
    requires
        metrics.len() == records.len(),
    ensures
        crate::model::is_point(records, q, metrics, size, variant, i) <==> 0 <= i < records.len()
            && is_cell(records[i], q, size, variant) && is_measured(metrics[i]),
{
}

proof fn lemma_last_point(
    records: Seq<Record>,
    q: Selector,
    metrics: Seq<Option<Measure>>,
    size: u64,
    variant: Seq<char>,
    some: int,
    n: int,
) -> (i: int)
    requires
        metrics.len() == records.len(),
        crate::model::is_point(records, q, metrics, size, variant, some),
        some < n <= records.len(),
        forall|j: int|
            j >= n ==> !#[trigger] crate::model::is_point(records, q, metrics, size, variant, j),
    ensures
        crate::model::is_last_point(records, q, metrics, size, variant, i),
    decreases n,
{
    if crate::model::is_point(records, q, metrics, size, variant, n - 1) {
        n - 1
    } else {
        lemma_last_point(records, q, metrics, size, variant, some, n - 1)
    }
}

/// The value of a size and a variant is that of the last cell measured there, and
/// there is none where no cell was.
pub proof fn law_value_is_of_the_last_cell(
    records: Seq<Record>,
    q: Selector,
    metrics: Seq<Option<Measure>>,
    size: u64,
    variant: Seq<char>,
) -> (i: int)
    requires
        metrics.len() == records.len(),
    ensures
        match crate::theme::value_at(
            crate::model::series_of(records, q, metrics),
            size,
            variant,
        ) {
            Some(v) => {
                &&& 0 <= i < records.len()
                &&& is_cell(records[i], q, size, variant)
                &&& metrics[i] == Some(v)
                &&& is_measured(metrics[i])
                &&& forall|j: int|
                    i < j < records.len() && is_cell(#[trigger] records[j], q, size, variant)
                        ==> !is_measured(metrics[j])
            },
            None => forall|j: int|
                0 <= j < records.len() && is_cell(#[trigger] records[j], q, size, variant)
                    ==> !is_measured(metrics[j]),
        },
{
    let m = crate::model::series_of(records, q, metrics);
    crate::model::law_series_points(records, q, metrics, size, variant);
    if m.dom().contains(size) && m[size].dom().contains(variant) {
        let some = choose|i: int| crate::model::is_point(records, q, metrics, size, variant, i);
        let i = lemma_last_point(
            records,
            q,
            metrics,
            size,
            variant,
            some,
            records.len() as int,
        );
        assert forall|j: int|
            i < j < records.len() && is_cell(
                #[trigger] records[j],
                q,
                size,
                variant,
            ) implies !is_measured(metrics[j]) by {
            lemma_point_is_cell(records, q, metrics, size, variant, j);
            assert(!crate::model::is_point(records, q, metrics, size, variant, j));
        }
        assert(m[size][variant] == metrics[i]->0);
        i
    } else {
        assert forall|j: int|
            0 <= j < records.len() && is_cell(
                #[trigger] records[j],
                q,
                size,
                variant,
            ) implies !is_measured(metrics[j]) by {
            lemma_point_is_cell(records, q, metrics, size, variant, j);
            assert(!crate::model::is_point(records, q, metrics, size, variant, j));
        }
        0
    }
}

/// A line has a point for every size at which its variant has a value, at the
/// position of the size and with that value, in the order of the sizes, and no
/// other.
pub proof fn law_line_has_every_value(
    sizes: Seq<u64>,
    key: Seq<char>,
    pts: Map<u64, Map<Seq<char>, Measure>>,
    n: int,
)
    requires
        0 <= n <= sizes.len() <= usize::MAX,
    ensures
        forall|p: int|
            0 <= p < crate::theme::line_points(sizes, key, pts, n).len() ==> {
                let (at, v) = #[trigger] crate::theme::line_points(sizes, key, pts, n)[p];
                at < n && crate::theme::value_at(pts, sizes[at as int], key) == Some(v)
            },
        forall|p: int, r: int|
            0 <= p < r < crate::theme::line_points(sizes, key, pts, n).len()
                ==> crate::theme::line_points(sizes, key, pts, n)[p].0 < crate::theme::line_points(
                sizes,
                key,
                pts,
                n,
            )[r].0,
        forall|at: int|
            0 <= at < n && crate::theme::value_at(pts, #[trigger] sizes[at], key) is Some
                ==> crate::theme::line_points(sizes, key, pts, n).contains(
                (at as usize, crate::theme::value_at(pts, sizes[at], key)->0),
            ),
    decreases n,
{
    if n > 0 {
        law_line_has_every_value(sizes, key, pts, n - 1);
        let rest = crate::theme::line_points(sizes, key, pts, n - 1);
        let all = crate::theme::line_points(sizes, key, pts, n);
        assert forall|at: int|
            0 <= at < n && crate::theme::value_at(
                pts,
                #[trigger] sizes[at],
                key,
            ) is Some implies all.contains(
            (at as usize, crate::theme::value_at(pts, sizes[at], key)->0),
        ) by {
            let e = (at as usize, crate::theme::value_at(pts, sizes[at], key)->0);
            if at < n - 1 {
                assert(rest.contains(e));
                let p = choose|p: int| 0 <= p < rest.len() && rest[p] == e;
                assert(all[p] == e);
            } else {
                assert(all[all.len() - 1] == e);
            }
        }
        assert forall|p: int, r: int| 0 <= p < r < all.len() implies all[p].0 < all[r].0 by {
            if r == rest.len() {
                assert(rest[p].0 < n - 1);
            } else {
                assert(rest[p].0 < rest[r].0);
            }
        }
        assert forall|p: int| 0 <= p < all.len() implies {
            let (at, v) = #[trigger] all[p];
            at < n && crate::theme::value_at(pts, sizes[at as int], key) == Some(v)
        } by {
            if p < rest.len() {
                assert(rest[p] == all[p]);
            }
        }
    }
}

/// A panel has one line for every library with a point, and no other: the first
/// library is drawn last, over the lines of those behind it.
pub proof fn law_every_library_has_its_line(
    sizes: Seq<u64>,
    impls: Seq<Impl>,
    pts: Map<u64, Map<Seq<char>, Measure>>,
)
    ensures
        forall|l: int|
            0 <= l < crate::theme::panel_lines_of(sizes, impls, pts).len() ==> {
                let line = #[trigger] crate::theme::panel_lines_of(sizes, impls, pts)[l];
                &&& impls.contains(line.0)
                &&& line.1 == crate::theme::line_points(
                    sizes,
                    line.0.key@,
                    pts,
                    sizes.len() as int,
                )
                &&& line.1.len() > 0
            },
        forall|j: int|
            0 <= j < impls.len() && crate::theme::line_points(
                sizes,
                (#[trigger] impls[j]).key@,
                pts,
                sizes.len() as int,
            ).len() > 0 ==> crate::theme::panel_lines_of(sizes, impls, pts).contains(
                (
                    impls[j],
                    crate::theme::line_points(sizes, impls[j].key@, pts, sizes.len() as int),
                ),
            ),
        impls.len() > 0 && crate::theme::line_points(
            sizes,
            impls[0].key@,
            pts,
            sizes.len() as int,
        ).len() > 0 ==> crate::theme::panel_lines_of(sizes, impls, pts).last().0 == impls[0],
        impls.len() > 0 ==> crate::theme::panel_lines_of(sizes, impls.skip(1), pts).is_prefix_of(
            crate::theme::panel_lines_of(sizes, impls, pts),
        ),
    decreases impls.len(),
{
    if impls.len() > 0 {
        let rest = impls.skip(1);
        law_every_library_has_its_line(sizes, rest, pts);
        let before = crate::theme::panel_lines_of(sizes, rest, pts);
        let all = crate::theme::panel_lines_of(sizes, impls, pts);
        let p = crate::theme::line_points(sizes, impls[0].key@, pts, sizes.len() as int);
        assert forall|l: int| 0 <= l < all.len() implies {
            let line = #[trigger] all[l];
            &&& impls.contains(line.0)
            &&& line.1 == crate::theme::line_points(sizes, line.0.key@, pts, sizes.len() as int)
            &&& line.1.len() > 0
        } by {
            if l < before.len() {
                assert(all[l] == before[l]);
                assert(rest.contains(before[l].0));
                let j = choose|j: int| 0 <= j < rest.len() && rest[j] == before[l].0;
                assert(impls[j + 1] == before[l].0);
            } else {
                assert(impls[0] == all[l].0);
            }
        }
        assert forall|j: int|
            0 <= j < impls.len() && crate::theme::line_points(
                sizes,
                (#[trigger] impls[j]).key@,
                pts,
                sizes.len() as int,
            ).len() > 0 implies all.contains(
            (impls[j], crate::theme::line_points(sizes, impls[j].key@, pts, sizes.len() as int)),
        ) by {
            let e = (
                impls[j],
                crate::theme::line_points(sizes, impls[j].key@, pts, sizes.len() as int),
            );
            if j > 0 {
                assert(rest[j - 1] == impls[j]);
                assert(before.contains(e));
                let l = choose|l: int| 0 <= l < before.len() && before[l] == e;
                assert(all[l] == e);
            } else {
                assert(all[all.len() - 1] == e);
            }
        }
    }
}

/// The legend names a library exactly where one of the panels has a point of it,
/// and what it names is in the order of the list.
pub proof fn law_legend_names_what_is_drawn(
    impls: Seq<Impl>,
    all: Seq<Map<u64, Map<Seq<char>, Measure>>>,
)
    ensures
        forall|j: int|
            0 <= j < impls.len() && crate::theme::appears((#[trigger] impls[j]).key@, all)
                ==> crate::theme::present_of(impls, all).contains(impls[j]),
        forall|k: int|
            0 <= k < crate::theme::present_of(impls, all).len() ==> impls.contains(
                #[trigger] crate::theme::present_of(impls, all)[k],
            ) && crate::theme::appears(crate::theme::present_of(impls, all)[k].key@, all),
        forall|n: int|
            0 <= n <= impls.len() ==> crate::theme::present_of(
                #[trigger] impls.take(n),
                all,
            ).is_prefix_of(crate::theme::present_of(impls, all)),
    decreases impls.len(),
{
    if impls.len() > 0 {
        let front = impls.drop_last();
        law_legend_names_what_is_drawn(front, all);
        let rest = crate::theme::present_of(front, all);
        let out = crate::theme::present_of(impls, all);
        assert forall|j: int|
            0 <= j < impls.len() && crate::theme::appears(
                (#[trigger] impls[j]).key@,
                all,
            ) implies out.contains(impls[j]) by {
            if j < front.len() {
                assert(front[j] == impls[j]);
                assert(rest.contains(impls[j]));
                let k = choose|k: int| 0 <= k < rest.len() && rest[k] == impls[j];
                assert(out[k] == impls[j]);
            } else {
                assert(out[out.len() - 1] == impls[j]);
            }
        }
        assert forall|k: int| 0 <= k < out.len() implies impls.contains(#[trigger] out[k])
            && crate::theme::appears(out[k].key@, all) by {
            if k < rest.len() {
                assert(rest[k] == out[k]);
                assert(front.contains(rest[k]));
                let j = choose|j: int| 0 <= j < front.len() && front[j] == rest[k];
                assert(impls[j] == out[k]);
            } else {
                assert(impls[impls.len() - 1] == out[k]);
            }
        }
        assert forall|n: int| 0 <= n <= impls.len() implies crate::theme::present_of(
            #[trigger] impls.take(n),
            all,
        ).is_prefix_of(out) by {
            if n == impls.len() {
                assert(impls.take(n) =~= impls);
            } else {
                assert(impls.take(n) =~= front.take(n));
                assert(crate::theme::present_of(front.take(n), all).is_prefix_of(rest));
            }
        }
    } else {
        assert forall|n: int| 0 <= n <= impls.len() implies crate::theme::present_of(
            #[trigger] impls.take(n),
            all,
        ).is_prefix_of(crate::theme::present_of(impls, all)) by {
            assert(impls.take(n) =~= impls);
        }
    }
}

// A point of a panel is the value of a cell of the panel's metric.
proof fn lemma_panel_point(
    panel: Panel<'_>,
    caption: Seq<char>,
    sizes: Seq<u64>,
    shown: Seq<Impl>,
    a: Archive,
    q: Selector,
    metric: spec_fn(Record) -> Option<Measure>,
    l: int,
    p: int,
) -> (i: int)
    requires
        crate::charts::panel_is(
            panel,
            caption,
            panel.unit,
            sizes,
            shown,
            crate::charts::points_under(a, q, metric),
        ),
        0 <= l < panel.lines@.len(),
        0 <= p < panel.lines@[l].points@.len(),
    ensures
        ({
            let key = panel.lines@[l].library.key@;
            let (at, v) = panel.lines@[l].points@[p];
            &&& at < panel.sizes@.len()
            &&& 0 <= i < a.records@.len()
            &&& is_cell(a.records@[i], q, panel.sizes@[at as int], key)
            &&& metric(a.records@[i]) == Some(v)
            &&& is_measured(Some(v))
            &&& v.bits <= panel.top.bits
            &&& forall|j: int|
                i < j < a.records@.len() && is_cell(
                    #[trigger] a.records@[j],
                    q,
                    panel.sizes@[at as int],
                    key,
                ) ==> !is_measured(metric(a.records@[j]))
        }),
{
    let pts = crate::charts::points_under(a, q, metric);
    let metrics = a.records@.map_values(metric);
    let lines = crate::theme::lines_view(panel.lines@);
    law_every_library_has_its_line(sizes, shown, pts);
    assert(panel.sizes.len() == sizes.len());
    assert(lines[l] == (*panel.lines@[l].library, panel.lines@[l].points@));
    let key = panel.lines@[l].library.key@;
    law_line_has_every_value(sizes, key, pts, sizes.len() as int);
    let line = crate::theme::line_points(sizes, key, pts, sizes.len() as int);
    assert(line[p] == panel.lines@[l].points@[p]);
    let (at, v) = line[p];
    let i = law_value_is_of_the_last_cell(a.records@, q, metrics, sizes[at as int], key);
    assert forall|j: int|
        i < j < a.records@.len() && is_cell(
            #[trigger] a.records@[j],
            q,
            panel.sizes@[at as int],
            key,
        ) implies !is_measured(metric(a.records@[j])) by {
        assert(metrics[j] == metric(a.records@[j]));
    }
    let k = choose|k: int| 0 <= k < shown.len() && shown[k] == *panel.lines@[l].library;
    assert(crate::theme::at_most(
        crate::theme::value_at(pts, sizes[at as int], shown[k].key@),
        panel.top,
    ));
    i
}

// A cell that the panel's metric measured is drawn.
proof fn lemma_cell_is_drawn(
    panel: Panel<'_>,
    caption: Seq<char>,
    sizes: Seq<u64>,
    shown: Seq<Impl>,
    a: Archive,
    q: Selector,
    metric: spec_fn(Record) -> Option<Measure>,
    i: int,
    library: Impl,
) -> (w: (int, int))
    requires
        crate::charts::panel_is(
            panel,
            caption,
            panel.unit,
            sizes,
            shown,
            crate::charts::points_under(a, q, metric),
        ),
        0 <= i < a.records@.len(),
        shown.contains(library),
        sizes.contains(a.records@[i].payload_bytes),
        is_cell(a.records@[i], q, a.records@[i].payload_bytes, library.key@),
        is_measured(metric(a.records@[i])),
        forall|j: int|
            i < j < a.records@.len() && is_cell(
                #[trigger] a.records@[j],
                q,
                a.records@[i].payload_bytes,
                library.key@,
            ) ==> !is_measured(metric(a.records@[j])),
    ensures
        0 <= w.0 < panel.lines@.len(),
        *panel.lines@[w.0].library == library,
        0 <= w.1 < panel.lines@[w.0].points@.len(),
        ({
            let (at, v) = panel.lines@[w.0].points@[w.1];
            &&& at < panel.sizes@.len()
            &&& panel.sizes@[at as int] == a.records@[i].payload_bytes
            &&& Some(v) == metric(a.records@[i])
        }),
{
    let pts = crate::charts::points_under(a, q, metric);
    let metrics = a.records@.map_values(metric);
    let size = a.records@[i].payload_bytes;
    let key = library.key@;
    let n = sizes.len() as int;
    assert(metrics[i] == metric(a.records@[i]));
    assert(panel.sizes.len() == sizes.len());
    let last = law_value_is_of_the_last_cell(a.records@, q, metrics, size, key);
    assert(crate::theme::value_at(pts, size, key) is Some);
    assert(metrics[last] == metric(a.records@[last]));
    if last < i {
        assert(is_cell(a.records@[i], q, size, key));
    } else if last > i {
        assert(is_cell(a.records@[last], q, size, key));
    }
    assert(crate::theme::value_at(pts, size, key) == metric(a.records@[i]));
    law_every_library_has_its_line(sizes, shown, pts);
    law_line_has_every_value(sizes, key, pts, n);
    let at = choose|at: int| 0 <= at < sizes.len() && sizes[at] == size;
    let line = crate::theme::line_points(sizes, key, pts, n);
    let e = (at as usize, crate::theme::value_at(pts, sizes[at], key)->0);
    assert(line.contains(e));
    let p = choose|p: int| 0 <= p < line.len() && line[p] == e;
    let j = choose|j: int| 0 <= j < shown.len() && shown[j] == library;
    let lines = crate::theme::lines_view(panel.lines@);
    assert(lines.contains((shown[j], line)));
    let l = choose|l: int| 0 <= l < lines.len() && lines[l] == (shown[j], line);
    assert(lines[l] == (*panel.lines@[l].library, panel.lines@[l].points@));
    (l, p)
}

// What both panels' contracts need to know of a drawn cell.
proof fn lemma_cell_is_shown(
    c: Chart<'_>,
    a: Archive,
    q: Selector,
    impls: Seq<Impl>,
    f: spec_fn(Record) -> Option<Measure>,
    g: spec_fn(Record) -> Option<Measure>,
    i: int,
    k: int,
)
    requires
        ({
            let left = crate::charts::points_under(a, q, f);
            let right = crate::charts::points_under(a, q, g);
            &&& crate::charts::sizes_are(c.left.sizes@, seq![left, right])
            &&& 0 <= i < a.records@.len()
            &&& 0 <= k < impls.len()
            &&& is_cell(a.records@[i], q, a.records@[i].payload_bytes, impls[k].key@)
            &&& is_measured(f(a.records@[i])) || is_measured(g(a.records@[i]))
        }),
    ensures
        c.left.sizes@.contains(a.records@[i].payload_bytes),
        crate::theme::present_of(
            impls,
            seq![crate::charts::points_under(a, q, f), crate::charts::points_under(a, q, g)],
        ).contains(impls[k]),
{
    let left = crate::charts::points_under(a, q, f);
    let right = crate::charts::points_under(a, q, g);
    let all = seq![left, right];
    let size = a.records@[i].payload_bytes;
    let key = impls[k].key@;
    let u = a.records@.map_values(f);
    let v = a.records@.map_values(g);
    assert(u[i] == f(a.records@[i]) && v[i] == g(a.records@[i]));
    let x = law_value_is_of_the_last_cell(a.records@, q, u, size, key);
    let y = law_value_is_of_the_last_cell(a.records@, q, v, size, key);
    let s: int = if is_measured(u[i]) {
        0
    } else {
        1
    };
    assert(all[0] == left && all[1] == right);
    assert(crate::theme::value_at(all[s], size, key) is Some);
    assert(all[s].dom().contains(size));
    assert(crate::theme::appears(key, all));
    law_legend_names_what_is_drawn(impls, all);
    assert(c.left.sizes@.contains(size));
}

/// A panel's metric, by its unit: the message rate where the unit is messages,
/// the byte rate where it is gigabytes.
pub open spec fn rate_in(unit: Unit, r: Record) -> Option<Measure> {
    match r.throughput {
        Some(t) => match unit {
            Unit::Messages => Some(t.msgs_per_s),
            Unit::Gigabytes => Some(t.gbps),
            Unit::Micros => None,
        },
        None => None,
    }
}

/// Every point of a rate chart was measured: it is the message rate, in the panel
/// whose unit is messages, or the byte rate, in the one whose unit is gigabytes,
/// of the last cell of its size and variant that the chart asks for.
pub proof fn law_rate_points_are_measured(
    c: Chart<'_>,
    asked: Asked,
    a: Archive,
    impls: Seq<Impl>,
    right: bool,
    l: int,
    p: int,
) -> (i: int)
    requires
        crate::charts::is_rate_chart(Rendering::Draw(c), asked, a, impls),
        ({
            let panel = if right {
                c.right
            } else {
                c.left
            };
            0 <= l < panel.lines@.len() && 0 <= p < panel.lines@[l].points@.len()
        }),
    ensures
        ({
            let panel = if right {
                c.right
            } else {
                c.left
            };
            let key = panel.lines@[l].library.key@;
            let (at, v) = panel.lines@[l].points@[p];
            &&& panel.unit == (if right {
                Unit::Gigabytes
            } else {
                Unit::Messages
            })
            &&& at < panel.sizes@.len()
            &&& 0 <= i < a.records@.len()
            &&& is_cell(a.records@[i], asked.selector, panel.sizes@[at as int], key)
            &&& a.records@[i].throughput matches Some(t)
            &&& v == (if right {
                t.gbps
            } else {
                t.msgs_per_s
            })
            &&& is_measured(Some(v))
            &&& v.bits <= panel.top.bits
            &&& forall|j: int|
                i < j < a.records@.len() && is_cell(
                    #[trigger] a.records@[j],
                    asked.selector,
                    panel.sizes@[at as int],
                    key,
                ) ==> !is_measured(rate_in(panel.unit, a.records@[j]))
        }),
{
    let f = |r: Record| crate::model::msgs_of(r);
    let g = |r: Record| crate::model::gbps_of(r);
    let q = asked.selector;
    let left = crate::charts::points_under(a, q, f);
    let right_points = crate::charts::points_under(a, q, g);
    let shown = crate::theme::present_of(impls, seq![left, right_points]);
    if right {
        lemma_panel_point(c.right, c.right.caption@, c.left.sizes@, shown, a, q, g, l, p)
    } else {
        lemma_panel_point(c.left, c.left.caption@, c.left.sizes@, shown, a, q, f, l, p)
    }
}

/// Every cell that a rate chart asks for is drawn: where its library is among
/// those that are plotted, its rate is a point of the library's line, in the panel
/// of the rate's unit and at its size, unless a later cell takes its place.
pub proof fn law_measured_rates_are_drawn(
    c: Chart<'_>,
    asked: Asked,
    a: Archive,
    impls: Seq<Impl>,
    right: bool,
    i: int,
    k: int,
) -> (w: (int, int))
    requires
        crate::charts::is_rate_chart(Rendering::Draw(c), asked, a, impls),
        0 <= i < a.records@.len(),
        0 <= k < impls.len(),
        ({
            let unit = if right {
                Unit::Gigabytes
            } else {
                Unit::Messages
            };
            let r = a.records@[i];
            &&& is_cell(r, asked.selector, r.payload_bytes, impls[k].key@)
            &&& is_measured(rate_in(unit, r))
            &&& forall|j: int|
                i < j < a.records@.len() && is_cell(
                    #[trigger] a.records@[j],
                    asked.selector,
                    r.payload_bytes,
                    impls[k].key@,
                ) ==> !is_measured(rate_in(unit, a.records@[j]))
        }),
    ensures
        ({
            let panel = if right {
                c.right
            } else {
                c.left
            };
            &&& 0 <= w.0 < panel.lines@.len()
            &&& *panel.lines@[w.0].library == impls[k]
            &&& 0 <= w.1 < panel.lines@[w.0].points@.len()
            &&& panel.lines@[w.0].points@[w.1].0 < panel.sizes@.len()
            &&& panel.sizes@[panel.lines@[w.0].points@[w.1].0 as int]
                == a.records@[i].payload_bytes
            &&& a.records@[i].throughput matches Some(t)
            &&& panel.lines@[w.0].points@[w.1].1 == (if right {
                t.gbps
            } else {
                t.msgs_per_s
            })
        }),
{
    let f = |r: Record| crate::model::msgs_of(r);
    let g = |r: Record| crate::model::gbps_of(r);
    let q = asked.selector;
    let left = crate::charts::points_under(a, q, f);
    let right_points = crate::charts::points_under(a, q, g);
    let shown = crate::theme::present_of(impls, seq![left, right_points]);
    lemma_cell_is_shown(c, a, q, impls, f, g, i, k);
    if right {
        lemma_cell_is_drawn(c.right, c.right.caption@, c.left.sizes@, shown, a, q, g, i, impls[k])
    } else {
        lemma_cell_is_drawn(c.left, c.left.caption@, c.left.sizes@, shown, a, q, f, i, impls[k])
    }
}

/// The round trip that a latency chart shows of a cell: the median on the left,
/// the tail on the right.
pub open spec fn trip_in(right: bool, r: Record) -> Option<Measure> {
    match r.latency {
        Some(t) => Some(
            if right {
                t.p99_us
            } else {
                t.p50_us
            },
        ),
        None => None,
    }
}

/// Every point of a latency chart was measured: it is the median round trip in
/// the left panel, or the tail in the right one, of the last cell of its size and
/// variant that the chart asks for. Both are in microseconds.
pub proof fn law_latency_points_are_measured(
    c: Chart<'_>,
    asked: Asked,
    a: Archive,
    impls: Seq<Impl>,
    right: bool,
    l: int,
    p: int,
) -> (i: int)
    requires
        crate::charts::is_latency_chart(Rendering::Draw(c), asked, a, impls),
        ({
            let panel = if right {
                c.right
            } else {
                c.left
            };
            0 <= l < panel.lines@.len() && 0 <= p < panel.lines@[l].points@.len()
        }),
    ensures
        ({
            let panel = if right {
                c.right
            } else {
                c.left
            };
            let key = panel.lines@[l].library.key@;
            let (at, v) = panel.lines@[l].points@[p];
            &&& panel.unit == Unit::Micros
            &&& at < panel.sizes@.len()
            &&& 0 <= i < a.records@.len()
            &&& is_cell(a.records@[i], asked.selector, panel.sizes@[at as int], key)
            &&& a.records@[i].latency matches Some(t)
            &&& v == (if right {
                t.p99_us
            } else {
                t.p50_us
            })
            &&& is_measured(Some(v))
            &&& v.bits <= panel.top.bits
            &&& forall|j: int|
                i < j < a.records@.len() && is_cell(
                    #[trigger] a.records@[j],
                    asked.selector,
                    panel.sizes@[at as int],
                    key,
                ) ==> !is_measured(trip_in(right, a.records@[j]))
        }),
{
    let f = |r: Record| crate::model::p50_of(r);
    let g = |r: Record| crate::model::p99_of(r);
    let q = asked.selector;
    let left = crate::charts::points_under(a, q, f);
    let right_points = crate::charts::points_under(a, q, g);
    let shown = crate::theme::present_of(impls, seq![left, right_points]);
    if right {
        lemma_panel_point(c.right, c.right.caption@, c.left.sizes@, shown, a, q, g, l, p)
    } else {
        lemma_panel_point(c.left, c.left.caption@, c.left.sizes@, shown, a, q, f, l, p)
    }
}

/// Every cell that a latency chart asks for is drawn: where its library is among
/// those that are plotted, its median and its tail are points of the library's
/// lines at its size, unless a later cell takes its place.
pub proof fn law_measured_trips_are_drawn(
    c: Chart<'_>,
    asked: Asked,
    a: Archive,
    impls: Seq<Impl>,
    right: bool,
    i: int,
    k: int,
) -> (w: (int, int))
    requires
        crate::charts::is_latency_chart(Rendering::Draw(c), asked, a, impls),
        0 <= i < a.records@.len(),
        0 <= k < impls.len(),
        ({
            let r = a.records@[i];
            &&& is_cell(r, asked.selector, r.payload_bytes, impls[k].key@)
            &&& is_measured(trip_in(right, r))
            &&& forall|j: int|
                i < j < a.records@.len() && is_cell(
                    #[trigger] a.records@[j],
                    asked.selector,
                    r.payload_bytes,
                    impls[k].key@,
                ) ==> !is_measured(trip_in(right, a.records@[j]))
        }),
    ensures
        ({
            let panel = if right {
                c.right
            } else {
                c.left
            };
            &&& 0 <= w.0 < panel.lines@.len()
            &&& *panel.lines@[w.0].library == impls[k]
            &&& 0 <= w.1 < panel.lines@[w.0].points@.len()
            &&& panel.lines@[w.0].points@[w.1].0 < panel.sizes@.len()
            &&& panel.sizes@[panel.lines@[w.0].points@[w.1].0 as int]
                == a.records@[i].payload_bytes
            &&& Some(panel.lines@[w.0].points@[w.1].1) == trip_in(right, a.records@[i])
        }),
{
    let f = |r: Record| crate::model::p50_of(r);
    let g = |r: Record| crate::model::p99_of(r);
    let q = asked.selector;
    let left = crate::charts::points_under(a, q, f);
    let right_points = crate::charts::points_under(a, q, g);
    let shown = crate::theme::present_of(impls, seq![left, right_points]);
    lemma_cell_is_shown(c, a, q, impls, f, g, i, k);
    if right {
        lemma_cell_is_drawn(c.right, c.right.caption@, c.left.sizes@, shown, a, q, g, i, impls[k])
    } else {
        lemma_cell_is_drawn(c.left, c.left.caption@, c.left.sizes@, shown, a, q, f, i, impls[k])
    }
}

/// The greatest value of a panel is one that it draws, so that its axis is no
/// longer than the data; a panel without a line has zero.
pub proof fn law_top_is_drawn(
    pts: Map<u64, Map<Seq<char>, Measure>>,
    impls: Seq<Impl>,
    top: Measure,
    sizes: Seq<u64>,
    size: u64,
    k: int,
)
    requires
        crate::theme::is_top(pts, impls, top),
        0 <= k < impls.len(),
        crate::theme::value_at(pts, size, impls[k].key@) matches Some(v) && is_measured(Some(v)),
    ensures
        crate::theme::value_at(pts, size, impls[k].key@)->0.bits <= top.bits,
        exists|x: u64, j: int|
            0 <= j < impls.len() && #[trigger] crate::theme::value_at(pts, x, impls[j].key@)
                == Some(top),
{
    assert(crate::theme::at_most(crate::theme::value_at(pts, size, impls[k].key@), top));
}

/// What a chart warns of: one more cell counts exactly where the chart draws it,
/// in one of its two panels, and replication says that it did not converge.
pub proof fn law_warning_counts_drawn_cells(
    records: Seq<Record>,
    q: Selector,
    r: Record,
    left: spec_fn(Record) -> Option<Measure>,
    right: spec_fn(Record) -> Option<Measure>,
)
    ensures
        ({
            let drawn = |x: Record| crate::charts::drawn_of(left(x), right(x));
            let before = crate::model::unstable_in(records, q, records.map_values(drawn));
            let after = crate::model::unstable_in(
                records.push(r),
                q,
                records.push(r).map_values(drawn),
            );
            let counts = {
                &&& is_cell(r, q, r.payload_bytes, r.variant@)
                &&& is_measured(left(r)) || is_measured(right(r))
                &&& r.stability matches Some(s) && !s.stable
            };
            after == before + (if counts {
                1nat
            } else {
                0nat
            })
        }),
        crate::model::unstable_in(Seq::empty(), q, Seq::empty()) == 0,
{
    let drawn = |x: Record| crate::charts::drawn_of(left(x), right(x));
    let all = records.push(r);
    assert(all.drop_last() =~= records);
    assert(all.map_values(drawn).drop_last() =~= records.map_values(drawn));
    assert(all.map_values(drawn).last() == drawn(r));
}

/// A chart counts in its footnote what its own two panels draw: message rate and
/// byte rate, or median and tail.
pub proof fn law_footnotes_count_their_panels(
    c: Chart<'_>,
    asked: Asked,
    a: Archive,
    impls: Seq<Impl>,
)
    ensures
        crate::charts::is_rate_chart(Rendering::Draw(c), asked, a, impls) ==> c.footnote@
            == crate::charts::footnote_of(
            crate::model::unstable_in(
                a.records@,
                asked.selector,
                a.records@.map_values(
                    |r: Record|
                        crate::charts::drawn_of(
                            rate_in(Unit::Messages, r),
                            rate_in(Unit::Gigabytes, r),
                        ),
                ),
            ),
        ),
        crate::charts::is_latency_chart(Rendering::Draw(c), asked, a, impls) ==> c.footnote@
            == crate::charts::footnote_of(
            crate::model::unstable_in(
                a.records@,
                asked.selector,
                a.records@.map_values(
                    |r: Record| crate::charts::drawn_of(trip_in(false, r), trip_in(true, r)),
                ),
            ),
        ),
{
    let x = a.records@.map_values(
        |r: Record| crate::charts::drawn_of(crate::model::msgs_of(r), crate::model::gbps_of(r)),
    );
    let y = a.records@.map_values(
        |r: Record|
            crate::charts::drawn_of(rate_in(Unit::Messages, r), rate_in(Unit::Gigabytes, r)),
    );
    assert(x =~= y);
    let u = a.records@.map_values(
        |r: Record| crate::charts::drawn_of(crate::model::p50_of(r), crate::model::p99_of(r)),
    );
    let v = a.records@.map_values(
        |r: Record| crate::charts::drawn_of(trip_in(false, r), trip_in(true, r)),
    );
    assert(u =~= v);
}

/// A chart is left out exactly where no cell that it asks for has a rate, or a
/// median round trip.
pub proof fn law_empty_charts_are_left_out(
    r: Rendering<'_>,
    asked: Asked,
    a: Archive,
    impls: Seq<Impl>,
    i: int,
)
    requires
        r is Skip,
        0 <= i < a.records@.len(),
        is_cell(
            a.records@[i],
            asked.selector,
            a.records@[i].payload_bytes,
            a.records@[i].variant@,
        ),
    ensures
        crate::charts::is_rate_chart(r, asked, a, impls) ==> !is_measured(
            rate_in(Unit::Messages, a.records@[i]),
        ),
        crate::charts::is_latency_chart(r, asked, a, impls) ==> !is_measured(
            trip_in(false, a.records@[i]),
        ),
{
    let q = asked.selector;
    let x = a.records@[i];
    let u = a.records@.map_values(|r: Record| crate::model::msgs_of(r));
    let v = a.records@.map_values(|r: Record| crate::model::p50_of(r));
    let j = law_value_is_of_the_last_cell(a.records@, q, u, x.payload_bytes, x.variant@);
    let k = law_value_is_of_the_last_cell(a.records@, q, v, x.payload_bytes, x.variant@);
    assert(u[i] == crate::model::msgs_of(x) && v[i] == crate::model::p50_of(x));
}

/// The horizontal axis of a chart has the sizes in ascending order, each once, and
/// it is the same in both panels.
pub proof fn law_sizes_ascend(c: Chart<'_>, asked: Asked, a: Archive, impls: Seq<Impl>)
    requires
        crate::charts::is_rate_chart(Rendering::Draw(c), asked, a, impls)
            || crate::charts::is_latency_chart(Rendering::Draw(c), asked, a, impls),
    ensures
        forall|i: int, j: int|
            0 <= i < j < c.left.sizes@.len() ==> c.left.sizes@[i] < c.left.sizes@[j],
        c.right.sizes@ == c.left.sizes@,
{
}

/// A size is on the axis only where a cell of it was measured.
pub proof fn law_sizes_were_measured(
    c: Chart<'_>,
    asked: Asked,
    a: Archive,
    impls: Seq<Impl>,
    at: int,
) -> (i: int)
    requires
        crate::charts::is_rate_chart(Rendering::Draw(c), asked, a, impls),
        0 <= at < c.left.sizes@.len(),
    ensures
        0 <= i < a.records@.len(),
        is_cell(a.records@[i], asked.selector, c.left.sizes@[at], a.records@[i].variant@),
        is_measured(rate_in(Unit::Messages, a.records@[i])) || is_measured(
            rate_in(Unit::Gigabytes, a.records@[i]),
        ),
{
    let f = |r: Record| crate::model::msgs_of(r);
    let g = |r: Record| crate::model::gbps_of(r);
    let q = asked.selector;
    let all = seq![
        crate::charts::points_under(a, q, f),
        crate::charts::points_under(a, q, g),
    ];
    let size = c.left.sizes@[at];
    assert(c.left.sizes@.contains(size));
    let s = choose|s: int| 0 <= s < all.len() && (#[trigger] all[s]).dom().contains(size);
    let metrics = if s == 0 {
        a.records@.map_values(f)
    } else {
        a.records@.map_values(g)
    };
    let i = lemma_size_is_measured(a.records@, q, metrics, size);
    assert(metrics[i] == f(a.records@[i]) || metrics[i] == g(a.records@[i]));
    i
}

proof fn lemma_size_is_measured(
    records: Seq<Record>,
    q: Selector,
    metrics: Seq<Option<Measure>>,
    size: u64,
) -> (i: int)
    requires
        metrics.len() == records.len(),
        crate::model::series_of(records, q, metrics).dom().contains(size),
    ensures
        0 <= i < records.len(),
        is_cell(records[i], q, size, records[i].variant@),
        is_measured(metrics[i]),
    decreases records.len(),
{
    let n = records.len() - 1;
    let r = records.last();
    if crate::model::plotted(r, q, metrics.last()) && r.payload_bytes == size {
        n
    } else {
        lemma_size_is_measured(records.drop_last(), q, metrics.drop_last(), size)
    }
}

/// The points of a series are its rows, and a line over points is its library with
/// them.
pub proof fn law_views_keep_the_points(
    s: crate::model::Series,
    size: u64,
    v: Seq<crate::theme::Line<'_>>,
    l: int,
)
    requires
        0 <= l < v.len(),
    ensures
        crate::model::points(s).dom() == s@.dom(),
        s@.dom().contains(size) ==> crate::model::points(s)[size] == s@[size]@,
        crate::theme::lines_view(v).len() == v.len(),
        crate::theme::lines_view(v)[l] == (*v[l].library, v[l].points@),
{
}

/// A chart says of itself what was asked for, where its numbers came from, and of
/// each panel what it shows.
pub proof fn law_charts_say_what_they_are(c: Chart<'_>, asked: Asked, a: Archive, impls: Seq<Impl>)
    requires
        crate::charts::is_rate_chart(Rendering::Draw(c), asked, a, impls)
            || crate::charts::is_latency_chart(Rendering::Draw(c), asked, a, impls),
    ensures
        c.file@ == asked.file,
        c.title@ == asked.title,
        c.subtitle@ == asked.subtitle,
        c.provenance@ == crate::charts::provenance_of(a),
        crate::model::labels(c.versions) == crate::model::versions_of(a.records@),
        crate::charts::is_rate_chart(Rendering::Draw(c), asked, a, impls) ==> {
            &&& c.left.caption@ == "message rate (higher is better)"@
            &&& c.right.caption@ == "byte rate (higher is better)"@
        },
        crate::charts::is_latency_chart(Rendering::Draw(c), asked, a, impls) ==> {
            &&& c.left.caption@ == "p50 round-trip (lower is better)"@
            &&& c.right.caption@ == "p99 round-trip (lower is better)"@
        },
{
}

/// A chart that is left out is named as it was asked for.
pub proof fn law_skipped_charts_are_named(
    file: &'static str,
    asked: Asked,
    a: Archive,
    impls: Seq<Impl>,
)
    requires
        crate::charts::is_rate_chart(Rendering::Skip(file), asked, a, impls)
            || crate::charts::is_latency_chart(Rendering::Skip(file), asked, a, impls),
    ensures
        file@ == asked.file,
{
}

/// The legend of a chart names every library that one of its panels draws.
pub proof fn law_drawn_libraries_are_in_the_legend(
    c: Chart<'_>,
    asked: Asked,
    a: Archive,
    impls: Seq<Impl>,
    right: bool,
    l: int,
)
    requires
        crate::charts::is_rate_chart(Rendering::Draw(c), asked, a, impls)
            || crate::charts::is_latency_chart(Rendering::Draw(c), asked, a, impls),
        0 <= l < (if right {
            c.right
        } else {
            c.left
        }).lines@.len(),
    ensures
        ({
            let panel = if right {
                c.right
            } else {
                c.left
            };
            exists|k: int|
                0 <= k < c.impls@.len() && *(#[trigger] c.impls@[k]) == *panel.lines@[l].library
        }),
{
    let panel = if right {
        c.right
    } else {
        c.left
    };
    let q = asked.selector;
    let shown = crate::theme::impls_of(c.impls@);
    let lines = crate::theme::lines_view(panel.lines@);
    assert(lines[l] == (*panel.lines@[l].library, panel.lines@[l].points@));
    let f = |r: Record| crate::model::msgs_of(r);
    let g = |r: Record| crate::model::gbps_of(r);
    let u = |r: Record| crate::model::p50_of(r);
    let v = |r: Record| crate::model::p99_of(r);
    law_every_library_has_its_line(
        c.left.sizes@,
        shown,
        crate::charts::points_under(
            a,
            q,
            if right {
                g
            } else {
                f
            },
        ),
    );
    law_every_library_has_its_line(
        c.left.sizes@,
        shown,
        crate::charts::points_under(
            a,
            q,
            if right {
                v
            } else {
                u
            },
        ),
    );
    assert(shown.contains(lines[l].0));
    let k = choose|k: int| 0 <= k < shown.len() && shown[k] == lines[l].0;
    assert(*c.impls@[k] == *panel.lines@[l].library);
}

/// Every size on the axis of a latency chart was measured, in one of its panels.
pub proof fn law_trip_sizes_were_measured(
    c: Chart<'_>,
    asked: Asked,
    a: Archive,
    impls: Seq<Impl>,
    at: int,
) -> (i: int)
    requires
        crate::charts::is_latency_chart(Rendering::Draw(c), asked, a, impls),
        0 <= at < c.left.sizes@.len(),
    ensures
        0 <= i < a.records@.len(),
        is_cell(a.records@[i], asked.selector, c.left.sizes@[at], a.records@[i].variant@),
        is_measured(trip_in(false, a.records@[i])) || is_measured(trip_in(true, a.records@[i])),
{
    let q = asked.selector;
    let f = |r: Record| crate::model::p50_of(r);
    let g = |r: Record| crate::model::p99_of(r);
    let all = seq![
        crate::charts::points_under(a, q, f),
        crate::charts::points_under(a, q, g),
    ];
    let size = c.left.sizes@[at];
    assert(c.left.sizes@.contains(size));
    let s = choose|s: int| 0 <= s < all.len() && (#[trigger] all[s]).dom().contains(size);
    let metrics = if s == 0 {
        a.records@.map_values(f)
    } else {
        a.records@.map_values(g)
    };
    let i = lemma_size_is_measured(a.records@, q, metrics, size);
    assert(metrics[i] == f(a.records@[i]) || metrics[i] == g(a.records@[i]));
    i
}

proof fn lemma_some_size(m: Map<u64, Map<Seq<char>, Measure>>) -> (size: u64)
    requires
        m != Map::<u64, Map<Seq<char>, Measure>>::empty(),
    ensures
        m.dom().contains(size),
{
    if forall|x: u64| !m.dom().contains(x) {
        assert(m =~= Map::<u64, Map<Seq<char>, Measure>>::empty());
    }
    choose|x: u64| m.dom().contains(x)
}

/// A chart is drawn only where there is something to draw: a cell that it asks for
/// has a value in its left panel.
pub proof fn law_drawn_charts_have_a_value(
    c: Chart<'_>,
    asked: Asked,
    a: Archive,
    impls: Seq<Impl>,
    rates: bool,
) -> (i: int)
    requires
        rates ==> crate::charts::is_rate_chart(Rendering::Draw(c), asked, a, impls),
        !rates ==> crate::charts::is_latency_chart(Rendering::Draw(c), asked, a, impls),
    ensures
        0 <= i < a.records@.len(),
        is_cell(
            a.records@[i],
            asked.selector,
            a.records@[i].payload_bytes,
            a.records@[i].variant@,
        ),
        rates ==> is_measured(rate_in(Unit::Messages, a.records@[i])),
        !rates ==> is_measured(trip_in(false, a.records@[i])),
{
    let q = asked.selector;
    let f = |r: Record| crate::model::msgs_of(r);
    let g = |r: Record| crate::model::p50_of(r);
    let m = if rates {
        f
    } else {
        g
    };
    let metrics = a.records@.map_values(m);
    let size = lemma_some_size(crate::charts::points_under(a, q, m));
    let i = lemma_size_is_measured(a.records@, q, metrics, size);
    assert(metrics[i] == m(a.records@[i]));
    i
}

/// Whether any cell did not converge is said by the footnote, and either way that
/// inverted cells are left out.
pub proof fn law_footnotes_warn(n: nat)
    ensures
        n == 0 ==> crate::charts::footnote_of(n)
            == "Cells flagged inverted by replication are omitted."@,
        n > 0 ==> crate::text::ends(
            crate::charts::footnote_of(n),
            " plotted cell(s) did not converge across replicates; read the shape, not the exact value. Inverted cells are omitted."@,
        ),
{
    let tail =
        " plotted cell(s) did not converge across replicates; read the shape, not the exact value. Inverted cells are omitted."@;
    if n > 0 {
        let s = crate::charts::footnote_of(n);
        assert(s.subrange(s.len() - tail.len(), s.len() as int) =~= tail);
    }
}

} // verus!
