//! Palette, series identity, labels, and the geometry of legend and panels.
//!
//! Colours match the interactive dashboard, so that a library is the same colour
//! in the charts and there. Dark only, and deliberately so: a static picture
//! cannot follow the reader's colour scheme.
use vstd::prelude::*;
use crate::model::{Measure, Series};
use crate::number::decimal;
use crate::sorted_map::SortedMap;
use crate::text::chars_of;

verus! {

/// A colour.
#[derive(Clone, Copy, Debug, PartialEq, Eq, Structural)]
pub struct Rgb {
    pub r: u8,
    pub g: u8,
    pub b: u8,
}

/// The background of a chart.
pub fn background() -> (c: Rgb)
    ensures
        c == (Rgb { r: 15, g: 18, b: 22 }),
{
    Rgb { r: 15, g: 18, b: 22 }
}

/// The grid lines.
pub fn grid() -> (c: Rgb)
    ensures
        c == (Rgb { r: 42, g: 49, b: 58 }),
{
    Rgb { r: 42, g: 49, b: 58 }
}

/// The axes.
pub fn axis() -> (c: Rgb)
    ensures
        c == (Rgb { r: 154, g: 164, b: 178 }),
{
    Rgb { r: 154, g: 164, b: 178 }
}

/// Text.
pub fn text_colour() -> (c: Rgb)
    ensures
        c == (Rgb { r: 230, g: 233, b: 238 }),
{
    Rgb { r: 230, g: 233, b: 238 }
}

/// Text of the second rank, and what a malformed colour falls back to.
pub open spec fn muted_grey() -> Rgb {
    Rgb { r: 154, g: 164, b: 178 }
}

/// Text of the second rank, and what a malformed colour falls back to.
pub fn muted() -> (c: Rgb)
    ensures
        c == muted_grey(),
{
    Rgb { r: 154, g: 164, b: 178 }
}

/// One plotted library. `key` is the record's variant.
pub struct Impl {
    pub key: String,
    pub label: String,
    pub note: String,
    pub color: Rgb,
}

/// The value of a hexadecimal digit.
pub open spec fn hex_digit(c: char) -> Option<nat> {
    if '0' <= c <= '9' {
        Some((c as int - '0' as int) as nat)
    } else if 'a' <= c <= 'f' {
        Some((c as int - 'a' as int + 10) as nat)
    } else if 'A' <= c <= 'F' {
        Some((c as int - 'A' as int + 10) as nat)
    } else {
        None
    }
}

/// The value of two characters as a hexadecimal number, which may have a plus
/// sign in front.
pub open spec fn hex_pair(a: char, b: char) -> Option<nat> {
    if a == '+' {
        hex_digit(b)
    } else {
        match (hex_digit(a), hex_digit(b)) {
            (Some(x), Some(y)) => Some(16 * x + y),
            _ => None,
        }
    }
}

/// What is left of `s` without the number signs in front.
pub open spec fn without_signs(s: Seq<char>) -> Seq<char>
    decreases s.len(),
{
    if s.len() > 0 && s[0] == '#' {
        without_signs(s.skip(1))
    } else {
        s
    }
}

/// The colour that `#rrggbb` stands for, the muted grey where it is malformed.
pub open spec fn colour_of(s: Seq<char>) -> Rgb {
    let h = without_signs(s);
    if h.len() != 6 {
        muted_grey()
    } else {
        match (hex_pair(h[0], h[1]), hex_pair(h[2], h[3]), hex_pair(h[4], h[5])) {
            (Some(r), Some(g), Some(b)) => Rgb { r: r as u8, g: g as u8, b: b as u8 },
            _ => muted_grey(),
        }
    }
}

fn digit_value(c: char) -> (r: Option<u8>)
    ensures
        match r {
            Some(v) => hex_digit(c) == Some(v as nat) && v < 16,
            None => hex_digit(c) is None,
        },
{
    if '0' <= c && c <= '9' {
        Some((c as u32 - '0' as u32) as u8)
    } else if 'a' <= c && c <= 'f' {
        Some((c as u32 - 'a' as u32 + 10) as u8)
    } else if 'A' <= c && c <= 'F' {
        Some((c as u32 - 'A' as u32 + 10) as u8)
    } else {
        None
    }
}

fn pair_value(a: char, b: char) -> (r: Option<u8>)
    ensures
        match r {
            Some(v) => hex_pair(a, b) == Some(v as nat),
            None => hex_pair(a, b) is None,
        },
{
    if a == '+' {
        return digit_value(b);
    }
    match digit_value(a) {
        Some(x) => match digit_value(b) {
            Some(y) => Some(16 * x + y),
            None => None,
        },
        None => None,
    }
}

/// `#rrggbb` to a colour. Falls back to the muted grey: a malformed colour
/// should cost one series its hue, not the chart.
pub fn parse_hex(hex: &str) -> (c: Rgb)
    ensures
        c == colour_of(hex@),
{
    let x = chars_of(hex);
    let mut i: usize = 0;
    assert(x@.skip(0) =~= x@);
    while i < x.len() && x[i] == '#'
        invariant
            i <= x@.len(),
            without_signs(x@) == without_signs(x@.skip(i as int)),
        decreases x@.len() - i,
    {
        assert(x@.skip(i as int).skip(1) =~= x@.skip(i + 1));
        i += 1;
    }
    let ghost h = x@.skip(i as int);
    assert(without_signs(x@) == h);
    if x.len() - i != 6 {
        return muted();
    }
    match pair_value(x[i], x[i + 1]) {
        Some(r) => match pair_value(x[i + 2], x[i + 3]) {
            Some(g) => match pair_value(x[i + 4], x[i + 5]) {
                Some(b) => Rgb { r, g, b },
                None => muted(),
            },
            None => muted(),
        },
        None => muted(),
    }
}

/// A payload size as the axis shows it.
pub open spec fn size_shown(b: u64) -> Seq<char> {
    if b >= 1024 {
        crate::number::decimal_of((b / 1024) as nat) + " KiB"@
    } else {
        crate::number::decimal_of(b as nat) + " B"@
    }
}

/// A payload size as the axis shows it.
pub fn fmt_size(b: u64) -> (r: String)
    ensures
        r@ == size_shown(b),
{
    if b >= 1024 {
        let mut s = decimal(b / 1024);
        s.append(" KiB");
        s
    } else {
        let mut s = decimal(b);
        s.append(" B");
        s
    }
}

/// The label of the tick at `i`: that of the size there, empty where there is
/// none.
pub fn tick_label(sizes: &Vec<u64>, i: usize) -> (r: String)
    ensures
        r@ == (if i < sizes@.len() {
            size_shown(sizes@[i as int])
        } else {
            Seq::empty()
        }),
{
    if i < sizes.len() {
        fmt_size(sizes[i])
    } else {
        let s = String::new();
        assert(s@ =~= Seq::empty());
        s
    }
}

/// The last position of the horizontal axis: the sweep points are evenly spaced
/// from zero on, whatever their ratios, and the axis has some width.
pub fn axis_end(sizes: &Vec<u64>) -> (r: usize)
    ensures
        r == (if sizes@.len() >= 2 {
            sizes@.len() - 1
        } else {
            1
        }),
{
    if sizes.len() >= 2 {
        sizes.len() - 1
    } else {
        1
    }
}

/// The libraries behind a list of references.
pub open spec fn impls_of(v: Seq<&Impl>) -> Seq<Impl> {
    v.map_values(|i: &Impl| *i)
}

/// The value of a variant at a size.
pub open spec fn value_at(
    pts: Map<u64, Map<Seq<char>, Measure>>,
    size: u64,
    key: Seq<char>,
) -> Option<Measure> {
    if pts.dom().contains(size) && pts[size].dom().contains(key) {
        Some(pts[size][key])
    } else {
        None
    }
}

/// Whether a value, where it is there and above zero, is no greater than `m`.
pub open spec fn at_most(v: Option<Measure>, m: Measure) -> bool {
    v is Some && v->0.above_zero() ==> v->0.bits <= m.bits
}

/// Whether `m` is the greatest value above zero among those of the plotted
/// libraries, or zero where there is none.
pub open spec fn is_top(
    pts: Map<u64, Map<Seq<char>, Measure>>,
    impls: Seq<Impl>,
    m: Measure,
) -> bool {
    &&& forall|size: u64, i: int|
        0 <= i < impls.len() ==> at_most(#[trigger] value_at(pts, size, impls[i].key@), m)
    &&& m.bits == 0 || (m.above_zero() && exists|size: u64, i: int|
        0 <= i < impls.len() && #[trigger] value_at(pts, size, impls[i].key@) == Some(m))
}

fn lookup(series: &Series, row: usize, key: &String) -> (r: Option<Measure>)
    requires
        crate::model::series_wf(*series),
        row < series.entries@.len(),
    ensures
        r == value_at(crate::model::points(*series), series.entries@[row as int].0, key@),
{
    proof {
        crate::sorted_map::lemma_map_has(series.entries@, row as int);
        assert(series@[series.entries@[row as int].0].wf());
    }
    match series.entries[row].1.get(key) {
        Some(m) => Some(*m),
        None => None,
    }
}

/// Largest value across the variants actually being plotted.
pub fn series_max(series: &Series, impls: &Vec<&Impl>) -> (m: Measure)
    requires
        crate::model::series_wf(*series),
    ensures
        is_top(crate::model::points(*series), impls_of(impls@), m),
{
    let mut best = Measure { bits: 0 };
    let ghost pts = crate::model::points(*series);
    let ghost list = impls_of(impls@);
    let mut row: usize = 0;
    while row < series.entries.len()
        invariant
            row <= series.entries@.len(),
            crate::model::series_wf(*series),
            pts == crate::model::points(*series),
            list == impls_of(impls@),
            forall|k: int, i: int|
                0 <= k < row && 0 <= i < list.len() ==> at_most(
                    #[trigger] value_at(pts, series.entries@[k].0, list[i].key@),
                    best,
                ),
            best.bits == 0 || (best.above_zero() && exists|size: u64, i: int|
                0 <= i < list.len() && #[trigger] value_at(pts, size, list[i].key@) == Some(best)),
        decreases series.entries@.len() - row,
    {
        let mut i: usize = 0;
        while i < impls.len()
            invariant
                i <= impls@.len(),
                row < series.entries@.len(),
                crate::model::series_wf(*series),
                pts == crate::model::points(*series),
                list == impls_of(impls@),
                forall|k: int, j: int|
                    0 <= k < row && 0 <= j < list.len() ==> at_most(
                        #[trigger] value_at(pts, series.entries@[k].0, list[j].key@),
                        best,
                    ),
                forall|j: int|
                    0 <= j < i ==> at_most(
                        #[trigger] value_at(pts, series.entries@[row as int].0, list[j].key@),
                        best,
                    ),
                best.bits == 0 || (best.above_zero() && exists|size: u64, j: int|
                    0 <= j < list.len() && #[trigger] value_at(pts, size, list[j].key@) == Some(
                        best,
                    )),
            decreases impls@.len() - i,
        {
            assert(list[i as int] == *impls@[i as int]);
            if let Some(v) = lookup(series, row, &impls[i].key) {
                if v.is_above_zero() && v.bits > best.bits {
                    best = v;
                    assert(value_at(pts, series.entries@[row as int].0, list[i as int].key@)
                        == Some(best));
                }
            }
            i += 1;
        }
        row += 1;
    }
    proof {
        assert forall|size: u64, i: int| 0 <= i < list.len() implies at_most(
            #[trigger] value_at(pts, size, list[i].key@),
            best,
        ) by {
            if value_at(pts, size, list[i].key@) is Some {
                crate::sorted_map::lemma_key_has_entry(series.entries@, size);
                let k = choose|k: int|
                    0 <= k < series.entries@.len() && (#[trigger] series.entries@[k]).0@ == size;
                assert(value_at(pts, series.entries@[k].0, list[i].key@) is Some);
            }
        }
    }
    best
}

/// Whether a variant has a point in any of the series.
pub open spec fn appears(key: Seq<char>, all: Seq<Map<u64, Map<Seq<char>, Measure>>>) -> bool {
    exists|s: int, size: u64|
        0 <= s < all.len() && #[trigger] value_at(all[s], size, key) is Some
}

/// The libraries with at least one point, in their order.
pub open spec fn present_of(
    impls: Seq<Impl>,
    all: Seq<Map<u64, Map<Seq<char>, Measure>>>,
) -> Seq<Impl>
    decreases impls.len(),
{
    if impls.len() == 0 {
        Seq::empty()
    } else {
        let rest = present_of(impls.drop_last(), all);
        if appears(impls.last().key@, all) {
            rest.push(impls.last())
        } else {
            rest
        }
    }
}

/// The points of several series.
pub open spec fn points_of(series: Seq<&Series>) -> Seq<Map<u64, Map<Seq<char>, Measure>>> {
    series.map_values(|s: &Series| crate::model::points(*s))
}

fn has_point(series: &Series, key: &String) -> (r: bool)
    requires
        crate::model::series_wf(*series),
    ensures
        r == exists|size: u64|
            #[trigger] value_at(crate::model::points(*series), size, key@) is Some,
{
    let ghost pts = crate::model::points(*series);
    let mut row: usize = 0;
    while row < series.entries.len()
        invariant
            row <= series.entries@.len(),
            crate::model::series_wf(*series),
            pts == crate::model::points(*series),
            forall|k: int|
                0 <= k < row ==> #[trigger] value_at(pts, series.entries@[k].0, key@) is None,
        decreases series.entries@.len() - row,
    {
        if lookup(series, row, key).is_some() {
            return true;
        }
        row += 1;
    }
    proof {
        assert forall|size: u64| #[trigger] value_at(pts, size, key@) is None by {
            if value_at(pts, size, key@) is Some {
                crate::sorted_map::lemma_key_has_entry(series.entries@, size);
                let k = choose|k: int|
                    0 <= k < series.entries@.len() && (#[trigger] series.entries@[k]).0@ == size;
                assert(value_at(pts, series.entries@[k].0, key@) is Some);
            }
        }
    }
    false
}

/// The variants that have at least one point, in legend order. Drawing from the
/// full list would put dead entries in the legend for a run where an engine did
/// not report.
pub fn present<'a>(series: &[&Series], impls: &'a Vec<Impl>) -> (r: Vec<&'a Impl>)
    requires
        forall|s: int|
            0 <= s < series@.len() ==> crate::model::series_wf(*(#[trigger] series@[s])),
    ensures
        impls_of(r@) == present_of(impls@, points_of(series@)),
{
    let mut out: Vec<&'a Impl> = Vec::new();
    let ghost all = points_of(series@);
    let mut i: usize = 0;
    assert(impls@.take(0) =~= Seq::empty());
    assert(impls_of(out@) =~= Seq::empty());
    while i < impls.len()
        invariant
            i <= impls@.len(),
            all == points_of(series@),
            forall|s: int|
                0 <= s < series@.len() ==> crate::model::series_wf(*(#[trigger] series@[s])),
            impls_of(out@) == present_of(impls@.take(i as int), all),
        decreases impls@.len() - i,
    {
        let mut found: bool = false;
        let mut s: usize = 0;
        let ghost key = impls@[i as int].key@;
        while s < series.len() && !found
            invariant
                s <= series@.len(),
                i < impls@.len(),
                key == impls@[i as int].key@,
                all == points_of(series@),
                forall|k: int|
                    0 <= k < series@.len() ==> crate::model::series_wf(*(#[trigger] series@[k])),
                found ==> appears(key, all),
                !found ==> forall|k: int, size: u64|
                    0 <= k < s ==> #[trigger] value_at(all[k], size, key) is None,
            decreases series@.len() - s,
        {
            let one: &Series = series[s];
            assert(all[s as int] == crate::model::points(*one));
            found = has_point(one, &impls[i].key);
            if found {
                proof {
                    let size = choose|size: u64|
                        #[trigger] value_at(crate::model::points(*one), size, key) is Some;
                    assert(value_at(all[s as int], size, key) is Some);
                }
            }
            s += 1;
        }
        let ghost before = out@;
        assert(found == appears(key, all));
        assert(impls@.take(i + 1).drop_last() =~= impls@.take(i as int));
        if found {
            out.push(&impls[i]);
            assert(impls_of(out@) =~= impls_of(before).push(impls@[i as int]));
        }
        i += 1;
    }
    assert(impls@.take(impls@.len() as int) =~= impls@);
    out
}

/// One library's line in a panel.
pub struct Line<'a> {
    pub library: &'a Impl,
    /// Positions on the horizontal axis, with their values.
    pub points: Vec<(usize, Measure)>,
}

/// The points of a variant over the first `n` of the sizes: its values, at the
/// positions of the sizes where it has one.
pub open spec fn line_points(
    sizes: Seq<u64>,
    key: Seq<char>,
    pts: Map<u64, Map<Seq<char>, Measure>>,
    n: int,
) -> Seq<(usize, Measure)>
    decreases n,
{
    if n <= 0 {
        Seq::empty()
    } else {
        let rest = line_points(sizes, key, pts, n - 1);
        match value_at(pts, sizes[n - 1], key) {
            Some(v) => rest.push(((n - 1) as usize, v)),
            None => rest,
        }
    }
}

/// The lines of a panel over characters and points: in reverse order, so that
/// the first legend entry is drawn last and sits on top; a library without a
/// point has none.
pub open spec fn panel_lines_of(
    sizes: Seq<u64>,
    impls: Seq<Impl>,
    pts: Map<u64, Map<Seq<char>, Measure>>,
) -> Seq<(Impl, Seq<(usize, Measure)>)>
    decreases impls.len(),
{
    if impls.len() == 0 {
        Seq::empty()
    } else {
        let rest = panel_lines_of(sizes, impls.skip(1), pts);
        let p = line_points(sizes, impls[0].key@, pts, sizes.len() as int);
        if p.len() > 0 {
            rest.push((impls[0], p))
        } else {
            rest
        }
    }
}

/// Lines over characters and points.
pub open spec fn lines_view(v: Seq<Line<'_>>) -> Seq<(Impl, Seq<(usize, Measure)>)> {
    v.map_values(|l: Line<'_>| (*l.library, l.points@))
}

fn points_on_line(sizes: &Vec<u64>, key: &String, series: &Series) -> (r: Vec<(usize, Measure)>)
    requires
        crate::model::series_wf(*series),
    ensures
        r@ == line_points(sizes@, key@, crate::model::points(*series), sizes@.len() as int),
{
    let mut out: Vec<(usize, Measure)> = Vec::new();
    let ghost pts = crate::model::points(*series);
    let mut i: usize = 0;
    while i < sizes.len()
        invariant
            i <= sizes@.len(),
            crate::model::series_wf(*series),
            pts == crate::model::points(*series),
            out@ == line_points(sizes@, key@, pts, i as int),
        decreases sizes@.len() - i,
    {
        let size: u64 = sizes[i];
        if let Some(row) = series.get(&size) {
            assert(series@[size].wf());
            assert(pts[size] == row@);
            if let Some(v) = row.get(key) {
                out.push((i, *v));
            }
        }
        i += 1;
    }
    out
}

/// The lines of a panel: x is the position of the payload size, y the metric.
pub fn panel_lines<'a>(sizes: &Vec<u64>, impls: &Vec<&'a Impl>, series: &Series) -> (r: Vec<
    Line<'a>,
>)
    requires
        crate::model::series_wf(*series),
    ensures
        lines_view(r@) == panel_lines_of(
            sizes@,
            impls_of(impls@),
            crate::model::points(*series),
        ),
{
    let mut out: Vec<Line<'a>> = Vec::new();
    let ghost list = impls_of(impls@);
    let ghost pts = crate::model::points(*series);
    let mut i: usize = impls.len();
    assert(list.skip(list.len() as int) =~= Seq::empty());
    assert(lines_view(out@) =~= panel_lines_of(sizes@, list.skip(i as int), pts));
    while i > 0
        invariant
            i <= impls@.len(),
            crate::model::series_wf(*series),
            list == impls_of(impls@),
            pts == crate::model::points(*series),
            lines_view(out@) == panel_lines_of(sizes@, list.skip(i as int), pts),
        decreases i,
    {
        let ghost before = out@;
        i -= 1;
        let library: &'a Impl = impls[i];
        let points = points_on_line(sizes, &library.key, series);
        proof {
            assert(list.skip(i as int).skip(1) =~= list.skip(i + 1));
            assert(list.skip(i as int)[0] == *library);
        }
        if points.len() > 0 {
            let ghost p = points@;
            out.push(Line { library, points });
            assert(lines_view(out@) =~= lines_view(before).push((*library, p)));
        }
    }
    assert(list.skip(0) =~= list);
    out
}

/// Left and right margin of the legend block, matching the header's.
pub const LEGEND_PAD: i32 = 18;

/// The least width of a legend entry.
pub const MIN_COL: i32 = 160;

/// The height of a row of the legend.
pub const ROW_H: i32 = 30;

/// How many columns the legend has: as many as fit, one at least, and no more
/// than there are entries.
pub open spec fn columns_of(count: int, width: int) -> int {
    let fit = (width - 2 * LEGEND_PAD) / (MIN_COL as int);
    let most = if count >= 1 {
        count
    } else {
        1
    };
    if fit < 1 {
        1
    } else if fit > most {
        most
    } else {
        fit
    }
}

/// How many rows the legend has.
pub open spec fn rows_of(count: int, width: int) -> int {
    (count + columns_of(count, width) - 1) / columns_of(count, width)
}

/// How tall the legend is.
pub open spec fn legend_height_of(count: int, width: int) -> int {
    8 + ROW_H * rows_of(count, width)
}

/// Whether the legend's numbers are machine integers.
pub open spec fn legend_computes(count: int, width: int) -> bool {
    &&& width >= i32::MIN + 2 * LEGEND_PAD
    &&& count + columns_of(count, width) <= i32::MAX
    &&& legend_height_of(count, width) <= i32::MAX
}

fn columns(count: i32, width: i32) -> (r: i32)
    requires
        0 <= count,
        width >= i32::MIN + 2 * LEGEND_PAD,
    ensures
        r == columns_of(count as int, width as int),
        1 <= r,
        r <= count || r == 1,
{
    let usable: i32 = width - 2 * LEGEND_PAD;
    if usable < MIN_COL {
        return 1;
    }
    let fit: i32 = usable / MIN_COL;
    let most: i32 = if count >= 1 {
        count
    } else {
        1
    };
    if fit > most {
        most
    } else {
        fit
    }
}

/// How tall the legend needs to be for this many entries at this width, so that
/// the caller can reserve the right amount before splitting the drawing area.
pub fn legend_height(count: usize, width: i32) -> (h: u32)
    requires
        legend_computes(count as int, width as int),
    ensures
        h == legend_height_of(count as int, width as int),
{
    let n: i32 = count as i32;
    let cols: i32 = columns(n, width);
    let rows: i32 = (n + cols - 1) / cols;
    assert(0 <= rows) by (nonlinear_arith)
        requires
            rows == (n + cols - 1) / (cols as int),
            cols >= 1,
            n >= 0,
    ;
    (8 + ROW_H * rows) as u32
}

/// One entry of the legend: a colour swatch with its upper left corner at
/// `(x, y)`, the library with the measured version, and its runtime note.
pub struct LegendEntry {
    pub x: i32,
    pub y: i32,
    pub color: Rgb,
    pub label: String,
    /// Empty where there is none to draw.
    pub note: String,
}

/// The label of a library in the legend, with its version where it is known.
pub open spec fn legend_label(
    library: Impl,
    versions: Map<Seq<char>, Seq<char>>,
) -> Seq<char> {
    if versions.dom().contains(library.key@) {
        library.label@ + " "@ + versions[library.key@]
    } else {
        library.label@
    }
}

/// Whether an entry is that of the library at position `i`.
pub open spec fn is_entry(
    e: LegendEntry,
    library: Impl,
    versions: Map<Seq<char>, Seq<char>>,
    count: int,
    width: int,
    i: int,
) -> bool {
    let cols = columns_of(count, width);
    let per = (width - 2 * LEGEND_PAD) / cols;
    &&& e.x == LEGEND_PAD + per * (i % cols)
    &&& e.y == 8 + ROW_H * (i / cols)
    &&& e.color == library.color
    &&& e.label@ == legend_label(library, versions)
    &&& e.note@ == library.note@
}

/// The legend along the bottom. It wraps into as many rows as it needs.
pub fn legend(impls: &Vec<&Impl>, versions: &SortedMap<String, String>, width: i32) -> (r: Vec<
    LegendEntry,
>)
    requires
        versions.wf(),
        legend_computes(impls@.len() as int, width as int),
    ensures
        r@.len() == impls@.len(),
        forall|i: int|
            0 <= i < r@.len() ==> is_entry(
                #[trigger] r@[i],
                *impls@[i],
                crate::model::labels(*versions),
                impls@.len() as int,
                width as int,
                i,
            ),
{
    let mut out: Vec<LegendEntry> = Vec::new();
    let n: i32 = impls.len() as i32;
    let cols: i32 = columns(n, width);
    let usable: i32 = width - 2 * LEGEND_PAD;
    let per: i32 = if usable < MIN_COL {
        usable
    } else {
        usable / cols
    };
    let mut i: usize = 0;
    while i < impls.len()
        invariant
            i <= impls@.len(),
            n == impls@.len(),
            legend_computes(n as int, width as int),
            versions.wf(),
            usable == width - 2 * LEGEND_PAD,
            cols == columns_of(n as int, width as int),
            cols >= 1,
            usable < MIN_COL ==> cols == 1,
            per == usable as int / cols as int,
            out@.len() == i,
            forall|k: int|
                0 <= k < i ==> is_entry(
                    #[trigger] out@[k],
                    *impls@[k],
                    crate::model::labels(*versions),
                    n as int,
                    width as int,
                    k,
                ),
        decreases impls@.len() - i,
    {
        let k: i32 = i as i32;
        let column: i32 = k % cols;
        let row: i32 = k / cols;
        assert(0 <= row < (n + cols - 1) as int / cols as int && 0 <= column < cols)
            by (nonlinear_arith)
            requires
                column == k % cols,
                row == k as int / cols as int,
                cols >= 1,
                0 <= k < n,
        ;
        assert(per * column == 0 || 0 <= per * column <= usable) by (nonlinear_arith)
            requires
                per == usable as int / cols as int,
                0 <= column < cols,
                usable >= 0 || cols == 1,
        ;
        let mut label = impls[i].label.clone();
        if let Some(v) = versions.get(&impls[i].key) {
            label.append(" ");
            label.append(v.as_str());
        }
        let e = LegendEntry {
            x: LEGEND_PAD + per * column,
            y: 8 + ROW_H * row,
            color: impls[i].color,
            label,
            note: impls[i].note.clone(),
        };
        assert(is_entry(
            e,
            *impls@[i as int],
            crate::model::labels(*versions),
            n as int,
            width as int,
            i as int,
        ));
        out.push(e);
        i += 1;
    }
    out
}

/// Every entry of the legend lies within its block: its swatch begins between
/// the margins and above the block's height.
pub proof fn law_legend_fits(count: int, width: int, i: int)
    requires
        0 <= i < count,
        width >= 2 * LEGEND_PAD,
    ensures
        ({
            let cols = columns_of(count, width);
            let per = (width - 2 * LEGEND_PAD) / cols;
            let x = LEGEND_PAD + per * (i % cols);
            let y = 8 + ROW_H * (i / cols);
            &&& LEGEND_PAD <= x <= width - LEGEND_PAD
            &&& x + per <= width - LEGEND_PAD
            &&& 8 <= y
            &&& y + ROW_H <= legend_height_of(count, width)
        }),
{
    let cols = columns_of(count, width);
    let usable = width - 2 * LEGEND_PAD;
    let per = usable / cols;
    assert(cols >= 1);
    assert(0 <= per && per * (i % cols) + per <= usable && 0 <= per * (i % cols))
        by (nonlinear_arith)
        requires
            per == usable / cols,
            cols >= 1,
            usable >= 0,
            i >= 0,
    {
        let c = i % cols;
        assert(0 <= c < cols);
        assert(per * cols <= usable);
        assert(per * c + per == per * (c + 1));
        assert(per * (c + 1) <= per * cols);
    }
    assert(0 <= i / cols && i / cols + 1 <= (count + cols - 1) / cols) by (nonlinear_arith)
        requires
            cols >= 1,
            0 <= i < count,
    {
        let q = i / cols;
        assert(q * cols <= i);
        assert((q + 1) * cols <= count + cols - 1);
    }
}

/// No two entries of the legend share a place.
pub proof fn law_legend_places_distinct(count: int, width: int, i: int, j: int)
    requires
        0 <= i < j < count,
        width >= 2 * LEGEND_PAD + MIN_COL,
    ensures
        ({
            let cols = columns_of(count, width);
            let per = (width - 2 * LEGEND_PAD) / cols;
            per * (i % cols) != per * (j % cols) || ROW_H * (i / cols) != ROW_H * (j / cols)
        }),
{
    let cols = columns_of(count, width);
    let usable = width - 2 * LEGEND_PAD;
    let per = usable / cols;
    assert(1 <= cols <= usable / 160);
    assert(per >= 1) by (nonlinear_arith)
        requires
            per == usable / cols,
            1 <= cols <= usable / 160,
            usable >= 160,
    {
        assert(cols <= usable);
    }
    vstd::arithmetic::div_mod::lemma_fundamental_div_mod(i, cols);
    vstd::arithmetic::div_mod::lemma_fundamental_div_mod(j, cols);
    if i / cols == j / cols {
        assert(i % cols != j % cols);
        assert(per * (i % cols) != per * (j % cols)) by (nonlinear_arith)
            requires
                per >= 1,
                i % cols != j % cols,
        ;
    }
}

/// The hexadecimal digit of a number below sixteen, capital or small.
pub open spec fn hex_char(d: int, capital: bool) -> char {
    if d < 10 {
        (48 + d) as char
    } else if capital {
        (55 + d) as char
    } else {
        (87 + d) as char
    }
}

/// The two digits of a byte.
pub open spec fn hex_byte(b: u8, capital: bool) -> Seq<char> {
    seq![hex_char(b as int / 16, capital), hex_char(b as int % 16, capital)]
}

proof fn lemma_hex_byte(b: u8, capital: bool)
    ensures
        hex_pair(hex_byte(b, capital)[0], hex_byte(b, capital)[1]) == Some(b as nat),
        hex_byte(b, capital)[0] != '#',
{
    let x = b as int / 16;
    let y = b as int % 16;
    assert(hex_digit(hex_char(x, capital)) == Some(x as nat));
    assert(hex_digit(hex_char(y, capital)) == Some(y as nat));
    assert(hex_char(x, capital) != '+');
}

/// A colour reads back from its six digits, red first and blue last, capital or
/// small, with a number sign in front or without.
pub proof fn law_colour_reads_back(c: Rgb, capital: bool)
    ensures
        ({
            let digits = hex_byte(c.r, capital) + hex_byte(c.g, capital) + hex_byte(c.b, capital);
            &&& colour_of(digits) == c
            &&& colour_of(seq!['#'] + digits) == c
        }),
{
    let r = hex_byte(c.r, capital);
    let g = hex_byte(c.g, capital);
    let b = hex_byte(c.b, capital);
    let d = r + g + b;
    lemma_hex_byte(c.r, capital);
    lemma_hex_byte(c.g, capital);
    lemma_hex_byte(c.b, capital);
    assert(d[0] == r[0] && d[1] == r[1] && d[2] == g[0] && d[3] == g[1] && d[4] == b[0] && d[5]
        == b[1]);
    assert((seq!['#'] + d).skip(1) =~= d);
    assert(without_signs(d) == d);
    reveal_with_fuel(without_signs, 2);
    assert(without_signs(seq!['#'] + d) == d);
}

/// A text of another length than six digits, or with anything else in it, is the
/// muted grey.
pub proof fn law_malformed_colours_are_grey(s: Seq<char>, i: int)
    requires
        s.len() > 0 ==> s[0] != '#',
        s.len() == 6 ==> 0 <= i < 6 && hex_digit(s[i]) is None && s[i] != '+',
    ensures
        colour_of(s) == (Rgb { r: 154, g: 164, b: 178 }),
{
    if s.len() == 6 {
        let h = without_signs(s);
        assert(h == s);
        if i == 0 || i == 1 {
            assert(hex_pair(h[0], h[1]) is None);
        } else if i == 2 || i == 3 {
            assert(hex_pair(h[2], h[3]) is None);
        } else {
            assert(hex_pair(h[4], h[5]) is None);
        }
    }
}

/// A size below a kibibyte is shown in bytes, and one from there on in whole
/// kibibytes.
pub proof fn law_sizes_are_shown_in_their_unit(b: u64, k: u64, rest: u64)
    requires
        b == k * 1024 + rest,
        rest < 1024,
    ensures
        k == 0 ==> size_shown(b) == crate::number::decimal_of(rest as nat) + " B"@,
        k >= 1 ==> size_shown(b) == crate::number::decimal_of(k as nat) + " KiB"@,
{
    assert(b / 1024 == k);
}

/// The legend has as many columns as fit: each of them is 160 wide at least where
/// there is more than one, and one more would not fit, or there are as many as
/// entries. Its rows hold all the entries, and one row less would not.
pub proof fn law_legend_uses_its_width(count: int, width: int)
    requires
        count >= 0,
    ensures
        ({
            let cols = columns_of(count, width);
            let rows = rows_of(count, width);
            &&& 1 <= cols
            &&& cols <= count || cols == 1
            &&& cols > 1 ==> 160 * cols <= width - 36
            &&& cols < count ==> 160 * (cols + 1) > width - 36
            &&& rows * cols >= count
            &&& count > 0 ==> (rows - 1) * cols < count
            &&& legend_height_of(count, width) == 8 + 30 * rows
        }),
{
    let cols = columns_of(count, width);
    let rows = rows_of(count, width);
    assert(rows * cols >= count && (count > 0 ==> (rows - 1) * cols < count)) by (nonlinear_arith)
        requires
            rows == (count + cols - 1) / cols,
            cols >= 1,
            count >= 0,
    {
        let q = (count + cols - 1) / cols;
        assert(q * cols <= count + cols - 1);
        assert((q + 1) * cols > count + cols - 1);
    }
}

/// The legend is read row by row: the next entry stands one column further in the
/// same row, and one row's worth of entries on stands straight below.
pub proof fn law_legend_is_read_by_rows(
    e: LegendEntry,
    f: LegendEntry,
    library: Impl,
    other: Impl,
    versions: Map<Seq<char>, Seq<char>>,
    count: int,
    width: int,
    i: int,
)
    requires
        i >= 0,
        count >= 0,
        is_entry(e, library, versions, count, width, i),
        is_entry(f, other, versions, count, width, i + columns_of(count, width)),
    ensures
        f.x == e.x,
        f.y == e.y + 30,
        e.color == library.color,
        e.note@ == library.note@,
        versions.dom().contains(library.key@) ==> e.label@ == library.label@ + " "@
            + versions[library.key@],
        !versions.dom().contains(library.key@) ==> e.label@ == library.label@,
{
    let cols = columns_of(count, width);
    assert(cols >= 1);
    assert((i + cols) % cols == i % cols && (i + cols) / cols == i / cols + 1) by {
        vstd::arithmetic::div_mod::lemma_mod_add_multiples_vanish(i, cols);
        vstd::arithmetic::div_mod::lemma_div_plus_one(i, cols);
    }
}

/// Two entries of one row stand as many columns apart as there are entries
/// between them.
pub proof fn law_legend_columns_are_even(
    e: LegendEntry,
    f: LegendEntry,
    library: Impl,
    other: Impl,
    versions: Map<Seq<char>, Seq<char>>,
    count: int,
    width: int,
    i: int,
)
    requires
        i >= 0,
        count >= 0,
        (i + 1) % columns_of(count, width) != 0,
        is_entry(e, library, versions, count, width, i),
        is_entry(f, other, versions, count, width, i + 1),
    ensures
        f.y == e.y,
        f.x == e.x + (width - 36) / columns_of(count, width),
{
    let cols = columns_of(count, width);
    let per = (width - 2 * LEGEND_PAD) / cols;
    assert(cols >= 1);
    vstd::arithmetic::div_mod::lemma_fundamental_div_mod(i, cols);
    vstd::arithmetic::div_mod::lemma_fundamental_div_mod(i + 1, cols);
    let q = i / cols;
    let r = i % cols;
    let u = (i + 1) / cols;
    let v = (i + 1) % cols;
    assert(u == q && v == r + 1) by (nonlinear_arith)
        requires
            i == cols * q + r,
            i + 1 == cols * u + v,
            0 <= r < cols,
            0 < v < cols,
    ;
    assert(per * (r + 1) == per * r + per) by (nonlinear_arith);
}

/// However many signs stand in front of a colour, it is the same colour, and a plus
/// sign in front of a digit of a pair is as good as a zero.
pub proof fn law_signs_are_passed_over(s: Seq<char>, c: char)
    ensures
        colour_of(seq!['#'] + s) == colour_of(s),
        hex_pair('+', c) == hex_pair('0', c),
{
    assert((seq!['#'] + s).skip(1) =~= s);
}

/// The legend begins at its upper left: 18 pixels from the left and 8 from the
/// top.
pub proof fn law_legend_begins_at_the_corner(
    e: LegendEntry,
    library: Impl,
    versions: Map<Seq<char>, Seq<char>>,
    count: int,
    width: int,
)
    requires
        is_entry(e, library, versions, count, width, 0),
    ensures
        e.x == 18,
        e.y == 8,
{
    let cols = columns_of(count, width);
    assert(0int % cols == 0 && 0int / cols == 0) by (nonlinear_arith)
        requires
            cols >= 1,
    ;
    assert(((width - 2 * LEGEND_PAD) / cols) * 0 == 0) by (nonlinear_arith);
}

} // verus!
