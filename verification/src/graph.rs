//! A filled-area graph in the style of macOS Activity Monitor, laid out as
//! the glyph cells to draw.
//!
//! Single series: fills upward from the bottom with smooth 8-level blocks.
//! Dual series: mirrors about a baseline — primary fills up (e.g. bytes in),
//! secondary fills down (bytes out), so both stay visible without overlap.
use crate::metric::newest;
use vstd::prelude::*;

verus! {

/// The rectangle a graph is drawn into.
#[derive(Clone, Copy, PartialEq, Eq, Debug, Structural)]
pub struct GraphArea {
    pub x: u16,
    pub y: u16,
    pub width: u16,
    pub height: u16,
}

/// One glyph to draw: at column `x`, row `y`, in the colour of the
/// downward series when `down`, else of the upward one.
#[derive(Clone, Copy, PartialEq, Eq, Debug, Structural)]
pub struct GlyphCell {
    pub x: u16,
    pub y: u16,
    pub glyph: char,
    pub down: bool,
}

/// Lower partial blocks, 0..=8 eighths. Level 0 = empty.
pub open spec fn up_glyph(level: int) -> char {
    if level <= 0 {
        ' '
    } else if level == 1 {
        '\u{2581}'
    } else if level == 2 {
        '\u{2582}'
    } else if level == 3 {
        '\u{2583}'
    } else if level == 4 {
        '\u{2584}'
    } else if level == 5 {
        '\u{2585}'
    } else if level == 6 {
        '\u{2586}'
    } else if level == 7 {
        '\u{2587}'
    } else {
        '\u{2588}'
    }
}

/// Upper partial blocks for the downward (mirrored) series, 0..=2 halves.
pub open spec fn down_glyph(level: int) -> char {
    if level <= 0 {
        ' '
    } else if level == 1 {
        '\u{2580}'
    } else {
        '\u{2588}'
    }
}

/// Largest value of a series, 0 when it is empty.
pub open spec fn peak(s: Seq<u64>) -> nat
    decreases s.len(),
{
    if s.len() == 0 {
        0
    } else {
        let m = peak(s.drop_last());
        if s.last() > m {
            s.last() as nat
        } else {
            m
        }
    }
}

/// Number of sub-cell units (eighths or halves) a value fills out of `units`
/// at scale `max`.
pub open spec fn filled(v: u64, units: nat, max: nat) -> nat {
    ((v as int * units as int) / (max as int)) as nat
}

/// `a / b` rounded up.
pub open spec fn div_ceil(a: nat, b: nat) -> nat {
    ((a as int + b as int - 1) / (b as int)) as nat
}

/// The cells of one upward column: row `r` above the bottom edge shows the
/// eighths that remain after `8 * r`, capped at a full block; empty rows
/// are not drawn.
pub open spec fn column_up(x: int, bottom: int, rows: nat, f: nat) -> Seq<GlyphCell> {
    let k = if div_ceil(f, 8) < rows {
        div_ceil(f, 8)
    } else {
        rows
    };
    Seq::new(
        k,
        |r: int|
            GlyphCell {
                x: x as u16,
                y: (bottom - 1 - r) as u16,
                glyph: up_glyph(if f - 8 * r > 8 {
                    8
                } else {
                    f - 8 * r
                }),
                down: false,
            },
    )
}

/// The cells of one downward column, in halves from the top edge.
pub open spec fn column_down(x: int, top: int, rows: nat, f: nat) -> Seq<GlyphCell> {
    let k = if div_ceil(f, 2) < rows {
        div_ceil(f, 2)
    } else {
        rows
    };
    Seq::new(
        k,
        |r: int|
            GlyphCell {
                x: x as u16,
                y: (top + r) as u16,
                glyph: down_glyph(if f - 2 * r > 2 {
                    2
                } else {
                    f - 2 * r
                }),
                down: true,
            },
    )
}

/// Upward columns for each value, left to right, bottom edge at `bottom`
/// (exclusive), `rows` tall.
pub open spec fn fill_up_cells(left: int, bottom: int, rows: nat, data: Seq<u64>, max: nat) -> Seq<
    GlyphCell,
>
    decreases data.len(),
{
    if data.len() == 0 {
        seq![]
    } else {
        fill_up_cells(left, bottom, rows, data.drop_last(), max) + column_up(
            left + data.len() - 1,
            bottom,
            rows,
            filled(data.last(), rows * 8, max),
        )
    }
}

/// Downward columns for each value, left to right, top edge at `top`,
/// `rows` tall.
pub open spec fn fill_down_cells(left: int, top: int, rows: nat, data: Seq<u64>, max: nat) -> Seq<
    GlyphCell,
>
    decreases data.len(),
{
    if data.len() == 0 {
        seq![]
    } else {
        fill_down_cells(left, top, rows, data.drop_last(), max) + column_down(
            left + data.len() - 1,
            top,
            rows,
            filled(data.last(), rows * 2, max),
        )
    }
}

/// The shared scale of the visible series: their largest value, at least 1.
pub open spec fn graph_scale(p: Seq<u64>, s: Seq<u64>) -> nat {
    let m = if peak(p) > peak(s) {
        peak(p)
    } else {
        peak(s)
    };
    if m > 1 {
        m
    } else {
        1
    }
}

/// Height of the upward half of a dual graph: the baseline sits about 55%
/// down, leaving at least one row above it.
pub open spec fn up_rows(height: u16) -> nat {
    let h = height * 11 / 20;
    if h > 1 {
        h as nat
    } else {
        1
    }
}

/// The cells of a whole graph. Only the newest `width` samples of each
/// series are shown, right of `area.x`, on a scale shared by both series.
pub open spec fn graph_cells_spec(area: GraphArea, primary: Seq<u64>, secondary: Option<Seq<u64>>) -> Seq<
    GlyphCell,
> {
    if area.width == 0 || area.height == 0 {
        seq![]
    } else {
        let w = area.width as nat;
        let p = newest(primary, w);
        match secondary {
            None => {
                let max = graph_scale(p, seq![]);
                let bottom = if area.y + area.height > u16::MAX {
                    u16::MAX as int
                } else {
                    area.y + area.height
                };
                fill_up_cells(area.x as int, bottom, area.height as nat, p, max)
            },
            Some(sec) => {
                let s = newest(sec, w);
                let max = graph_scale(p, s);
                let up_h = up_rows(area.height);
                let baseline = area.y + up_h;
                let down_h = (area.height - up_h) as nat;
                fill_up_cells(area.x as int, baseline, up_h, p, max) + fill_down_cells(
                    area.x as int,
                    baseline,
                    down_h,
                    s,
                    max,
                )
            },
        }
    }
}

/// The coordinates that drawing `area` computes fit in `u16`: every
/// drawn column, and in a dual graph the baseline and every row that the
/// downward series reaches.
pub open spec fn graph_fits(area: GraphArea, primary: Seq<u64>, secondary: Option<Seq<u64>>) -> bool {
    area.width == 0 || area.height == 0 || {
        let w = area.width as nat;
        let p = newest(primary, w);
        &&& area.x + p.len() <= 0x1_0000
        &&& match secondary {
            None => true,
            Some(sec) => {
                let s = newest(sec, w);
                let max = graph_scale(p, s);
                let baseline = area.y + up_rows(area.height);
                let down_h = (area.height - up_rows(area.height)) as nat;
                &&& area.x + s.len() <= 0x1_0000
                &&& baseline <= u16::MAX
                &&& forall|i: int|
                    0 <= i < s.len() ==> baseline + column_down(0, 0, down_h, filled(s[i], down_h * 2, max)).len()
                        <= 0x1_0000
            },
        }
    }
}

fn up_glyph_exec(level: u64) -> (c: char)
    ensures
        c == up_glyph(level as int),
{
    if level == 0 {
        ' '
    } else if level == 1 {
        '\u{2581}'
    } else if level == 2 {
        '\u{2582}'
    } else if level == 3 {
        '\u{2583}'
    } else if level == 4 {
        '\u{2584}'
    } else if level == 5 {
        '\u{2585}'
    } else if level == 6 {
        '\u{2586}'
    } else if level == 7 {
        '\u{2587}'
    } else {
        '\u{2588}'
    }
}

fn down_glyph_exec(level: u64) -> (c: char)
    ensures
        c == down_glyph(level as int),
{
    if level == 0 {
        ' '
    } else if level == 1 {
        '\u{2580}'
    } else {
        '\u{2588}'
    }
}

proof fn lemma_peak_bound(s: Seq<u64>, i: int)
    requires
        0 <= i < s.len(),
    ensures
        s[i] <= peak(s),
    decreases s.len(),
{
    if i < s.len() - 1 {
        lemma_peak_bound(s.drop_last(), i);
    }
}

/// Largest value of a slice, 0 when it is empty.
fn peak_exec(s: &[u64]) -> (m: u64)
    ensures
        m == peak(s@),
{
    let mut m: u64 = 0;
    let mut i: usize = 0;
    assert(s@.take(0) =~= Seq::<u64>::empty());
    while i < s.len()
        invariant
            i <= s@.len(),
            m == peak(s@.take(i as int)),
        decreases s@.len() - i,
    {
        assert(s@.take(i + 1).drop_last() =~= s@.take(i as int));
        if s[i] > m {
            m = s[i];
        }
        i = i + 1;
    }
    assert(s@.take(s@.len() as int) =~= s@);
    m
}

/// Fill columns upward, bottom edge at `bottom_y` (exclusive), `rows` tall.
fn fill_up(out: &mut Vec<GlyphCell>, left: u16, bottom_y: u16, rows: u16, data: &[u64], max: u64)
    requires
        max >= 1,
        forall|i: int| 0 <= i < data@.len() ==> data@[i] <= max,
        left + data@.len() <= 0x1_0000,
        rows <= bottom_y,
    ensures
        final(out)@ == old(out)@ + fill_up_cells(left as int, bottom_y as int, rows as nat, data@, max as nat),
{
    let cells: u64 = rows as u64 * 8;
    let n = data.len();
    let ghost start = out@;
    let mut i: usize = 0;
    assert(data@.take(0) =~= Seq::<u64>::empty());
    while i < n
        invariant
            n == data@.len(),
            i <= n,
            cells == rows * 8,
            max >= 1,
            forall|j: int| 0 <= j < data@.len() ==> data@[j] <= max,
            left + data@.len() <= 0x1_0000,
            rows <= bottom_y,
            out@ == start + fill_up_cells(left as int, bottom_y as int, rows as nat, data@.take(i as int), max as nat),
        decreases n - i,
    {
        let x = left + i as u16;
        let v = data[i];
        assert(((v as int) * (cells as int)) / (max as int) <= cells) by (nonlinear_arith)
            requires
                v <= max,
                max >= 1,
        ;
        assert((v as int) * (cells as int) <= 0xFFFF_FFFF_FFFF_FFFF * 0x8_0000) by (nonlinear_arith)
            requires
                v <= 0xFFFF_FFFF_FFFF_FFFFu64,
                cells <= 0x8_0000,
        ;
        let f = (v as u128 * cells as u128 / max as u128) as u64;
        let k: u64 = if (f + 7) / 8 < rows as u64 {
            (f + 7) / 8
        } else {
            rows as u64
        };
        let ghost col = column_up(x as int, bottom_y as int, rows as nat, f as nat);
        let ghost before = out@;
        assert(col.len() == k);
        let mut r: u64 = 0;
        while r < k
            invariant
                r <= k,
                k <= rows,
                col.len() == k,
                f <= cells,
                col == column_up(x as int, bottom_y as int, rows as nat, f as nat),
                rows <= bottom_y,
                out@ == before + col.take(r as int),
            decreases k - r,
        {
            let rem = f - r * 8;
            let level = if rem > 8 {
                8
            } else {
                rem
            };
            let g = up_glyph_exec(level);
            out.push(GlyphCell { x, y: bottom_y - 1 - r as u16, glyph: g, down: false });
            r = r + 1;
            assert(out@ =~= before + col.take(r as int));
        }
        assert(col.take(k as int) =~= col);
        assert(data@.take(i + 1).drop_last() =~= data@.take(i as int));
        assert(data@.take(i + 1).last() == v);
        i = i + 1;
        assert(out@ =~= start + fill_up_cells(left as int, bottom_y as int, rows as nat, data@.take(i as int), max as nat));
    }
    assert(data@.take(n as int) =~= data@);
}

/// Fill columns downward, top edge at `top_y`, `rows` tall.
fn fill_down(out: &mut Vec<GlyphCell>, left: u16, top_y: u16, rows: u16, data: &[u64], max: u64)
    requires
        max >= 1,
        forall|i: int| 0 <= i < data@.len() ==> data@[i] <= max,
        left + data@.len() <= 0x1_0000,
        forall|i: int|
            0 <= i < data@.len() ==> top_y + column_down(0, 0, rows as nat, filled(data@[i], (rows * 2) as nat, max as nat)).len()
                <= 0x1_0000,
    ensures
        final(out)@ == old(out)@ + fill_down_cells(left as int, top_y as int, rows as nat, data@, max as nat),
{
    let ghost start = out@;
    if rows == 0 {
        proof {
            lemma_fill_down_empty(left as int, top_y as int, data@, max as nat);
        }
        assert(out@ =~= start + fill_down_cells(left as int, top_y as int, rows as nat, data@, max as nat));
        return;
    }
    let halves: u64 = rows as u64 * 2;
    let n = data.len();
    let mut i: usize = 0;
    assert(data@.take(0) =~= Seq::<u64>::empty());
    while i < n
        invariant
            n == data@.len(),
            i <= n,
            halves == rows * 2,
            max >= 1,
            forall|j: int| 0 <= j < data@.len() ==> data@[j] <= max,
            left + data@.len() <= 0x1_0000,
            forall|j: int|
                0 <= j < data@.len() ==> top_y + column_down(0, 0, rows as nat, filled(data@[j], (rows * 2) as nat, max as nat)).len()
                    <= 0x1_0000,
            out@ == start + fill_down_cells(left as int, top_y as int, rows as nat, data@.take(i as int), max as nat),
        decreases n - i,
    {
        let x = left + i as u16;
        let v = data[i];
        assert(((v as int) * (halves as int)) / (max as int) <= halves) by (nonlinear_arith)
            requires
                v <= max,
                max >= 1,
        ;
        assert((v as int) * (halves as int) <= 0xFFFF_FFFF_FFFF_FFFF * 0x2_0000) by (nonlinear_arith)
            requires
                v <= 0xFFFF_FFFF_FFFF_FFFFu64,
                halves <= 0x2_0000,
        ;
        let f = (v as u128 * halves as u128 / max as u128) as u64;
        let k: u64 = if (f + 1) / 2 < rows as u64 {
            (f + 1) / 2
        } else {
            rows as u64
        };
        let ghost col = column_down(x as int, top_y as int, rows as nat, f as nat);
        assert(col.len() == column_down(0, 0, rows as nat, filled(data@[i as int], (rows * 2) as nat, max as nat)).len());
        let ghost before = out@;
        let mut r: u64 = 0;
        while r < k
            invariant
                r <= k,
                k <= rows,
                col.len() == k,
                top_y + k <= 0x1_0000,
                f <= halves,
                col == column_down(x as int, top_y as int, rows as nat, f as nat),
                out@ == before + col.take(r as int),
            decreases k - r,
        {
            let rem = f - r * 2;
            let level = if rem > 2 {
                2
            } else {
                rem
            };
            let g = down_glyph_exec(level);
            out.push(GlyphCell { x, y: top_y + r as u16, glyph: g, down: true });
            r = r + 1;
            assert(out@ =~= before + col.take(r as int));
        }
        assert(col.take(k as int) =~= col);
        assert(data@.take(i + 1).drop_last() =~= data@.take(i as int));
        assert(data@.take(i + 1).last() == v);
        i = i + 1;
        assert(out@ =~= start + fill_down_cells(left as int, top_y as int, rows as nat, data@.take(i as int), max as nat));
    }
    assert(data@.take(n as int) =~= data@);
}

proof fn lemma_fill_down_empty(left: int, top: int, data: Seq<u64>, max: nat)
    ensures
        fill_down_cells(left, top, 0, data, max) == Seq::<GlyphCell>::empty(),
    decreases data.len(),
{
    if data.len() > 0 {
        lemma_fill_down_empty(left, top, data.drop_last(), max);
        assert(fill_down_cells(left, top, 0, data, max) =~= Seq::<GlyphCell>::empty());
    }
}

/// The newest `w` samples of a series.
fn last_n(s: &[u64], w: usize) -> (r: &[u64])
    ensures
        r@ == newest(s@, w as nat),
{
    let n = s.len();
    let start = if n > w {
        n - w
    } else {
        0
    };
    let r = vstd::slice::slice_subrange(s, start, n);
    assert(s@.subrange(0, n as int) =~= s@);
    r
}

/// A filled-area graph of one or two series.
pub struct Graph<'a> {
    pub primary: &'a [u64],
    pub secondary: Option<&'a [u64]>,
}

impl<'a> Graph<'a> {
    /// Whether drawing into `area` keeps every computed coordinate in
    /// `u16` (the precondition of [`Graph::cells`]).
    pub fn fits(&self, area: GraphArea) -> (b: bool)
        ensures
            b == graph_fits(
                area,
                self.primary@,
                match self.secondary {
                    Some(s) => Some(s@),
                    None => None,
                },
            ),
    {
        if area.width == 0 || area.height == 0 {
            return true;
        }
        let w = area.width as usize;
        let p = last_n(self.primary, w);
        if area.x as u64 + p.len() as u64 > 0x1_0000 {
            return false;
        }
        match self.secondary {
            None => true,
            Some(sec) => {
                let s = last_n(sec, w);
                if area.x as u64 + s.len() as u64 > 0x1_0000 {
                    return false;
                }
                let pm = peak_exec(p);
                let sm = peak_exec(s);
                let m = if pm > sm {
                    pm
                } else {
                    sm
                };
                let max = if m > 1 {
                    m
                } else {
                    1
                };
                proof {
                    assert forall|i: int| 0 <= i < s@.len() implies s@[i] <= max by {
                        lemma_peak_bound(s@, i);
                    }
                }
                let h = (area.height as u32 * 11 / 20) as u16;
                let up_h = if h > 1 {
                    h
                } else {
                    1
                };
                let baseline: u64 = area.y as u64 + up_h as u64;
                if baseline > 0xFFFF {
                    return false;
                }
                let down_h = area.height - up_h;
                let halves: u64 = down_h as u64 * 2;
                let ghost dh = (area.height - up_rows(area.height)) as nat;
                let ghost gmax = graph_scale(newest(self.primary@, w as nat), newest(sec@, w as nat));
                let n = s.len();
                let mut i: usize = 0;
                while i < n
                    invariant
                        n == s@.len(),
                        i <= n,
                        halves == dh * 2,
                        down_h == dh,
                        max == gmax,
                        max >= 1,
                        baseline <= 0xFFFF,
                        baseline == area.y + up_rows(area.height),
                        s@ == newest(sec@, w as nat),
                        w == area.width,
                        area.width > 0,
                        area.height > 0,
                        self.secondary == Some(sec),
                        gmax == graph_scale(newest(self.primary@, w as nat), newest(sec@, w as nat)),
                        dh == (area.height - up_rows(area.height)) as nat,
                        forall|j: int| 0 <= j < s@.len() ==> s@[j] <= max,
                        forall|j: int|
                            0 <= j < i ==> baseline + column_down(0, 0, dh, filled(s@[j], dh * 2, max as nat)).len()
                                <= 0x1_0000,
                    decreases n - i,
                {
                    let v = s[i];
                    assert(((v as int) * (halves as int)) / (max as int) <= halves) by (nonlinear_arith)
                        requires
                            v <= max,
                            max >= 1,
                    ;
                    assert((v as int) * (halves as int) <= 0xFFFF_FFFF_FFFF_FFFF * 0x2_0000) by (nonlinear_arith)
                        requires
                            v <= 0xFFFF_FFFF_FFFF_FFFFu64,
                            halves <= 0x2_0000,
                    ;
                    let f = (v as u128 * halves as u128 / max as u128) as u64;
                    let k: u64 = if (f + 1) / 2 < down_h as u64 {
                        (f + 1) / 2
                    } else {
                        down_h as u64
                    };
                    assert(k == column_down(0, 0, dh, filled(s@[i as int], dh * 2, max as nat)).len());
                    if baseline + k > 0x1_0000 {
                        assert(!(area.y + up_rows(area.height) + column_down(
                            0,
                            0,
                            dh,
                            filled(s@[i as int], dh * 2, gmax),
                        ).len() <= 0x1_0000));
                        assert(!graph_fits(area, self.primary@, Some(sec@)));
                        return false;
                    }
                    i = i + 1;
                }
                true
            },
        }
    }

    /// The glyph cells that draw the graph into `area`, in drawing order:
    /// the upward series column by column, then the downward one.
    pub fn cells(&self, area: GraphArea) -> (out: Vec<GlyphCell>)
        requires
            graph_fits(
                area,
                self.primary@,
                match self.secondary {
                    Some(s) => Some(s@),
                    None => None,
                },
            ),
        ensures
            out@ == graph_cells_spec(
                area,
                self.primary@,
                match self.secondary {
                    Some(s) => Some(s@),
                    None => None,
                },
            ),
    {
        let mut out: Vec<GlyphCell> = Vec::new();
        if area.width == 0 || area.height == 0 {
            return out;
        }
        let w = area.width as usize;
        let p = last_n(self.primary, w);
        let pm = peak_exec(p);
        let left = area.x;
        match self.secondary {
            None => {
                let max = if pm > 1 {
                    pm
                } else {
                    1
                };
                proof {
                    assert forall|i: int| 0 <= i < p@.len() implies p@[i] <= max by {
                        lemma_peak_bound(p@, i);
                    }
                }
                let bottom = area.y.saturating_add(area.height);
                fill_up(&mut out, left, bottom, area.height, p, max);
                assert(out@ =~= graph_cells_spec(area, self.primary@, None));
            },
            Some(sec) => {
                let s = last_n(sec, w);
                let sm = peak_exec(s);
                let m = if pm > sm {
                    pm
                } else {
                    sm
                };
                let max = if m > 1 {
                    m
                } else {
                    1
                };
                proof {
                    assert forall|i: int| 0 <= i < p@.len() implies p@[i] <= max by {
                        lemma_peak_bound(p@, i);
                    }
                    assert forall|i: int| 0 <= i < s@.len() implies s@[i] <= max by {
                        lemma_peak_bound(s@, i);
                    }
                }
                let h = (area.height as u32 * 11 / 20) as u16;
                let up_h = if h > 1 {
                    h
                } else {
                    1
                };
                let baseline = area.y + up_h;
                let down_h = area.height - up_h;
                fill_up(&mut out, left, baseline, up_h, p, max);
                fill_down(&mut out, left, baseline, down_h, s, max);
                assert(out@ =~= graph_cells_spec(area, self.primary@, Some(sec@)));
            },
        }
        out
    }
}

proof fn lemma_fill_up_bounds(left: int, bottom: int, rows: nat, data: Seq<u64>, max: nat)
    requires
        0 <= left,
        left + data.len() <= 0x1_0000,
        rows <= bottom <= u16::MAX,
    ensures
        forall|k: int|
            0 <= k < fill_up_cells(left, bottom, rows, data, max).len() ==> {
                let c = #[trigger] fill_up_cells(left, bottom, rows, data, max)[k];
                &&& left <= c.x < left + data.len()
                &&& bottom - rows <= c.y < bottom
                &&& !c.down
            },
    decreases data.len(),
{
    if data.len() > 0 {
        lemma_fill_up_bounds(left, bottom, rows, data.drop_last(), max);
        let prev = fill_up_cells(left, bottom, rows, data.drop_last(), max);
        let col = column_up(left + data.len() - 1, bottom, rows, filled(data.last(), rows * 8, max));
        assert(fill_up_cells(left, bottom, rows, data, max) == prev + col);
        assert forall|k: int| 0 <= k < (prev + col).len() implies {
            let c = #[trigger] (prev + col)[k];
            &&& left <= c.x < left + data.len()
            &&& bottom - rows <= c.y < bottom
            &&& !c.down
        } by {
            if k >= prev.len() {
                let r = k - prev.len();
                assert((prev + col)[k] == col[r]);
            } else {
                assert((prev + col)[k] == prev[k]);
            }
        }
    }
}

proof fn lemma_fill_down_bounds(left: int, top: int, rows: nat, data: Seq<u64>, max: nat)
    requires
        0 <= left,
        0 <= top,
        left + data.len() <= 0x1_0000,
        forall|i: int|
            0 <= i < data.len() ==> top + column_down(0, 0, rows, filled(data[i], rows * 2, max)).len()
                <= 0x1_0000,
    ensures
        forall|k: int|
            0 <= k < fill_down_cells(left, top, rows, data, max).len() ==> {
                let c = #[trigger] fill_down_cells(left, top, rows, data, max)[k];
                &&& left <= c.x < left + data.len()
                &&& top <= c.y < top + rows
                &&& c.down
            },
    decreases data.len(),
{
    if data.len() > 0 {
        let d0 = data.drop_last();
        assert forall|i: int| 0 <= i < d0.len() implies top + column_down(0, 0, rows, filled(d0[i], rows * 2, max)).len()
            <= 0x1_0000 by {
            assert(d0[i] == data[i]);
        }
        lemma_fill_down_bounds(left, top, rows, d0, max);
        let prev = fill_down_cells(left, top, rows, d0, max);
        let f = filled(data.last(), rows * 2, max);
        let col = column_down(left + data.len() - 1, top, rows, f);
        assert(col.len() == column_down(0, 0, rows, filled(data[data.len() - 1], rows * 2, max)).len());
        assert(fill_down_cells(left, top, rows, data, max) == prev + col);
        assert forall|k: int| 0 <= k < (prev + col).len() implies {
            let c = #[trigger] (prev + col)[k];
            &&& left <= c.x < left + data.len()
            &&& top <= c.y < top + rows
            &&& c.down
        } by {
            if k >= prev.len() {
                let r = k - prev.len();
                assert((prev + col)[k] == col[r]);
            } else {
                assert((prev + col)[k] == prev[k]);
            }
        }
    }
}

/// A dual graph mirrors its two series about a baseline without overlap:
/// every cell lies in the area's columns, the upward series' cells above
/// the baseline, the downward series' cells on or below it, inside the
/// area.
pub proof fn lemma_dual_graph_halves(area: GraphArea, primary: Seq<u64>, secondary: Seq<u64>)
    requires
        graph_fits(area, primary, Some(secondary)),
        area.width > 0,
        area.height > 0,
    ensures
        forall|k: int|
            0 <= k < graph_cells_spec(area, primary, Some(secondary)).len() ==> {
                let c = #[trigger] graph_cells_spec(area, primary, Some(secondary))[k];
                let baseline = area.y + up_rows(area.height);
                &&& area.x <= c.x < area.x + area.width
                &&& !c.down ==> area.y <= c.y < baseline
                &&& c.down ==> baseline <= c.y < area.y + area.height
            },
{
    let w = area.width as nat;
    let p = newest(primary, w);
    let s = newest(secondary, w);
    let max = graph_scale(p, s);
    let up_h = up_rows(area.height);
    let baseline = area.y + up_h;
    let down_h = (area.height - up_h) as nat;
    lemma_fill_up_bounds(area.x as int, baseline, up_h, p, max);
    lemma_fill_down_bounds(area.x as int, baseline, down_h, s, max);
    let ups = fill_up_cells(area.x as int, baseline, up_h, p, max);
    let downs = fill_down_cells(area.x as int, baseline, down_h, s, max);
    assert(graph_cells_spec(area, primary, Some(secondary)) == ups + downs);
    assert forall|k: int| 0 <= k < (ups + downs).len() implies {
        let c = #[trigger] (ups + downs)[k];
        &&& area.x <= c.x < area.x + area.width
        &&& !c.down ==> area.y <= c.y < baseline
        &&& c.down ==> baseline <= c.y < area.y + area.height
    } by {
        if k < ups.len() {
            assert((ups + downs)[k] == ups[k]);
        } else {
            assert((ups + downs)[k] == downs[k - ups.len()]);
        }
    }
}

/// Any area that lies on a `u16` screen (as terminal rectangles do) can be
/// drawn, whatever the series.
pub proof fn lemma_screen_area_fits(area: GraphArea, primary: Seq<u64>, secondary: Option<Seq<u64>>)
    requires
        area.x + area.width <= u16::MAX,
        area.y + area.height <= u16::MAX,
    ensures
        graph_fits(area, primary, secondary),
{
    if area.width > 0 && area.height > 0 {
        if let Some(sec) = secondary {
            let w = area.width as nat;
            let p = newest(primary, w);
            let s = newest(sec, w);
            let max = graph_scale(p, s);
            let down_h = (area.height - up_rows(area.height)) as nat;
            assert forall|i: int| 0 <= i < s.len() implies area.y + up_rows(area.height) + column_down(
                0,
                0,
                down_h,
                filled(s[i], down_h * 2, max),
            ).len() <= 0x1_0000 by {}
        }
    }
}

} // verus!
