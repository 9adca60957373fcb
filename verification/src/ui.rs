//! The decisions behind the screens: colours by threshold, which stat heads
//! a graph, the process table's window and title, and the points of the
//! line graphs. Drawing them is left to the caller.
use crate::app::last_index;
use crate::collect::human;
use crate::text::{decimal, human_text, push_char, push_decimal};
use vstd::prelude::*;

verus! {

/// Human-readable bytes for the process table (the same rendering as
/// [`human`]).
pub fn bytes(n: u64) -> (s: String)
    ensures
        s@ == human_text(n as nat),
{
    human(n)
}

/// The colours the screens use.
#[derive(Clone, Copy, PartialEq, Eq, Debug, Structural)]
pub enum Accent {
    Green,
    Yellow,
    Red,
    Blue,
    Gray,
}

/// Memory pressure color, like Activity Monitor: green (fine) → yellow → red.
pub fn pressure_color(used_pct: u64) -> (c: Accent)
    ensures
        c == (if used_pct <= 69 {
            Accent::Green
        } else if used_pct <= 84 {
            Accent::Yellow
        } else {
            Accent::Red
        }),
{
    if used_pct <= 69 {
        Accent::Green
    } else if used_pct <= 84 {
        Accent::Yellow
    } else {
        Accent::Red
    }
}

/// Bit pattern of the `f32` 50.0.
pub const CPU_HOT: u32 = 0x4248_0000;

/// Bit pattern of the `f32` 15.0.
pub const CPU_WARM: u32 = 0x4170_0000;

/// Bit pattern of the `f32` +infinity; larger positive patterns are NaNs.
pub const F32_INFINITY: u32 = 0x7F80_0000;

/// Colour of a CPU percentage in the process table, given as `f32` bits:
/// red from 50 % up, yellow from 15 % up, else gray. A positive, non-NaN
/// `f32` is at least another positive one exactly when its bit pattern is;
/// negative values and NaNs are below every threshold.
pub fn cpu_heat(cpu: u32) -> (c: Accent)
    ensures
        c == (if CPU_HOT <= cpu <= F32_INFINITY {
            Accent::Red
        } else if CPU_WARM <= cpu <= F32_INFINITY {
            Accent::Yellow
        } else {
            Accent::Gray
        }),
{
    if CPU_HOT <= cpu && cpu <= F32_INFINITY {
        Accent::Red
    } else if CPU_WARM <= cpu && cpu <= F32_INFINITY {
        Accent::Yellow
    } else {
        Accent::Gray
    }
}

/// The label of the stat that heads each overview graph:
/// 0 = CPU, 1 = Memory, 2 = Network, others = Disk.
pub fn headline_key(idx: usize) -> (k: &'static str)
    ensures
        k@ == (if idx == 0 {
            "Usage"@
        } else if idx == 1 {
            "Pressure"@
        } else if idx == 2 {
            "In/sec"@
        } else {
            "Read/sec"@
        }),
{
    if idx == 0 {
        "Usage"
    } else if idx == 1 {
        "Pressure"
    } else if idx == 2 {
        "In/sec"
    } else {
        "Read/sec"
    }
}

/// The value of the first stat labelled `key`, if any.
pub fn stat_value<'a>(stats: &'a Vec<(String, String)>, key: &str) -> (v: Option<&'a String>)
    ensures
        match v {
            Some(s) => exists|i: int|
                0 <= i < stats@.len() && (#[trigger] stats@[i]).0@ == key@ && *s == stats@[i].1
                    && forall|j: int| 0 <= j < i ==> (#[trigger] stats@[j]).0@ != key@,
            None => forall|i: int| 0 <= i < stats@.len() ==> (#[trigger] stats@[i]).0@ != key@,
        },
{
    let k = String::from_str(key);
    let n = stats.len();
    let mut i: usize = 0;
    while i < n
        invariant
            n == stats@.len(),
            i <= n,
            k@ == key@,
            forall|j: int| 0 <= j < i ==> (#[trigger] stats@[j]).0@ != key@,
        decreases n - i,
    {
        if stats[i].0 == k {
            return Some(&stats[i].1);
        }
        i = i + 1;
    }
    None
}

/// The accent colour of an overview graph: green for CPU, the pressure
/// colour of the newest sample for Memory (0 when there is none), blue for
/// the others.
pub open spec fn mini_accent_of(idx: usize, newest_sample: Option<u64>) -> Accent {
    if idx == 0 {
        Accent::Green
    } else if idx == 1 {
        let v = match newest_sample {
            Some(v) => v,
            None => 0,
        };
        if v <= 69 {
            Accent::Green
        } else if v <= 84 {
            Accent::Yellow
        } else {
            Accent::Red
        }
    } else {
        Accent::Blue
    }
}

/// The accent colour of an overview graph.
pub fn mini_accent(idx: usize, newest_sample: Option<u64>) -> (c: Accent)
    ensures
        c == mini_accent_of(idx, newest_sample),
{
    if idx == 0 {
        Accent::Green
    } else if idx == 1 {
        let v = match newest_sample {
            Some(v) => v,
            None => 0,
        };
        pressure_color(v)
    } else {
        Accent::Blue
    }
}

/// The title of an overview cell: `" <title>  <head> "`.
pub fn mini_title(title: &str, head: &str) -> (s: String)
    ensures
        s@ == seq![' '] + title@ + seq![' ', ' '] + head@ + seq![' '],
{
    let mut s = String::new();
    push_char(&mut s, ' ');
    s.append(title);
    push_char(&mut s, ' ');
    push_char(&mut s, ' ');
    s.append(head);
    push_char(&mut s, ' ');
    assert(s@ =~= seq![' '] + title@ + seq![' ', ' '] + head@ + seq![' ']);
    s
}

/// The graph inside an overview cell.
#[derive(Clone, Copy, PartialEq, Eq, Debug, Structural)]
pub enum MiniGraph {
    /// A braille line of the primary series, on a 0–100 scale.
    Line { color: Accent },
    /// A filled area of the primary series growing up, mirrored by the
    /// secondary series growing down when `mirrored`.
    Area { up: Accent, down: Accent, mirrored: bool },
}

/// Which graph an overview cell draws: lines for CPU (0) and Memory (1), in
/// their accent colour; filled areas for Network and Disk, blue up and red
/// down, mirrored exactly when the metric is dual.
pub fn mini_graph(idx: usize, newest_sample: Option<u64>, dual: bool) -> (g: MiniGraph)
    ensures
        g == (if idx <= 1 {
            MiniGraph::Line { color: mini_accent_of(idx, newest_sample) }
        } else {
            MiniGraph::Area { up: Accent::Blue, down: Accent::Red, mirrored: dual }
        }),
{
    let accent = mini_accent(idx, newest_sample);
    if idx <= 1 {
        MiniGraph::Line { color: accent }
    } else {
        MiniGraph::Area { up: accent, down: Accent::Red, mirrored: dual }
    }
}

/// Whether the process table reserves a search bar: while typing, or while
/// a filter is set.
pub fn search_bar_shown(searching: bool, search: &String) -> (b: bool)
    ensures
        b == (searching || search@.len() > 0),
{
    searching || search.as_str().unicode_len() > 0
}

/// Rows of the process table that fit: the height less the two borders and
/// the header.
pub open spec fn table_rows(height: u16) -> nat {
    if height >= 3 {
        (height - 3) as nat
    } else {
        0
    }
}

/// First shown row of the process table: the scroll offset, clamped to the
/// last row.
pub open spec fn table_offset(scroll: usize, total: usize) -> nat {
    if scroll <= last_index(total as nat) {
        scroll as nat
    } else {
        last_index(total as nat)
    }
}

/// The process table's window starts at the cursor's row when the cursor is
/// on a row, and then shows that row whenever one row fits; a cursor past
/// the end starts the window at the last row (at the top of an empty
/// table).
pub proof fn lemma_table_window_shows_cursor(scroll: usize, height: u16, total: usize)
    ensures
        scroll < total ==> table_offset(scroll, total) == scroll,
        scroll < total && height >= 4 ==> scroll < table_offset(scroll, total) + table_rows(height),
        scroll >= total ==> table_offset(scroll, total) == (if total == 0 {
            0
        } else {
            total - 1
        }),
{
}

/// The rows `start..end` of the process table that are shown.
pub fn table_window(scroll: usize, height: u16, total: usize) -> (r: (usize, usize))
    requires
        table_offset(scroll, total) + table_rows(height) <= usize::MAX,
    ensures
        r.0 == table_offset(scroll, total),
        r.1 == (if r.0 + table_rows(height) < total {
            r.0 + table_rows(height)
        } else {
            total as int
        }),
        r.0 <= r.1 || total == 0,
        r.1 <= total,
{
    let visible = height.saturating_sub(3) as usize;
    let last = total.saturating_sub(1);
    let offset = if scroll < last {
        scroll
    } else {
        last
    };
    let e = offset + visible;
    let end = if e < total {
        e
    } else {
        total
    };
    (offset, end)
}

/// The title of the process table: `"Processes — <first>–<end> of
/// <total>"`, counting rows from 1.
pub open spec fn table_title_text(offset: nat, end: nat, total: nat) -> Seq<char> {
    let first = if offset + 1 < (if total > 1 {
        total
    } else {
        1
    }) {
        offset + 1
    } else if total > 1 {
        total
    } else {
        1
    };
    "Processes \u{2014} "@ + decimal(first as nat) + seq!['\u{2013}'] + decimal(end) + " of "@ + decimal(
        total,
    )
}

/// The title of the process table.
pub fn table_title(offset: usize, end: usize, total: usize) -> (s: String)
    requires
        offset < usize::MAX,
    ensures
        s@ == table_title_text(offset as nat, end as nat, total as nat),
{
    let cap = if total > 1 {
        total
    } else {
        1
    };
    let first = if offset + 1 < cap {
        offset + 1
    } else {
        cap
    };
    let mut s = String::from_str("Processes \u{2014} ");
    push_decimal(&mut s, first as u128);
    push_char(&mut s, '\u{2013}');
    push_decimal(&mut s, end as u128);
    s.append(" of ");
    push_decimal(&mut s, total as u128);
    assert(s@ =~= table_title_text(offset as nat, end as nat, total as nat));
    s
}

/// The points of a line graph `width` columns wide: the newest `width + 1`
/// samples once there are that many, else every sample after a leading 0
/// so that the line rises from the baseline.
pub open spec fn line_values(data: Seq<u64>, width: u16) -> Seq<u64> {
    if data.len() >= width + 1 {
        data.subrange(data.len() - (width + 1), data.len() as int)
    } else {
        seq![0u64] + data
    }
}

/// The x coordinate of the first point: the line is right-anchored, its
/// newest point at the right edge (at least 1).
pub open spec fn line_base(width: u16, points: nat) -> int {
    (if width > 1 {
        width as int
    } else {
        1
    }) - (points - 1)
}

/// The points of a line graph: (values, x of the first value); the i-th
/// value stands at x = base + i.
pub fn line_series(data: &[u64], width: u16) -> (r: (Vec<u64>, u64))
    ensures
        r.0@ == line_values(data@, width),
        r.1 == line_base(width, r.0@.len()),
{
    let want = width as usize + 1;
    let n = data.len();
    let mut vis: Vec<u64> = Vec::new();
    if n > width as usize {
        let mut i = n - want;
        while i < n
            invariant
                n == data@.len(),
                n >= want,
                want == width + 1,
                n - want <= i <= n,
                vis@ == data@.subrange(n - want, i as int),
            decreases n - i,
        {
            vis.push(data[i]);
            i = i + 1;
            assert(vis@ =~= data@.subrange(n - want, i as int));
        }
    } else {
        vis.push(0);
        let mut i: usize = 0;
        while i < n
            invariant
                n == data@.len(),
                i <= n,
                vis@ == seq![0u64] + data@.subrange(0, i as int),
            decreases n - i,
        {
            vis.push(data[i]);
            i = i + 1;
            assert(vis@ =~= seq![0u64] + data@.subrange(0, i as int));
        }
        assert(data@.subrange(0, n as int) =~= data@);
    }
    let cols: u64 = if width > 1 {
        width as u64
    } else {
        1
    };
    let m = vis.len() as u64;
    (vis, cols - (m - 1))
}

/// The title of the tab bar, marked while sampling is paused.
pub fn header_title(paused: bool) -> (s: &'static str)
    ensures
        s@ == (if paused {
            " sys-monitor  [PAUSED] "@
        } else {
            " sys-monitor "@
        }),
{
    if paused {
        " sys-monitor  [PAUSED] "
    } else {
        " sys-monitor "
    }
}

} // verus!
