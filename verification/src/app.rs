//! Application state: which tab is active, the metrics, processes, flags.
use crate::metric::Metric;
use crate::procs::{
    filter_rows, is_permutation, is_stable_sort, permuted, row_matches, sort_rows, sorted_by,
    visible_rows, ProcRow,
};
use vstd::prelude::*;

verus! {

/// Column the process table is sorted by.
#[derive(Clone, Copy, PartialEq, Eq, Debug, Structural)]
pub enum SortKey {
    Pid,
    Name,
    Cpu,
    Mem,
}

/// The column that follows `k` in the cycle of the `s` key.
pub open spec fn next_key(k: SortKey) -> SortKey {
    match k {
        SortKey::Pid => SortKey::Cpu,
        SortKey::Cpu => SortKey::Mem,
        SortKey::Mem => SortKey::Name,
        SortKey::Name => SortKey::Pid,
    }
}

impl SortKey {
    /// Cycle order for the `s` key.
    pub fn next(self) -> (k: Self)
        ensures
            k == next_key(self),
    {
        match self {
            SortKey::Pid => SortKey::Cpu,
            SortKey::Cpu => SortKey::Mem,
            SortKey::Mem => SortKey::Name,
            SortKey::Name => SortKey::Pid,
        }
    }

    /// Sensible default direction when switching to this column.
    pub fn default_desc(self) -> (d: bool)
        ensures
            d == (self == SortKey::Cpu || self == SortKey::Mem),
    {
        matches!(self, SortKey::Cpu | SortKey::Mem)
    }
}

/// Cycling through the columns visits all four and comes back after four
/// presses.
pub proof fn lemma_sort_key_cycle(k: SortKey)
    ensures
        next_key(next_key(next_key(next_key(k)))) == k,
        next_key(k) != k,
        next_key(next_key(k)) != k,
        next_key(next_key(next_key(k))) != k,
{
}

} // verus!

verus! {

/// Per-process action menu opened by pressing Enter on a row.
pub struct ActionMenu {
    pub pid: u32,
    pub name: String,
    pub selected: usize,
}

impl ActionMenu {
    /// Menu entries, in display order.
    pub const ITEMS: [&'static str; 3] = ["Terminate (SIGTERM)", "Force kill (SIGKILL)", "Cancel"];
}

#[derive(Clone, Copy, PartialEq, Eq, Debug, Structural)]
pub enum Tab {
    /// CPU + Memory + Network + Disk together in a 2×2 grid.
    Overview,
    Processes,
}

/// Position of a tab in the tab bar.
pub open spec fn tab_index(t: Tab) -> nat {
    match t {
        Tab::Overview => 0,
        Tab::Processes => 1,
    }
}

/// The tab at a position of the tab bar.
pub open spec fn tab_at(i: nat) -> Tab {
    if i == 0 {
        Tab::Overview
    } else {
        Tab::Processes
    }
}

impl Tab {
    pub const ALL: [Tab; 2] = [Tab::Overview, Tab::Processes];

    pub fn title(self) -> (s: &'static str)
        ensures
            s@ == (match self {
                Tab::Overview => "Overview"@,
                Tab::Processes => "Processes"@,
            }),
    {
        match self {
            Tab::Overview => "Overview",
            Tab::Processes => "Processes",
        }
    }

    pub fn index(self) -> (i: usize)
        ensures
            i == tab_index(self),
            i < Self::ALL.len(),
            Self::ALL[i as int] == self,
    {
        match self {
            Tab::Overview => 0,
            Tab::Processes => 1,
        }
    }
}

/// A process signal that the action menu asks for: SIGTERM, or SIGKILL
/// when `hard`.
#[derive(Clone, Copy, PartialEq, Eq, Debug, Structural)]
pub struct KillRequest {
    pub pid: u32,
    pub hard: bool,
}

} // verus!

verus! {

/// A selection index moved by `delta` and clamped to `0..=max`.
pub open spec fn clamped(cur: usize, delta: isize, max: int) -> usize {
    let x = (cur as isize) + delta;
    if x < 0 {
        0
    } else if x > max {
        max as usize
    } else {
        x as usize
    }
}

/// `n - 1`, or 0 for an empty list.
pub open spec fn last_index(n: nat) -> nat {
    if n == 0 {
        0
    } else {
        (n - 1) as nat
    }
}

/// Where the cursor lands after the rows changed: on the first visible row
/// with the remembered PID if there is one, else the old index clamped to
/// the visible rows.
pub open spec fn reselected(vis: Seq<ProcRow>, cur: usize, pid: Option<u32>, sel: usize) -> bool {
    if pid is Some && exists|i: int| 0 <= i < vis.len() && #[trigger] vis[i].pid == pid->0 {
        &&& sel < vis.len()
        &&& vis[sel as int].pid == pid->0
        &&& forall|j: int| 0 <= j < sel ==> #[trigger] vis[j].pid != pid->0
    } else {
        sel == (if cur <= last_index(vis.len()) {
            cur as nat
        } else {
            last_index(vis.len())
        })
    }
}

pub struct App {
    pub tab: Tab,
    /// Graph metrics, indexed by Tab order for CPU/Memory/Network/Disk only.
    pub metrics: [Metric; 4],
    pub procs: Vec<ProcRow>,
    /// Selected row index into the *filtered* process list.
    pub proc_selected: usize,
    /// Open action menu for a process (Enter on a row), if any.
    pub menu: Option<ActionMenu>,
    /// Column the process table is sorted by, and the direction.
    pub sort_key: SortKey,
    pub sort_desc: bool,
    /// Process filter query (matches name or PID); empty = no filter.
    pub search: String,
    /// True while typing into the search box.
    pub searching: bool,
    pub paused: bool,
    pub show_help: bool,
    pub should_quit: bool,
}

/// One sample of a metric: the value graphed and the headline shown.
pub struct MetricSample {
    pub value: u64,
    pub headline: String,
}

/// `new` is `old` with one sample pushed.
pub open spec fn pushed(old: Metric, new: Metric, s: MetricSample) -> bool {
    &&& new.primary_seq() == crate::metric::capped_push(old.primary_seq(), s.value)
    &&& new.secondary_seq() == old.secondary_seq()
    &&& new.is_dual() == old.is_dual()
    &&& new.title_seq() == s.headline@
    &&& new.stats_seq() == old.stats_seq()
}

impl App {
    /// Every metric's histories fit in `HISTORY` samples.
    pub open spec fn bounded(&self) -> bool {
        forall|i: int| 0 <= i < 4 ==> (#[trigger] self.metrics[i]).bounded()
    }

    /// Every metric keeps its invariant.
    pub open spec fn wf(&self) -> bool {
        forall|i: int| 0 <= i < 4 ==> (#[trigger] self.metrics[i]).wf()
    }

    /// The rows that the process table shows.
    pub open spec fn visible(&self) -> Seq<ProcRow> {
        visible_rows(self.procs@, self.search@)
    }

    /// PID of the selected row, if the cursor is on a row.
    pub open spec fn selected_pid(&self) -> Option<u32> {
        if self.proc_selected < self.visible().len() {
            Some(self.visible()[self.proc_selected as int].pid)
        } else {
            None
        }
    }

    pub fn new() -> (app: Self)
        ensures
            app.wf(),
            app.tab == Tab::Overview,
            forall|i: int|
                0 <= i < 4 ==> {
                    &&& (#[trigger] app.metrics[i]).wf()
                    &&& app.metrics[i].primary_seq().len() == 0
                    &&& app.metrics[i].secondary_seq().len() == 0
                    &&& !app.metrics[i].is_dual()
                    &&& app.metrics[i].title_seq().len() == 0
                    &&& app.metrics[i].stats_seq().len() == 0
                },
            app.procs@.len() == 0,
            app.proc_selected == 0,
            app.menu is None,
            app.sort_key == SortKey::Pid,
            !app.sort_desc,
            app.search@.len() == 0,
            !app.searching,
            !app.paused,
            !app.show_help,
            !app.should_quit,
    {
        App {
            tab: Tab::Overview,
            metrics: [Metric::new(), Metric::new(), Metric::new(), Metric::new()],
            procs: Vec::new(),
            proc_selected: 0,
            menu: None,
            sort_key: SortKey::Pid,
            sort_desc: false,
            search: String::new(),
            searching: false,
            paused: false,
            show_help: false,
            should_quit: false,
        }
    }

    /// Processes matching the current search (name substring or PID prefix).
    /// Empty query returns all rows.
    pub fn filtered_procs(&self) -> (v: Vec<&ProcRow>)
        ensures
            v@.map_values(|r: &ProcRow| *r) == self.visible(),
    {
        filter_rows(&self.procs, &self.search)
    }

    /// Number of rows currently visible after filtering.
    fn filtered_len(&self) -> (n: usize)
        ensures
            n == self.visible().len(),
    {
        let v = self.filtered_procs();
        assert(v@.map_values(|r: &ProcRow| *r).len() == v@.len());
        v.len()
    }

    /// Move the selected row by `delta`, clamped to the filtered list.
    pub fn move_selection(&mut self, delta: isize)
        requires
            old(self).procs@.len() <= isize::MAX,
            isize::MIN <= (old(self).proc_selected as isize) + delta <= isize::MAX,
        ensures
            *final(self) == (App {
                proc_selected: clamped(
                    old(self).proc_selected,
                    delta,
                    last_index(old(self).visible().len()) as int,
                ),
                ..*old(self)
            }),
    {
        proof {
            lemma_visible_len(self.procs@, self.search@);
        }
        let n = self.filtered_len();
        let max: isize = if n == 0 {
            0
        } else {
            (n - 1) as isize
        };
        let x = (self.proc_selected as isize) + delta;
        self.proc_selected = if x < 0 {
            0
        } else if x > max {
            max as usize
        } else {
            x as usize
        };
    }

    pub fn select_first(&mut self)
        ensures
            *final(self) == (App { proc_selected: 0, ..*old(self) }),
    {
        self.proc_selected = 0;
    }

    pub fn select_last(&mut self)
        ensures
            *final(self) == (App {
                proc_selected: last_index(old(self).visible().len()) as usize,
                ..*old(self)
            }),
    {
        let n = self.filtered_len();
        self.proc_selected = if n == 0 {
            0
        } else {
            n - 1
        };
    }

    /// (pid, name) of the currently selected row, if any.
    pub fn selected_proc(&self) -> (r: Option<(u32, String)>)
        ensures
            r == (if self.proc_selected < self.visible().len() {
                Some(
                    (
                        self.visible()[self.proc_selected as int].pid,
                        self.visible()[self.proc_selected as int].name,
                    ),
                )
            } else {
                None
            }),
    {
        let v = self.filtered_procs();
        assert(v@.map_values(|r: &ProcRow| *r).len() == v@.len());
        if self.proc_selected < v.len() {
            let row = v[self.proc_selected];
            assert(*row == v@.map_values(|r: &ProcRow| *r)[self.proc_selected as int]);
            Some((row.pid, row.name.clone()))
        } else {
            None
        }
    }

    /// PID of the selected row, if any.
    fn selected_pid_exec(&self) -> (r: Option<u32>)
        ensures
            r == self.selected_pid(),
    {
        match self.selected_proc() {
            Some((p, _)) => Some(p),
            None => None,
        }
    }

    /// Open the action menu for the selected process.
    pub fn open_menu(&mut self)
        ensures
            *final(self) == (App {
                menu: if old(self).proc_selected < old(self).visible().len() {
                    Some(
                        ActionMenu {
                            pid: old(self).visible()[old(self).proc_selected as int].pid,
                            name: old(self).visible()[old(self).proc_selected as int].name,
                            selected: 0,
                        },
                    )
                } else {
                    old(self).menu
                },
                ..*old(self)
            }),
    {
        if let Some((pid, name)) = self.selected_proc() {
            self.menu = Some(ActionMenu { pid, name, selected: 0 });
        }
    }

    pub fn close_menu(&mut self)
        ensures
            *final(self) == (App { menu: None, ..*old(self) }),
    {
        self.menu = None;
    }

    /// Move the menu cursor by `delta`, clamped to the entry count.
    pub fn menu_move(&mut self, delta: isize)
        requires
            old(self).menu is Some ==> isize::MIN <= (old(self).menu->0.selected as isize) + delta
                <= isize::MAX,
        ensures
            *final(self) == (App {
                menu: match old(self).menu {
                    Some(m) => Some(ActionMenu { selected: clamped(m.selected, delta, 2), ..m }),
                    None => None,
                },
                ..*old(self)
            }),
    {
        let m = self.menu.take();
        if let Some(mut m) = m {
            let max: isize = 2;
            let x = (m.selected as isize) + delta;
            m.selected = if x < 0 {
                0
            } else if x > max {
                max as usize
            } else {
                x as usize
            };
            self.menu = Some(m);
        }
    }

    /// Close the menu and return the signal its highlighted entry asks for:
    /// 0 = SIGTERM, 1 = SIGKILL, 2 = Cancel (none).
    pub fn menu_confirm(&mut self) -> (req: Option<KillRequest>)
        ensures
            *final(self) == (App { menu: None, ..*old(self) }),
            req == (match old(self).menu {
                Some(m) => if m.selected == 0 {
                    Some(KillRequest { pid: m.pid, hard: false })
                } else if m.selected == 1 {
                    Some(KillRequest { pid: m.pid, hard: true })
                } else {
                    None
                },
                None => None,
            }),
    {
        let m = self.menu.take();
        match m {
            Some(m) => {
                if m.selected == 0 {
                    Some(KillRequest { pid: m.pid, hard: false })
                } else if m.selected == 1 {
                    Some(KillRequest { pid: m.pid, hard: true })
                } else {
                    None
                }
            },
            None => None,
        }
    }

    /// Sort `procs` by the active key/direction, with PID as a stable
    /// tie-break so equal values never jitter between ticks.
    pub fn sort_procs(&mut self)
        ensures
            is_stable_sort(final(self).procs@, old(self).procs@, old(self).sort_key, old(self).sort_desc),
            *final(self) == (App { procs: final(self).procs, ..*old(self) }),
    {
        let sorted = sort_rows(&self.procs, self.sort_key, self.sort_desc);
        self.procs = sorted;
    }

    /// Index of the first visible row with PID `p`, and the number of
    /// visible rows.
    fn find_visible_pid(&self, p: u32) -> (r: (Option<usize>, usize))
        ensures
            r.1 == self.visible().len(),
            match r.0 {
                Some(i) => i < self.visible().len() && self.visible()[i as int].pid == p && forall|j: int|
                    0 <= j < i ==> #[trigger] self.visible()[j].pid != p,
                None => forall|j: int|
                    0 <= j < self.visible().len() ==> #[trigger] self.visible()[j].pid != p,
            },
    {
        let v = self.filtered_procs();
        let ghost vis = self.visible();
        assert(v@.map_values(|r: &ProcRow| *r).len() == v@.len());
        let mut i: usize = 0;
        while i < v.len()
            invariant
                v@.map_values(|r: &ProcRow| *r) == vis,
                vis == self.visible(),
                vis.len() == v@.len(),
                i <= v@.len(),
                forall|j: int| 0 <= j < i ==> #[trigger] vis[j].pid != p,
            decreases v@.len() - i,
        {
            assert(*v@[i as int] == vis[i as int]);
            if v[i].pid == p {
                return (Some(i), v.len());
            }
            i = i + 1;
        }
        (None, v.len())
    }

    /// Move the cursor back to `pid` after a re-sort; clamp if it's gone.
    fn reselect(&mut self, pid: Option<u32>)
        ensures
            reselected(old(self).visible(), old(self).proc_selected, pid, final(self).proc_selected),
            *final(self) == (App { proc_selected: final(self).proc_selected, ..*old(self) }),
    {
        let n = self.filtered_len();
        if let Some(p) = pid {
            let (found, _) = self.find_visible_pid(p);
            if let Some(i) = found {
                self.proc_selected = i;
                return;
            }
        }
        let max = if n == 0 {
            0
        } else {
            n - 1
        };
        if self.proc_selected > max {
            self.proc_selected = max;
        }
    }

    /// Cycle to the next sort column, resetting to its default direction.
    /// The cursor stays on the process it was on.
    pub fn cycle_sort(&mut self)
        ensures
            final(self).sort_key == next_key(old(self).sort_key),
            final(self).sort_desc == (final(self).sort_key == SortKey::Cpu || final(self).sort_key
                == SortKey::Mem),
            is_stable_sort(final(self).procs@, old(self).procs@, final(self).sort_key, final(self).sort_desc),
            reselected(
                visible_rows(final(self).procs@, old(self).search@),
                old(self).proc_selected,
                old(self).selected_pid(),
                final(self).proc_selected,
            ),
            old(self).selected_pid() is Some ==> final(self).selected_pid() == old(self).selected_pid(),
            *final(self) == (App {
                procs: final(self).procs,
                proc_selected: final(self).proc_selected,
                sort_key: final(self).sort_key,
                sort_desc: final(self).sort_desc,
                ..*old(self)
            }),
    {
        let keep = self.selected_pid_exec();
        // Reading the length records that it fits in a usize.
        let _n = self.procs.len();
        self.sort_key = self.sort_key.next();
        self.sort_desc = self.sort_key.default_desc();
        self.sort_procs();
        proof {
            lemma_sort_keeps_selection(old(self).procs@, self.procs@, self.search@, self.sort_key, self.sort_desc, old(self).proc_selected);
        }
        self.reselect(keep);
    }

    /// Flip the current sort direction. The cursor stays on the process it
    /// was on.
    pub fn toggle_sort_dir(&mut self)
        ensures
            final(self).sort_desc == !old(self).sort_desc,
            is_stable_sort(final(self).procs@, old(self).procs@, old(self).sort_key, final(self).sort_desc),
            reselected(
                visible_rows(final(self).procs@, old(self).search@),
                old(self).proc_selected,
                old(self).selected_pid(),
                final(self).proc_selected,
            ),
            old(self).selected_pid() is Some ==> final(self).selected_pid() == old(self).selected_pid(),
            *final(self) == (App {
                procs: final(self).procs,
                proc_selected: final(self).proc_selected,
                sort_desc: final(self).sort_desc,
                ..*old(self)
            }),
    {
        let keep = self.selected_pid_exec();
        // Reading the length records that it fits in a usize.
        let _n = self.procs.len();
        self.sort_desc = !self.sort_desc;
        self.sort_procs();
        proof {
            lemma_sort_keeps_selection(old(self).procs@, self.procs@, self.search@, self.sort_key, self.sort_desc, old(self).proc_selected);
        }
        self.reselect(keep);
    }

    /// Replace the process rows with a fresh sample: sort them and keep the
    /// cursor on the process it was on, if it is still listed.
    pub fn refresh_procs(&mut self, rows: Vec<ProcRow>)
        ensures
            is_stable_sort(final(self).procs@, rows@, old(self).sort_key, old(self).sort_desc),
            reselected(
                visible_rows(final(self).procs@, old(self).search@),
                old(self).proc_selected,
                old(self).selected_pid(),
                final(self).proc_selected,
            ),
            *final(self) == (App {
                procs: final(self).procs,
                proc_selected: final(self).proc_selected,
                ..*old(self)
            }),
    {
        let keep = self.selected_pid_exec();
        self.procs = rows;
        self.sort_procs();
        self.reselect(keep);
    }

    /// Sample everything for this tick (no-op while paused): push one sample
    /// and headline into each of the four metrics (CPU, memory, network,
    /// disk), then take the fresh process rows as `refresh_procs` does.
    pub fn tick(
        &mut self,
        cpu: MetricSample,
        mem: MetricSample,
        net: MetricSample,
        disk: MetricSample,
        rows: Vec<ProcRow>,
    )
        requires
            old(self).bounded(),
        ensures
            final(self).bounded(),
            old(self).wf() ==> final(self).wf(),
            old(self).paused ==> *final(self) == *old(self),
            !old(self).paused ==> {
                &&& pushed(old(self).metrics[0], final(self).metrics[0], cpu)
                &&& pushed(old(self).metrics[1], final(self).metrics[1], mem)
                &&& pushed(old(self).metrics[2], final(self).metrics[2], net)
                &&& pushed(old(self).metrics[3], final(self).metrics[3], disk)
                &&& is_stable_sort(final(self).procs@, rows@, old(self).sort_key, old(self).sort_desc)
                &&& reselected(
                    visible_rows(final(self).procs@, old(self).search@),
                    old(self).proc_selected,
                    old(self).selected_pid(),
                    final(self).proc_selected,
                )
                &&& *final(self) == (App {
                    metrics: final(self).metrics,
                    procs: final(self).procs,
                    proc_selected: final(self).proc_selected,
                    ..*old(self)
                })
            },
    {
        if self.paused {
            return;
        }
        self.metrics[0].push(cpu.value, cpu.headline);
        self.metrics[1].push(mem.value, mem.headline);
        self.metrics[2].push(net.value, net.headline);
        self.metrics[3].push(disk.value, disk.headline);
        self.refresh_procs(rows);
    }

    /// Exit search and drop the filter.
    pub fn cancel_search(&mut self)
        ensures
            final(self).search@.len() == 0,
            *final(self) == (App {
                search: final(self).search,
                searching: false,
                proc_selected: 0,
                ..*old(self)
            }),
    {
        self.search = String::new();
        self.searching = false;
        self.proc_selected = 0;
    }

    pub fn next_tab(&mut self)
        ensures
            *final(self) == (App { tab: tab_at(((tab_index(old(self).tab) + 1) % 2) as nat), ..*old(self) }),
    {
        let i = (self.tab.index() + 1) % Tab::ALL.len();
        self.tab = Tab::ALL[i];
    }

    pub fn prev_tab(&mut self)
        ensures
            *final(self) == (App { tab: tab_at(((tab_index(old(self).tab) + 2 - 1) % 2) as nat), ..*old(self) }),
    {
        let i = (self.tab.index() + Tab::ALL.len() - 1) % Tab::ALL.len();
        self.tab = Tab::ALL[i];
    }

    /// Select by 1-based number; out-of-range is ignored.
    pub fn select(&mut self, n: usize)
        ensures
            *final(self) == (App {
                tab: if 1 <= n <= 2 {
                    tab_at((n - 1) as nat)
                } else {
                    old(self).tab
                },
                ..*old(self)
            }),
    {
        if n >= 1 && n <= Tab::ALL.len() {
            self.tab = Tab::ALL[n - 1];
        }
    }

    pub fn toggle_pause(&mut self)
        ensures
            *final(self) == (App { paused: !old(self).paused, ..*old(self) }),
    {
        self.paused = !self.paused;
    }

    pub fn toggle_help(&mut self)
        ensures
            *final(self) == (App { show_help: !old(self).show_help, ..*old(self) }),
    {
        self.show_help = !self.show_help;
    }
}

/// A stable sort keeps every row, so a row shown under a search is still
/// shown after the sort.
pub proof fn lemma_sort_keeps_visible(
    rows: Seq<ProcRow>,
    sorted: Seq<ProcRow>,
    search: Seq<char>,
    key: SortKey,
    desc: bool,
    r: ProcRow,
)
    requires
        is_stable_sort(sorted, rows, key, desc),
        visible_rows(rows, search).contains(r),
        rows.len() <= usize::MAX,
    ensures
        visible_rows(sorted, search).contains(r),
{
    let p = choose|p: Seq<usize>|
        #[trigger] is_permutation(p, rows.len()) && sorted_by(rows, key, desc, p) && sorted == permuted(rows, p);
    let q = crate::text::lowercase(search);
    let f = |x: ProcRow| row_matches(x, q);
    if search.len() > 0 {
        rows.lemma_filter_contains_rev(f, r);
    }
    assert(rows.contains(r));
    let j = choose|j: int| 0 <= j < rows.len() && rows[j] == r;
    assert(p.contains(j as usize));
    let k = choose|k: int| 0 <= k < p.len() && p[k] == j as usize;
    assert(sorted[k] == r);
    if search.len() > 0 {
        assert(f(r)) by {
            let w = choose|w: int| 0 <= w < rows.filter(f).len() && rows.filter(f)[w] == r;
            rows.lemma_filter_pred(f, w);
        }
        sorted.lemma_filter_contains(f, k);
    }
}

/// After a re-sort the cursor finds the process it was on.
proof fn lemma_sort_keeps_selection(
    rows: Seq<ProcRow>,
    sorted: Seq<ProcRow>,
    search: Seq<char>,
    key: SortKey,
    desc: bool,
    cur: usize,
)
    requires
        is_stable_sort(sorted, rows, key, desc),
        rows.len() <= usize::MAX,
    ensures
        cur < visible_rows(rows, search).len() ==> exists|i: int|
            0 <= i < visible_rows(sorted, search).len() && #[trigger] visible_rows(sorted, search)[i].pid
                == visible_rows(rows, search)[cur as int].pid,
{
    if cur < visible_rows(rows, search).len() {
        let r = visible_rows(rows, search)[cur as int];
        assert(visible_rows(rows, search).contains(r));
        lemma_sort_keeps_visible(rows, sorted, search, key, desc, r);
        let i = choose|i: int| 0 <= i < visible_rows(sorted, search).len() && visible_rows(sorted, search)[i] == r;
        assert(visible_rows(sorted, search)[i].pid == r.pid);
    }
}

proof fn lemma_visible_len(procs: Seq<ProcRow>, search: Seq<char>)
    ensures
        visible_rows(procs, search).len() <= procs.len(),
{
    if search.len() > 0 {
        let q = crate::text::lowercase(search);
        procs.lemma_filter_len(|r: ProcRow| crate::procs::row_matches(r, q));
    }
}

/// Where the cursor lands when the rows change (a refresh, a tick, a new
/// sort): if the process it was on is still listed, on that process (its
/// first listing); if that process is gone, or the cursor was on no row, it
/// keeps its index, pulled back to the last row when the list got shorter,
/// and to the top when the list is empty.
pub proof fn lemma_cursor_after_refresh(vis: Seq<ProcRow>, cur: usize, pid: Option<u32>, sel: usize)
    requires
        reselected(vis, cur, pid, sel),
    ensures
        (pid is None || forall|i: int| 0 <= i < vis.len() ==> #[trigger] vis[i].pid != pid->0)
            ==> sel == (if cur < vis.len() {
            cur as int
        } else if vis.len() == 0 {
            0
        } else {
            vis.len() - 1
        }),
        (pid is Some && exists|i: int| 0 <= i < vis.len() && #[trigger] vis[i].pid == pid->0) ==> {
            &&& sel < vis.len()
            &&& vis[sel as int].pid == pid->0
            &&& forall|j: int| 0 <= j < sel ==> #[trigger] vis[j].pid != pid->0
        },
{
}

/// The tab bar and its positions correspond one to one, and moving to the
/// next tab and then to the previous one comes back to where it started.
pub proof fn lemma_tab_cycle(t: Tab)
    ensures
        tab_index(t) < 2,
        tab_at(tab_index(t)) == t,
        tab_at(((tab_index(tab_at(((tab_index(t) + 1) % 2) as nat)) + 2 - 1) % 2) as nat) == t,
        tab_at(((tab_index(t) + 1) % 2) as nat) != t,
{
}

} // verus!
