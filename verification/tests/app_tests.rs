use sys_monitor::app::{ActionMenu, App, KillRequest, MetricSample, SortKey, Tab};
use sys_monitor::procs::{matches_query, order_rows, sort_rows, ProcRow};

fn app_with(rows: &[(u32, &str, f32, u64)]) -> App {
    let mut app = App::new();
    app.procs = rows
        .iter()
        .map(|&(pid, name, cpu, mem)| ProcRow { pid, name: name.into(), cpu: cpu.to_bits(), mem })
        .collect();
    app
}

fn pids(app: &App) -> Vec<u32> {
    app.procs.iter().map(|p| p.pid).collect()
}

#[test]
fn cycle_sort_orders_by_cpu_desc() {
    let mut app = app_with(&[(1, "a", 5.0, 10), (2, "b", 90.0, 10), (3, "c", 40.0, 10)]);
    app.sort_procs(); // default Pid asc
    assert_eq!(app.procs.iter().map(|p| p.pid).collect::<Vec<_>>(), [1, 2, 3]);

    app.cycle_sort(); // Pid -> Cpu (desc)
    assert_eq!(app.sort_key, SortKey::Cpu);
    assert!(app.sort_desc);
    assert_eq!(app.procs.iter().map(|p| p.pid).collect::<Vec<_>>(), [2, 3, 1]);
}

#[test]
fn toggle_dir_reverses() {
    let mut app = app_with(&[(1, "a", 5.0, 10), (2, "b", 90.0, 10)]);
    app.sort_key = SortKey::Cpu;
    app.sort_desc = true;
    app.sort_procs();
    assert_eq!(app.procs[0].pid, 2);
    app.toggle_sort_dir();
    assert!(!app.sort_desc);
    assert_eq!(app.procs[0].pid, 1);
}

#[test]
fn selection_follows_pid_after_sort() {
    let mut app = app_with(&[(1, "a", 5.0, 10), (2, "b", 90.0, 10), (3, "c", 40.0, 10)]);
    app.sort_procs();
    app.proc_selected = 2; // pid 3
    app.cycle_sort(); // now Cpu desc => [2,3,1]; pid 3 is at index 1
    assert_eq!(app.selected_proc().map(|(p, _)| p), Some(3));
}

#[test]
fn next_wraps() {
    assert_eq!(
        Tab::ALL[(Tab::Processes.index() + 1) % Tab::ALL.len()],
        Tab::Overview
    );
}

#[test]
fn prev_wraps() {
    assert_eq!(
        Tab::ALL[(Tab::Overview.index() + Tab::ALL.len() - 1) % Tab::ALL.len()],
        Tab::Processes
    );
}

#[test]
fn titles_present() {
    for t in Tab::ALL {
        assert!(!t.title().is_empty());
    }
}

#[test]
fn sort_key_cycle_and_directions() {
    let mut k = SortKey::Pid;
    let mut seen = vec![];
    for _ in 0..4 {
        seen.push(k);
        k = k.next();
    }
    assert_eq!(seen, [SortKey::Pid, SortKey::Cpu, SortKey::Mem, SortKey::Name]);
    assert_eq!(k, SortKey::Pid);
    assert!(SortKey::Cpu.default_desc());
    assert!(SortKey::Mem.default_desc());
    assert!(!SortKey::Pid.default_desc());
    assert!(!SortKey::Name.default_desc());
}

#[test]
fn tab_navigation() {
    let mut app = App::new();
    assert_eq!(app.tab, Tab::Overview);
    app.next_tab();
    assert_eq!(app.tab, Tab::Processes);
    app.next_tab();
    assert_eq!(app.tab, Tab::Overview);
    app.prev_tab();
    assert_eq!(app.tab, Tab::Processes);
    app.select(1);
    assert_eq!(app.tab, Tab::Overview);
    app.select(2);
    assert_eq!(app.tab, Tab::Processes);
    app.select(0);
    app.select(3);
    assert_eq!(app.tab, Tab::Processes);
    assert_eq!(Tab::Overview.title(), "Overview");
    assert_eq!(Tab::Processes.title(), "Processes");
    assert_eq!(Tab::Processes.index(), 1);
}

/// The comparator the table is sorted by, on floats, as a reference.
fn reference_sort(rows: &[ProcRow], key: SortKey, desc: bool) -> Vec<u32> {
    let mut v: Vec<&ProcRow> = rows.iter().collect();
    v.sort_by(|a, b| {
        let ord = match key {
            SortKey::Pid => a.pid.cmp(&b.pid),
            SortKey::Name => a.name.to_lowercase().cmp(&b.name.to_lowercase()),
            SortKey::Cpu => f32::from_bits(a.cpu).total_cmp(&f32::from_bits(b.cpu)),
            SortKey::Mem => a.mem.cmp(&b.mem),
        };
        let ord = if desc { ord.reverse() } else { ord };
        ord.then(a.pid.cmp(&b.pid))
    });
    v.iter().map(|p| p.pid).collect()
}

#[test]
fn sort_matches_reference_comparator() {
    let names = ["Safari", "safari", "kernel_task", "Éclair", "éclair", "zsh", "Zsh", "", "bash", "ßeta"];
    let cpus = [0.0f32, -0.0, 5.5, 90.0, 40.0, f32::NAN, -f32::NAN, f32::INFINITY, 15.0, 5.5];
    let mut rows = vec![];
    let mut x: u32 = 12345;
    for i in 0..60u32 {
        x = x.wrapping_mul(1_103_515_245).wrapping_add(12345);
        rows.push(ProcRow {
            pid: (x >> 8) % 40,
            name: names[(x as usize >> 4) % names.len()].to_string(),
            cpu: cpus[(x as usize >> 12) % cpus.len()].to_bits(),
            mem: ((x >> 3) % 5) as u64 * 1000 + i as u64 % 2,
        });
    }
    for key in [SortKey::Pid, SortKey::Name, SortKey::Cpu, SortKey::Mem] {
        for desc in [false, true] {
            let out = sort_rows(&rows, key, desc);
            let got: Vec<u32> = out.iter().map(|p| p.pid).collect();
            assert_eq!(got, reference_sort(&rows, key, desc), "{key:?} desc={desc}");
            // Stable: equal keys keep their arrival order (compare whole rows).
            let mut idx: Vec<usize> = (0..rows.len()).collect();
            idx.sort_by(|&a, &b| {
                let (a, b) = (&rows[a], &rows[b]);
                let ord = match key {
                    SortKey::Pid => a.pid.cmp(&b.pid),
                    SortKey::Name => a.name.to_lowercase().cmp(&b.name.to_lowercase()),
                    SortKey::Cpu => f32::from_bits(a.cpu).total_cmp(&f32::from_bits(b.cpu)),
                    SortKey::Mem => a.mem.cmp(&b.mem),
                };
                let ord = if desc { ord.reverse() } else { ord };
                ord.then(a.pid.cmp(&b.pid))
            });
            for (k, &i) in idx.iter().enumerate() {
                assert_eq!(out[k].name, rows[i].name);
                assert_eq!(out[k].cpu, rows[i].cpu);
                assert_eq!(out[k].mem, rows[i].mem);
            }
        }
    }
}

#[test]
fn sort_does_not_jitter_with_distinct_pids() {
    let rows = vec![
        ProcRow { pid: 9, name: "b".into(), cpu: 1.0f32.to_bits(), mem: 5 },
        ProcRow { pid: 3, name: "B".into(), cpu: 1.0f32.to_bits(), mem: 5 },
        ProcRow { pid: 7, name: "a".into(), cpu: 2.0f32.to_bits(), mem: 5 },
    ];
    let mut reversed = rows.clone();
    reversed.reverse();
    for key in [SortKey::Pid, SortKey::Name, SortKey::Cpu, SortKey::Mem] {
        for desc in [false, true] {
            let a: Vec<u32> = sort_rows(&rows, key, desc).iter().map(|p| p.pid).collect();
            let b: Vec<u32> = sort_rows(&reversed, key, desc).iter().map(|p| p.pid).collect();
            assert_eq!(a, b);
        }
    }
    let by_name: Vec<u32> = sort_rows(&rows, SortKey::Name, false).iter().map(|p| p.pid).collect();
    assert_eq!(by_name, [7, 3, 9]);
}

#[test]
fn search_filters_by_name_and_pid() {
    let mut app = App::new();
    app.tab = Tab::Processes;
    app.procs = vec![
        ProcRow { pid: 501, name: "WindowServer".into(), cpu: 1.0f32.to_bits(), mem: 1_000 },
        ProcRow { pid: 88, name: "kernel_task".into(), cpu: 1.0f32.to_bits(), mem: 1_000 },
        ProcRow { pid: 777, name: "Safari".into(), cpu: 1.0f32.to_bits(), mem: 1_000 },
    ];

    // Name match (case-insensitive).
    app.search = "saf".into();
    assert_eq!(app.filtered_procs().len(), 1);
    assert_eq!(app.filtered_procs()[0].name, "Safari");

    // PID match.
    app.search = "88".into();
    assert_eq!(app.filtered_procs().len(), 1);
    assert_eq!(app.filtered_procs()[0].pid, 88);

    // Empty = all.
    app.search.clear();
    assert_eq!(app.filtered_procs().len(), 3);

    // Search box is shown when active, and only the match is listed.
    app.search = "saf".into();
    app.searching = true;
    assert!(sys_monitor::ui::search_bar_shown(app.searching, &app.search));
    let shown: Vec<&str> = app.filtered_procs().iter().map(|p| p.name.as_str()).collect();
    assert!(shown.contains(&"Safari") && !shown.contains(&"kernel_task"));
}

#[test]
fn search_is_case_insensitive_both_ways() {
    let mut app = app_with(&[(1, "safari", 0.0, 1), (2, "ÉCOLE", 0.0, 1), (305, "x", 0.0, 1)]);
    app.search = "SAF".into();
    let r: Vec<u32> = app.filtered_procs().iter().map(|p| p.pid).collect();
    assert_eq!(r, [1]);
    app.search = "éco".into();
    let r: Vec<u32> = app.filtered_procs().iter().map(|p| p.pid).collect();
    assert_eq!(r, [2]);
    app.search = "30".into();
    let r: Vec<u32> = app.filtered_procs().iter().map(|p| p.pid).collect();
    assert_eq!(r, [305]);
    // PIDs match by prefix only.
    app.search = "05".into();
    assert!(app.filtered_procs().is_empty());
    app.search = "zzz".into();
    assert!(app.filtered_procs().is_empty());
}

#[test]
fn move_selection_clamps() {
    let mut app = app_with(&[(1, "a", 0.0, 1), (2, "b", 0.0, 1), (3, "c", 0.0, 1)]);
    app.move_selection(1);
    assert_eq!(app.proc_selected, 1);
    app.move_selection(10);
    assert_eq!(app.proc_selected, 2);
    app.move_selection(-10);
    assert_eq!(app.proc_selected, 0);
    app.select_last();
    assert_eq!(app.proc_selected, 2);
    app.select_first();
    assert_eq!(app.proc_selected, 0);
    app.search = "b".into();
    app.select_last();
    assert_eq!(app.proc_selected, 0);
    app.move_selection(5);
    assert_eq!(app.proc_selected, 0);
    assert_eq!(app.selected_proc(), Some((2, "b".to_string())));
}

#[test]
fn menu_flow() {
    let mut app = app_with(&[(10, "a", 0.0, 1), (20, "b", 0.0, 1)]);
    app.proc_selected = 1;
    app.open_menu();
    assert_eq!(app.menu.as_ref().map(|m| (m.pid, m.name.clone(), m.selected)), Some((20, "b".to_string(), 0)));
    app.menu_move(1);
    assert_eq!(app.menu.as_ref().unwrap().selected, 1);
    app.menu_move(5);
    assert_eq!(app.menu.as_ref().unwrap().selected, 2);
    assert_eq!(ActionMenu::ITEMS[2], "Cancel");
    assert_eq!(app.menu_confirm(), None);
    assert!(app.menu.is_none());
    app.open_menu();
    app.menu_move(1);
    assert_eq!(app.menu_confirm(), Some(KillRequest { pid: 20, hard: true }));
    app.open_menu();
    assert_eq!(app.menu_confirm(), Some(KillRequest { pid: 20, hard: false }));
    app.open_menu();
    app.close_menu();
    assert!(app.menu.is_none());
    assert_eq!(app.menu_confirm(), None);
    // No row under the cursor: no menu.
    app.proc_selected = 7;
    app.open_menu();
    assert!(app.menu.is_none());
}

#[test]
fn refresh_keeps_cursor_on_process() {
    let mut app = app_with(&[(1, "a", 0.0, 1), (2, "b", 0.0, 1), (3, "c", 0.0, 1)]);
    app.proc_selected = 2;
    let fresh = vec![
        ProcRow { pid: 3, name: "c".into(), cpu: 0, mem: 1 },
        ProcRow { pid: 0, name: "z".into(), cpu: 0, mem: 1 },
        ProcRow { pid: 1, name: "a".into(), cpu: 0, mem: 1 },
    ];
    app.refresh_procs(fresh);
    assert_eq!(pids(&app), [0, 1, 3]);
    assert_eq!(app.proc_selected, 2);
    // The selected process is gone: the index is clamped.
    app.refresh_procs(vec![ProcRow { pid: 5, name: "e".into(), cpu: 0, mem: 1 }]);
    assert_eq!(app.proc_selected, 0);
}

fn samples(v: u64) -> [MetricSample; 4] {
    [0, 1, 2, 3].map(|k| MetricSample { value: v + k, headline: format!("m{k} {v}") })
}

#[test]
fn tick_is_a_no_op_while_paused() {
    let mut app = app_with(&[(1, "a", 0.0, 1)]);
    app.toggle_pause();
    assert!(app.paused);
    let [a, b, c, d] = samples(10);
    app.tick(a, b, c, d, vec![]);
    assert_eq!(pids(&app), [1]);
    assert!(app.metrics.iter().all(|m| m.primary().is_empty()));
    app.toggle_pause();
    let [a, b, c, d] = samples(10);
    app.tick(a, b, c, d, vec![ProcRow { pid: 4, name: "d".into(), cpu: 0, mem: 1 }]);
    assert_eq!(pids(&app), [4]);
}

#[test]
fn tick_pushes_one_sample_into_every_metric() {
    let mut app = App::new();
    for v in [10u64, 20, 30] {
        let [a, b, c, d] = samples(v);
        app.tick(a, b, c, d, vec![]);
    }
    for (k, m) in app.metrics.iter().enumerate() {
        let k = k as u64;
        assert_eq!(m.primary(), vec![10 + k, 20 + k, 30 + k]);
        assert_eq!(m.title, format!("m{k} 30"));
        assert!(m.secondary().is_empty());
        assert!(!m.dual);
    }
}

#[test]
fn cancel_search_clears_filter() {
    let mut app = app_with(&[(1, "a", 0.0, 1)]);
    app.search = "q".into();
    app.searching = true;
    app.proc_selected = 3;
    app.cancel_search();
    assert!(app.search.is_empty());
    assert!(!app.searching);
    assert_eq!(app.proc_selected, 0);
    app.toggle_help();
    assert!(app.show_help);
    app.toggle_help();
    assert!(!app.show_help);
}

#[test]
fn pid_search_is_a_prefix_match() {
    let mut app = app_with(&[(501, "WindowServer", 0.0, 1), (88, "kernel_task", 0.0, 1)]);
    app.search = "01".into();
    assert!(app.filtered_procs().is_empty());
    app.search = "50".into();
    let r: Vec<u32> = app.filtered_procs().iter().map(|p| p.pid).collect();
    assert_eq!(r, [501]);
    app.search = "501".into();
    assert_eq!(app.filtered_procs().len(), 1);
    app.search = "5011".into();
    assert!(app.filtered_procs().is_empty());
}

fn chars(s: &str) -> Vec<char> {
    s.chars().collect()
}

#[test]
fn matching_on_lowered_text() {
    assert!(matches_query(&chars("safari"), 777, &chars("fari")));
    assert!(matches_query(&chars("safari"), 777, &chars("77")));
    assert!(!matches_query(&chars("safari"), 777, &chars("SAF")));
    assert!(!matches_query(&chars("safari"), 1777, &chars("77")));
    assert!(matches_query(&chars("x"), 12, &chars("")));
}

#[test]
fn ordering_on_lowered_names() {
    let a = ProcRow { pid: 2, name: "Zeta".into(), cpu: 0, mem: 5 };
    let b = ProcRow { pid: 1, name: "alpha".into(), cpu: 0, mem: 5 };
    // Only the given lowered names decide the name column.
    assert_eq!(order_rows(SortKey::Name, false, &a, &b, &chars("zeta"), &chars("alpha")), 1);
    assert_eq!(order_rows(SortKey::Name, true, &a, &b, &chars("zeta"), &chars("alpha")), -1);
    assert_eq!(order_rows(SortKey::Name, false, &a, &b, &chars("ab"), &chars("ab")), 1);
    assert_eq!(order_rows(SortKey::Name, false, &a, &b, &chars("a"), &chars("ab")), -1);
    // Ties in the column fall back to PID ascending, whatever the direction.
    assert_eq!(order_rows(SortKey::Mem, true, &a, &b, &vec![], &vec![]), 1);
    assert_eq!(order_rows(SortKey::Pid, true, &a, &b, &vec![], &vec![]), -1);
    assert_eq!(order_rows(SortKey::Pid, false, &a, &a, &vec![], &vec![]), 0);
}
