use sys_monitor::app::App;
use sys_monitor::metric::Metric;
use sys_monitor::procs::ProcRow;
use sys_monitor::ui::{
    cpu_heat, header_title, headline_key, line_series, mini_accent, mini_graph, mini_title,
    pressure_color,
    stat_value, table_title, table_window, Accent, MiniGraph,
};

#[test]
fn pressure_color_thresholds() {
    assert_eq!(pressure_color(40), Accent::Green);
    assert_eq!(pressure_color(69), Accent::Green);
    assert_eq!(pressure_color(70), Accent::Yellow);
    assert_eq!(pressure_color(84), Accent::Yellow);
    assert_eq!(pressure_color(85), Accent::Red);
    assert_eq!(pressure_color(100), Accent::Red);
}

fn reference_heat(cpu: f32) -> Accent {
    if cpu >= 50.0 {
        Accent::Red
    } else if cpu >= 15.0 {
        Accent::Yellow
    } else {
        Accent::Gray
    }
}

#[test]
fn cpu_heat_matches_float_thresholds() {
    let vals = [
        0.0f32, -0.0, 14.999, 15.0, 15.001, 49.99, 50.0, 62.4, 100.0, 3.0, -60.0,
        f32::INFINITY, f32::NEG_INFINITY, f32::NAN, -f32::NAN, f32::MAX, f32::MIN_POSITIVE,
    ];
    for v in vals {
        assert_eq!(cpu_heat(v.to_bits()), reference_heat(v), "{v}");
    }
    let mut bits: u32 = 1;
    for _ in 0..100_000 {
        bits = bits.wrapping_mul(2_654_435_761).wrapping_add(7);
        assert_eq!(cpu_heat(bits), reference_heat(f32::from_bits(bits)), "{bits:#x}");
    }
}

#[test]
fn overview_headlines_and_accents() {
    assert_eq!(headline_key(0), "Usage");
    assert_eq!(headline_key(1), "Pressure");
    assert_eq!(headline_key(2), "In/sec");
    assert_eq!(headline_key(3), "Read/sec");
    let stats = vec![
        ("In/sec".to_string(), "x".to_string()),
        ("Usage".to_string(), "12%".to_string()),
        ("Usage".to_string(), "99%".to_string()),
    ];
    assert_eq!(stat_value(&stats, "Usage").map(|s| s.as_str()), Some("12%"));
    assert_eq!(stat_value(&stats, "Pressure"), None);
    assert_eq!(mini_accent(0, Some(99)), Accent::Green);
    assert_eq!(mini_accent(1, Some(99)), Accent::Red);
    assert_eq!(mini_accent(1, Some(75)), Accent::Yellow);
    assert_eq!(mini_accent(1, None), Accent::Green);
    assert_eq!(mini_accent(2, Some(99)), Accent::Blue);
    assert_eq!(mini_accent(3, None), Accent::Blue);
}

#[test]
fn overview_series_feed_lines_and_fills() {
    let mut app = App::new();
    for i in 0..200u64 {
        let cpu = (50.0 + (i as f64 * 0.2).sin() * 40.0) as u64;
        let mem = (60.0 + (i as f64 * 0.15).sin() * 18.0) as u64;
        app.metrics[0].update(cpu, None, "CPU", vec![("Usage".into(), format!("{cpu}%"))]);
        app.metrics[1].update(mem, None, "MEMORY", vec![("Pressure".into(), format!("{mem}%"))]);
        app.metrics[2].update(1000 + i, Some(500 + i), "NETWORK", vec![("In/sec".into(), "x".into())]);
        app.metrics[3].update(800 + i, Some(200 + i), "DISK", vec![("Read/sec".into(), "y".into())]);
    }
    // CPU/Memory become line graphs: the newest width+1 samples.
    let (vals, base) = line_series(&app.metrics[0].primary(), 58);
    assert_eq!(vals.len(), 59);
    assert_eq!(base, 0);
    assert_eq!(*vals.last().unwrap(), *app.metrics[0].primary().last().unwrap());
    // Network/Disk become filled areas.
    let fill = "▁▂▃▄▅▆▇█▀";
    for m in &app.metrics[2..] {
        let p = m.primary();
        let s = m.secondary();
        let g = sys_monitor::graph::Graph { primary: &p, secondary: if m.dual { Some(&s) } else { None } };
        let cells = g.cells(sys_monitor::graph::GraphArea { x: 1, y: 1, width: 58, height: 12 });
        assert!(cells.iter().any(|c| fill.contains(c.glyph)));
    }
    for (m, t) in app.metrics.iter().zip(["CPU", "MEMORY", "NETWORK", "DISK"]) {
        assert_eq!(m.title, t);
    }
}

#[test]
fn process_rows_colours_and_paused_title() {
    assert!(header_title(true).contains("PAUSED"));
    assert!(!header_title(false).contains("PAUSED"));
    assert_eq!(header_title(false), " sys-monitor ");
    let mut app = App::new();
    app.procs = vec![
        ProcRow { pid: 501, name: "WindowServer".into(), cpu: 62.4f32.to_bits(), mem: 1_400_000_000 },
        ProcRow { pid: 88, name: "kernel_task".into(), cpu: 3.0f32.to_bits(), mem: 320_000_000 },
    ];
    assert_eq!(app.filtered_procs()[0].name, "WindowServer");
    assert_eq!(cpu_heat(app.procs[0].cpu), Accent::Red);
    assert_eq!(sys_monitor::ui::bytes(app.procs[0].mem), "1.3 GB");
}

#[test]
fn process_table_window_and_title() {
    let mut app = App::new();
    app.procs = (0..50)
        .map(|i| ProcRow { pid: 100 + i, name: format!("proc-{i}"), cpu: 0, mem: 1_000_000 })
        .collect();
    app.proc_selected = 5;
    // An 80x12 terminal leaves 9 rows below the tab bar.
    let total = app.filtered_procs().len();
    let (start, end) = table_window(app.proc_selected, 9, total);
    assert_eq!((start, end), (5, 11));
    let shown: Vec<String> = app.filtered_procs()[start..end].iter().map(|p| p.name.clone()).collect();
    assert_eq!(shown[0], "proc-5");
    assert!(!shown.contains(&"proc-0".to_string()));
    let title = table_title(start, end, total);
    assert!(title.contains("of 50"));
    assert_eq!(title, "Processes — 6–11 of 50");
}

#[test]
fn table_window_edges() {
    assert_eq!(table_window(0, 2, 10), (0, 0));
    assert_eq!(table_window(100, 10, 10), (9, 10));
    assert_eq!(table_window(3, 10, 0), (0, 0));
    assert_eq!(table_title(0, 0, 0), "Processes — 1–0 of 0");
}

#[test]
fn line_series_pads_while_filling() {
    let (v, base) = line_series(&[5, 6, 7], 10);
    assert_eq!(v, vec![0, 5, 6, 7]);
    assert_eq!(base, 7);
    let (v, base) = line_series(&[], 1);
    assert_eq!(v, vec![0]);
    assert_eq!(base, 1);
    // A history exactly as long as the width still gets its leading 0.
    let (v, base) = line_series(&[10, 20, 30, 40], 4);
    assert_eq!(v, vec![0, 10, 20, 30, 40]);
    assert_eq!(base, 0);
    let (v, base) = line_series(&[], 0);
    assert_eq!(v, vec![0]);
    assert_eq!(base, 1);
    let (v, base) = line_series(&[1, 2, 3, 4, 5], 3);
    assert_eq!(v, vec![2, 3, 4, 5]);
    assert_eq!(base, 0);
    let _ = Metric::new();
}

#[test]
fn overview_graph_kinds() {
    assert_eq!(mini_graph(0, Some(99), true), MiniGraph::Line { color: Accent::Green });
    assert_eq!(mini_graph(1, Some(90), false), MiniGraph::Line { color: Accent::Red });
    assert_eq!(mini_graph(1, None, false), MiniGraph::Line { color: Accent::Green });
    assert_eq!(
        mini_graph(2, Some(5), true),
        MiniGraph::Area { up: Accent::Blue, down: Accent::Red, mirrored: true }
    );
    assert_eq!(
        mini_graph(3, None, false),
        MiniGraph::Area { up: Accent::Blue, down: Accent::Red, mirrored: false }
    );
}

#[test]
fn overview_cell_title() {
    assert_eq!(mini_title("CPU", "12%"), " CPU  12% ");
    assert_eq!(mini_title("MEMORY", ""), " MEMORY   ");
    assert_eq!(mini_title("", ""), "    ");
}
