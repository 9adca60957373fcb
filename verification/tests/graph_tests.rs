use sys_monitor::graph::{Graph, GraphArea, GlyphCell};

const UP: [char; 9] = [' ', '▁', '▂', '▃', '▄', '▅', '▆', '▇', '█'];
const DOWN: [char; 3] = [' ', '▀', '█'];

/// The drawing loop of a filled-area graph, writing into a list of cells.
fn reference(area: GraphArea, primary: &[u64], secondary: Option<&[u64]>) -> Vec<GlyphCell> {
    let mut out = vec![];
    if area.width == 0 || area.height == 0 {
        return out;
    }
    let w = area.width as usize;
    let last = |s: &[u64]| -> Vec<u64> { s[s.len().saturating_sub(w)..].to_vec() };
    let p = last(primary);
    let s = secondary.map(last);
    let max = p.iter().chain(s.as_deref().unwrap_or(&[]).iter()).copied().max().unwrap_or(0).max(1);
    let fill_up = |out: &mut Vec<GlyphCell>, bottom: u16, rows: u16, data: &[u64]| {
        let cells = rows as u64 * 8;
        for (i, &v) in data.iter().enumerate() {
            let x = area.x + i as u16;
            let filled = (v as u128 * cells as u128 / max as u128) as u64;
            for r in 0..rows {
                let level = filled.saturating_sub(r as u64 * 8).min(8) as usize;
                if level == 0 {
                    continue;
                }
                out.push(GlyphCell { x, y: bottom - 1 - r, glyph: UP[level], down: false });
            }
        }
    };
    let fill_down = |out: &mut Vec<GlyphCell>, top: u16, rows: u16, data: &[u64]| {
        let halves = rows as u64 * 2;
        for (i, &v) in data.iter().enumerate() {
            let x = area.x + i as u16;
            let filled = (v as u128 * halves as u128 / max as u128) as u64;
            for r in 0..rows {
                let level = filled.saturating_sub(r as u64 * 2).min(2) as usize;
                if level == 0 {
                    continue;
                }
                out.push(GlyphCell { x, y: top + r, glyph: DOWN[level], down: true });
            }
        }
    };
    match s {
        None => fill_up(&mut out, area.y.saturating_add(area.height), area.height, &p),
        Some(sec) => {
            let up_h = (area.height as u32 * 11 / 20).max(1) as u16;
            let baseline = area.y + up_h;
            fill_up(&mut out, baseline, up_h, &p);
            fill_down(&mut out, baseline, area.height - up_h, &sec);
        }
    }
    out
}

fn series(seed: u64, n: usize, scale: u64) -> Vec<u64> {
    let mut x = seed;
    (0..n)
        .map(|_| {
            x = x.wrapping_mul(6_364_136_223_846_793_005).wrapping_add(1_442_695_040_888_963_407);
            (x >> 33) % scale
        })
        .collect()
}

#[test]
fn cells_match_the_drawing_loop() {
    for (k, (w, h)) in [(1u16, 1u16), (5, 1), (5, 2), (10, 7), (40, 12), (3, 30), (0, 5), (5, 0)].into_iter().enumerate() {
        for n in [0usize, 1, 4, 39, 80] {
            for scale in [1u64, 9, 1000, u64::MAX] {
                let p = series(k as u64 * 31 + n as u64, n, scale);
                let s = series(k as u64 * 17 + 3, n + 2, scale);
                let area = GraphArea { x: 2, y: 3, width: w, height: h };
                let single = Graph { primary: &p, secondary: None };
                assert_eq!(single.cells(area), reference(area, &p, None));
                let dual = Graph { primary: &p, secondary: Some(&s) };
                assert_eq!(dual.cells(area), reference(area, &p, Some(&s)));
            }
        }
    }
}

#[test]
fn single_series_full_column() {
    let g = Graph { primary: &[4, 2], secondary: None };
    let cells = g.cells(GraphArea { x: 0, y: 0, width: 2, height: 1 });
    assert_eq!(
        cells,
        vec![
            GlyphCell { x: 0, y: 0, glyph: '█', down: false },
            GlyphCell { x: 1, y: 0, glyph: '▄', down: false },
        ]
    );
}

#[test]
fn dual_series_mirror_about_baseline() {
    let g = Graph { primary: &[10], secondary: Some(&[10]) };
    let area = GraphArea { x: 0, y: 0, width: 1, height: 4 };
    let cells = g.cells(area);
    // 4 rows: 2 up, 2 down; the baseline is row 2.
    assert_eq!(
        cells,
        vec![
            GlyphCell { x: 0, y: 1, glyph: '█', down: false },
            GlyphCell { x: 0, y: 0, glyph: '█', down: false },
            GlyphCell { x: 0, y: 2, glyph: '█', down: true },
            GlyphCell { x: 0, y: 3, glyph: '█', down: true },
        ]
    );
    for c in &cells {
        assert!(c.down == (c.y >= 2));
    }
}

#[test]
fn only_the_newest_width_samples_are_drawn() {
    let data: Vec<u64> = (0..100).collect();
    let g = Graph { primary: &data, secondary: None };
    let cells = g.cells(GraphArea { x: 10, y: 0, width: 4, height: 2 });
    assert!(cells.iter().all(|c| (10..14).contains(&c.x)));
    // The scale is the largest visible value: the last column is full.
    assert!(cells.iter().filter(|c| c.x == 13).count() == 2);
}

#[test]
fn fits_on_screen_areas_and_not_past_the_edge() {
    let data = [5u64, 6, 7];
    let g = Graph { primary: &data, secondary: Some(&data) };
    assert!(g.fits(GraphArea { x: 0, y: 0, width: 80, height: 24 }));
    assert!(g.fits(GraphArea { x: 65_533, y: 0, width: 3, height: 24 }));
    assert!(!g.fits(GraphArea { x: 65_534, y: 0, width: 3, height: 24 }));
    assert!(g.fits(GraphArea { x: 0, y: 65_530, width: 3, height: 0 }));
    // The downward series reaches the last row: it must be on screen.
    assert!(!g.fits(GraphArea { x: 0, y: 65_530, width: 3, height: 8 }));
    let single = Graph { primary: &data, secondary: None };
    assert!(single.fits(GraphArea { x: 0, y: 65_530, width: 3, height: 8 }));
}
