use sys_monitor::app::{App, Tab};
use sys_monitor::keys::{decide, handle_key, Action, Key};
use sys_monitor::procs::ProcRow;

fn app3() -> App {
    let mut app = App::new();
    app.procs = (1..=3).map(|i| ProcRow { pid: i, name: format!("p{i}"), cpu: 0, mem: 0 }).collect();
    app
}

#[test]
fn esc_closes_help_before_quitting() {
    let mut app = App::new();
    app.show_help = true;
    handle_key(&mut app, Key::Esc, false);
    assert!(!app.show_help);
    assert!(!app.should_quit);
    handle_key(&mut app, Key::Esc, false);
    assert!(app.should_quit);
}

#[test]
fn quit_keys() {
    let mut app = App::new();
    handle_key(&mut app, Key::Char('c'), false);
    assert!(!app.should_quit);
    handle_key(&mut app, Key::Char('c'), true);
    assert!(app.should_quit);
    let mut app = App::new();
    handle_key(&mut app, Key::Char('q'), false);
    assert!(app.should_quit);
}

#[test]
fn tabs_pause_and_help_keys() {
    let mut app = App::new();
    handle_key(&mut app, Key::Tab, false);
    assert_eq!(app.tab, Tab::Processes);
    handle_key(&mut app, Key::Char('h'), false);
    assert_eq!(app.tab, Tab::Overview);
    handle_key(&mut app, Key::Char('2'), false);
    assert_eq!(app.tab, Tab::Processes);
    handle_key(&mut app, Key::Char('5'), false);
    assert_eq!(app.tab, Tab::Processes);
    handle_key(&mut app, Key::Char('1'), false);
    assert_eq!(app.tab, Tab::Overview);
    handle_key(&mut app, Key::Char(' '), false);
    assert!(app.paused);
    handle_key(&mut app, Key::Char('?'), false);
    assert!(app.show_help);
    handle_key(&mut app, Key::Char('?'), false);
    assert!(!app.show_help);
    assert_eq!(decide(false, false, Tab::Overview, Key::Char('5'), false), Action::SelectTab(5));
    assert_eq!(decide(false, false, Tab::Overview, Key::Other, false), Action::Nothing);
}

#[test]
fn search_only_from_processes_tab() {
    let mut app = app3();
    handle_key(&mut app, Key::Char('/'), false);
    assert!(!app.searching);
    app.tab = Tab::Processes;
    handle_key(&mut app, Key::Char('/'), false);
    assert!(app.searching);
    handle_key(&mut app, Key::Char('q'), false);
    assert!(!app.should_quit);
    handle_key(&mut app, Key::Char('2'), false);
    assert_eq!(app.search, "q2");
    handle_key(&mut app, Key::Backspace, false);
    handle_key(&mut app, Key::Backspace, false);
    assert_eq!(app.search, "");
    handle_key(&mut app, Key::Backspace, false);
    assert_eq!(app.search, "");
    handle_key(&mut app, Key::Char('P'), false);
    handle_key(&mut app, Key::Enter, false);
    assert!(!app.searching);
    assert_eq!(app.search, "P");
    assert_eq!(app.filtered_procs().len(), 3);
    handle_key(&mut app, Key::Char('/'), false);
    handle_key(&mut app, Key::Esc, false);
    assert!(!app.searching);
    assert_eq!(app.search, "");
}

#[test]
fn scrolling_keys_move_the_cursor() {
    let mut app = app3();
    handle_key(&mut app, Key::Down, false);
    assert_eq!(app.proc_selected, 1);
    handle_key(&mut app, Key::Char('j'), false);
    assert_eq!(app.proc_selected, 2);
    handle_key(&mut app, Key::PageDown, false);
    assert_eq!(app.proc_selected, 2);
    handle_key(&mut app, Key::Char('k'), false);
    assert_eq!(app.proc_selected, 1);
    handle_key(&mut app, Key::Home, false);
    assert_eq!(app.proc_selected, 0);
    handle_key(&mut app, Key::PageDown, false);
    handle_key(&mut app, Key::Char('g'), false);
    assert_eq!(app.proc_selected, 0);
    app.searching = true;
    handle_key(&mut app, Key::Down, false);
    assert_eq!(app.proc_selected, 1);
    handle_key(&mut app, Key::Char('x'), false);
    assert_eq!(app.proc_selected, 0);
}
