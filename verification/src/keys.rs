//! What a key press does: the decision as a pure function of the state the
//! handler reads, and its effect on the application state.
use crate::app::{clamped, last_index, tab_at, tab_index, App, Tab};
use crate::text::{pop_char, push_char};
use vstd::prelude::*;

verus! {

/// The keys the monitor reacts to; every other key is `Other`.
#[derive(Clone, Copy, PartialEq, Eq, Debug, Structural)]
pub enum Key {
    Esc,
    Enter,
    Backspace,
    Up,
    Down,
    PageUp,
    PageDown,
    Home,
    Tab,
    BackTab,
    Left,
    Right,
    Char(char),
    Other,
}

/// What a key press asks for.
#[derive(Clone, Copy, PartialEq, Eq, Debug, Structural)]
pub enum Action {
    /// Clear the filter and leave the search box.
    CancelSearch,
    /// Leave the search box, keeping the filter.
    EndSearch,
    /// Delete the last character of the query.
    DeleteChar,
    /// Append a character to the query.
    TypeChar(char),
    /// Move the process cursor by this many rows.
    Scroll(isize),
    /// Put the process cursor on the first row.
    ScrollTop,
    ToggleHelp,
    Quit,
    TogglePause,
    /// Start typing a search query.
    StartSearch,
    NextTab,
    PrevTab,
    /// Jump to the tab with this 1-based number (ignored when out of range).
    SelectTab(usize),
    Nothing,
}

/// The action of a character key outside the search box.
pub open spec fn char_action(c: char, ctrl: bool, tab: Tab) -> Action {
    if c == 'q' {
        Action::Quit
    } else if c == 'c' && ctrl {
        Action::Quit
    } else if c == '?' {
        Action::ToggleHelp
    } else if c == ' ' {
        Action::TogglePause
    } else if c == '/' && tab == Tab::Processes {
        Action::StartSearch
    } else if c == 'l' {
        Action::NextTab
    } else if c == 'h' {
        Action::PrevTab
    } else if '1' <= c <= '5' {
        Action::SelectTab(((c as u32) - 48) as usize)
    } else if c == 'k' {
        Action::Scroll(-1isize)
    } else if c == 'j' {
        Action::Scroll(1isize)
    } else if c == 'g' {
        Action::ScrollTop
    } else {
        Action::Nothing
    }
}

/// What a key press asks for. While typing a query, the keys edit it (the
/// arrow and page keys still scroll); Esc or `?` close the help overlay
/// first; otherwise the keys quit, pause, search, switch tabs and scroll.
pub open spec fn key_action(searching: bool, show_help: bool, tab: Tab, key: Key, ctrl: bool) -> Action {
    if searching {
        match key {
            Key::Esc => Action::CancelSearch,
            Key::Enter => Action::EndSearch,
            Key::Backspace => Action::DeleteChar,
            Key::Up => Action::Scroll(-1isize),
            Key::Down => Action::Scroll(1isize),
            Key::PageUp => Action::Scroll(-10isize),
            Key::PageDown => Action::Scroll(10isize),
            Key::Char(c) => Action::TypeChar(c),
            _ => Action::Nothing,
        }
    } else if show_help && (key == Key::Esc || key == Key::Char('?')) {
        Action::ToggleHelp
    } else {
        match key {
            Key::Esc => Action::Quit,
            Key::Char(c) => char_action(c, ctrl, tab),
            Key::Tab | Key::Right => Action::NextTab,
            Key::BackTab | Key::Left => Action::PrevTab,
            Key::Up => Action::Scroll(-1isize),
            Key::Down => Action::Scroll(1isize),
            Key::PageUp => Action::Scroll(-10isize),
            Key::PageDown => Action::Scroll(10isize),
            Key::Home => Action::ScrollTop,
            _ => Action::Nothing,
        }
    }
}

fn char_action_exec(c: char, ctrl: bool, tab: Tab) -> (a: Action)
    ensures
        a == char_action(c, ctrl, tab),
{
    if c == 'q' {
        Action::Quit
    } else if c == 'c' && ctrl {
        Action::Quit
    } else if c == '?' {
        Action::ToggleHelp
    } else if c == ' ' {
        Action::TogglePause
    } else if c == '/' && tab == Tab::Processes {
        Action::StartSearch
    } else if c == 'l' {
        Action::NextTab
    } else if c == 'h' {
        Action::PrevTab
    } else if '1' <= c && c <= '5' {
        Action::SelectTab(((c as u32) - 48) as usize)
    } else if c == 'k' {
        Action::Scroll(-1isize)
    } else if c == 'j' {
        Action::Scroll(1isize)
    } else if c == 'g' {
        Action::ScrollTop
    } else {
        Action::Nothing
    }
}

/// The action a key press asks for.
pub fn decide(searching: bool, show_help: bool, tab: Tab, key: Key, ctrl: bool) -> (a: Action)
    ensures
        a == key_action(searching, show_help, tab, key, ctrl),
{
    if searching {
        match key {
            Key::Esc => Action::CancelSearch,
            Key::Enter => Action::EndSearch,
            Key::Backspace => Action::DeleteChar,
            Key::Up => Action::Scroll(-1isize),
            Key::Down => Action::Scroll(1isize),
            Key::PageUp => Action::Scroll(-10isize),
            Key::PageDown => Action::Scroll(10isize),
            Key::Char(c) => Action::TypeChar(c),
            _ => Action::Nothing,
        }
    } else if show_help && (key == Key::Esc || key == Key::Char('?')) {
        Action::ToggleHelp
    } else {
        match key {
            Key::Esc => Action::Quit,
            Key::Char(c) => char_action_exec(c, ctrl, tab),
            Key::Tab | Key::Right => Action::NextTab,
            Key::BackTab | Key::Left => Action::PrevTab,
            Key::Up => Action::Scroll(-1isize),
            Key::Down => Action::Scroll(1isize),
            Key::PageUp => Action::Scroll(-10isize),
            Key::PageDown => Action::Scroll(10isize),
            Key::Home => Action::ScrollTop,
            _ => Action::Nothing,
        }
    }
}

/// The state after an action.
pub open spec fn applied(old: App, new: App, a: Action) -> bool {
    match a {
        Action::CancelSearch => new.search@.len() == 0 && new == (App {
            search: new.search,
            searching: false,
            proc_selected: 0,
            ..old
        }),
        Action::EndSearch => new == (App { searching: false, ..old }),
        Action::DeleteChar => new.search@ == (if old.search@.len() > 0 {
            old.search@.drop_last()
        } else {
            old.search@
        }) && new == (App { search: new.search, proc_selected: 0, ..old }),
        Action::TypeChar(c) => new.search@ == old.search@.push(c) && new == (App {
            search: new.search,
            proc_selected: 0,
            ..old
        }),
        Action::Scroll(d) => new == (App {
            proc_selected: clamped(old.proc_selected, d, last_index(old.visible().len()) as int),
            ..old
        }),
        Action::ScrollTop => new == (App { proc_selected: 0, ..old }),
        Action::ToggleHelp => new == (App { show_help: !old.show_help, ..old }),
        Action::Quit => new == (App { should_quit: true, ..old }),
        Action::TogglePause => new == (App { paused: !old.paused, ..old }),
        Action::StartSearch => new == (App { searching: true, ..old }),
        Action::NextTab => new == (App { tab: tab_at(((tab_index(old.tab) + 1) % 2) as nat), ..old }),
        Action::PrevTab => new == (App {
            tab: tab_at(((tab_index(old.tab) + 2 - 1) % 2) as nat),
            ..old
        }),
        Action::SelectTab(n) => new == (App {
            tab: if 1 <= n <= 2 {
                tab_at((n - 1) as nat)
            } else {
                old.tab
            },
            ..old
        }),
        Action::Nothing => new == old,
    }
}

/// What moving the cursor by `d` needs: no overflow of the index.
pub open spec fn scroll_fits(app: App, d: isize) -> bool {
    &&& app.procs@.len() <= isize::MAX
    &&& isize::MIN <= (app.proc_selected as isize) + d <= isize::MAX
}

/// Carry out an action.
pub fn apply(app: &mut App, a: Action)
    requires
        a matches Action::Scroll(d) ==> scroll_fits(*old(app), d),
    ensures
        applied(*old(app), *final(app), a),
{
    match a {
        Action::CancelSearch => app.cancel_search(),
        Action::EndSearch => app.searching = false,
        Action::DeleteChar => {
            pop_char(&mut app.search);
            app.proc_selected = 0;
        },
        Action::TypeChar(c) => {
            push_char(&mut app.search, c);
            app.proc_selected = 0;
        },
        Action::Scroll(d) => app.move_selection(d),
        Action::ScrollTop => app.select_first(),
        Action::ToggleHelp => app.toggle_help(),
        Action::Quit => app.should_quit = true,
        Action::TogglePause => app.toggle_pause(),
        Action::StartSearch => app.searching = true,
        Action::NextTab => app.next_tab(),
        Action::PrevTab => app.prev_tab(),
        Action::SelectTab(n) => app.select(n),
        Action::Nothing => {},
    }
}

/// Handle one key press: decide what it asks for, then do it.
pub fn handle_key(app: &mut App, key: Key, ctrl: bool)
    requires
        key_action(old(app).searching, old(app).show_help, old(app).tab, key, ctrl) matches Action::Scroll(
            d,
        ) ==> scroll_fits(*old(app), d),
    ensures
        applied(
            *old(app),
            *final(app),
            key_action(old(app).searching, old(app).show_help, old(app).tab, key, ctrl),
        ),
{
    let a = decide(app.searching, app.show_help, app.tab, key, ctrl);
    apply(app, a);
}

/// The cursor keys: Up and Down move the process cursor one row, PageUp and
/// PageDown ten rows, up towards the first row and down towards the last,
/// stopping at either end, in the search box too; outside it `k` and `j`
/// move one row like Up and Down, and Home and `g` go to the first row.
/// Nothing else in the state changes.
pub proof fn lemma_scroll_keys(prev: App, next: App, key: Key, ctrl: bool)
    requires
        applied(prev, next, key_action(prev.searching, prev.show_help, prev.tab, key, ctrl)),
        prev.proc_selected <= last_index(prev.visible().len()),
        prev.visible().len() <= isize::MAX,
    ensures
        ({
            let cur = prev.proc_selected as int;
            let last = last_index(prev.visible().len()) as int;
            let sel = next.proc_selected as int;
            let up = !prev.searching && key == Key::Char('k');
            let down = !prev.searching && key == Key::Char('j');
            let top = !prev.searching && (key == Key::Home || key == Key::Char('g'));
            &&& key == Key::PageUp ==> sel == (if cur >= 10 { cur - 10 } else { 0 })
            &&& key == Key::PageDown ==> sel == (if cur + 10 <= last { cur + 10 } else { last })
            &&& (key == Key::Up || up) ==> sel == (if cur >= 1 { cur - 1 } else { 0 })
            &&& (key == Key::Down || down) ==> sel == (if cur + 1 <= last { cur + 1 } else { last })
            &&& top ==> sel == 0
            &&& (key == Key::PageUp || key == Key::PageDown || key == Key::Up || key == Key::Down
                || up || down || top) ==> next == (App { proc_selected: next.proc_selected, ..prev })
        }),
{
}

/// The key map, by its effect on the state. In the search box Esc clears
/// the query and leaves the box, Enter leaves it keeping the query,
/// Backspace deletes the last character and a character key is typed into
/// the query (so `q` does not quit there); each edit puts the cursor on the
/// first row. Outside it, with the help overlay shown, Esc and `?` only
/// close the overlay; otherwise Esc, `q` and Ctrl+C quit, `?` opens the
/// help, space pauses or resumes, `/` opens the search box on the process
/// tab only, Tab, Right and `l` go to the other tab, as do BackTab, Left
/// and `h`, and `1` and `2` pick a tab by its number.
pub proof fn lemma_key_effects(prev: App, next: App, key: Key, ctrl: bool)
    requires
        applied(prev, next, key_action(prev.searching, prev.show_help, prev.tab, key, ctrl)),
    ensures
        ({
            let other = if prev.tab == Tab::Overview {
                Tab::Processes
            } else {
                Tab::Overview
            };
            let closes_help = prev.show_help && (key == Key::Esc || key == Key::Char('?'));
            &&& prev.searching && key == Key::Esc ==> next.search@.len() == 0 && next == (App {
                search: next.search,
                searching: false,
                proc_selected: 0,
                ..prev
            })
            &&& prev.searching && key == Key::Enter ==> next == (App { searching: false, ..prev })
            &&& prev.searching && key == Key::Backspace ==> next.search@ == (if prev.search@.len() > 0 {
                prev.search@.drop_last()
            } else {
                prev.search@
            }) && next == (App { search: next.search, proc_selected: 0, ..prev })
            &&& forall|c: char|
                prev.searching && key == Key::Char(c) ==> next.search@ == #[trigger] prev.search@.push(c)
                    && next == (App { search: next.search, proc_selected: 0, ..prev })
            &&& !prev.searching && closes_help ==> next == (App { show_help: false, ..prev })
            &&& !prev.searching && !closes_help && (key == Key::Esc || key == Key::Char('q') || (key
                == Key::Char('c') && ctrl)) ==> next == (App { should_quit: true, ..prev })
            &&& !prev.searching && !prev.show_help && key == Key::Char('?') ==> next == (App {
                show_help: true,
                ..prev
            })
            &&& !prev.searching && key == Key::Char(' ') ==> next == (App { paused: !prev.paused, ..prev })
            &&& !prev.searching && key == Key::Char('/') ==> next == (if prev.tab == Tab::Processes {
                App { searching: true, ..prev }
            } else {
                prev
            })
            &&& !prev.searching && (key == Key::Tab || key == Key::Right || key == Key::Char('l')
                || key == Key::BackTab || key == Key::Left || key == Key::Char('h')) ==> next == (App {
                tab: other,
                ..prev
            })
            &&& !prev.searching && key == Key::Char('1') ==> next == (App { tab: Tab::Overview, ..prev })
            &&& !prev.searching && key == Key::Char('2') ==> next == (App { tab: Tab::Processes, ..prev })
        }),
{
}

} // verus!
