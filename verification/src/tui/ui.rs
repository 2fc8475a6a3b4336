//! What each key does to the view, and which kill request it makes for the caller to send.
use vstd::prelude::*;

use std::collections::HashSet;
use vstd::std_specs::iter::IteratorSpec;

use crate::process::killer::KillSignal;
use crate::process::tree::{first_found, in_forest, pids_of, preorder_node, TreeBuilder};
use crate::process::info::views;
use crate::text::{pop_char, push_char};
use super::app::{
    all_expand_toggled, expand_toggled, moved_down, moved_up, next_tabbed, prev_tabbed,
    select_toggled, selected_collapsed, selected_expanded, sort_toggled, view_rebuilt, view_trees, App,
    DialogKind,
};

verus! {

/// A key, as the view distinguishes keys.
#[derive(Debug, Clone, Copy, PartialEq, Eq, Structural)]
pub enum KeyCode {
    Char(char),
    Enter,
    Esc,
    Backspace,
    Up,
    Down,
    Left,
    Right,
    Tab,
    BackTab,
    PageUp,
    PageDown,
    Home,
    End,
    /// Any key the view ignores.
    Other,
}

/// A key press: the key and whether Control was held.
#[derive(Debug, Clone, Copy, PartialEq, Eq, Structural)]
pub struct KeyEvent {
    pub code: KeyCode,
    pub ctrl: bool,
}

/// A kill request that a key made; the caller sends it.
#[derive(Debug)]
pub enum KillOrder {
    /// One signal to one process.
    Signal(u32, KillSignal),
    /// One signal to each process of the multi-selection.
    Batch(Vec<u32>, KillSignal),
    /// One signal to a whole subtree (listed root first, depth first).
    Tree(Vec<u32>, KillSignal),
    /// `SIGKILL` to one process.
    Force(u32),
}

/// The key is the character `c`.
pub open spec fn is_char(k: KeyCode, c: char) -> bool {
    k == KeyCode::Char(c)
}

/// The PID on the selected row, if any.
pub open spec fn selected_pid(a: App) -> Option<u32> {
    if a.selected_index < a.flat_list@.len() {
        Some(a.flat_list@[a.selected_index as int].0.pid)
    } else {
        None
    }
}

/// `x - y`, or 0 when `y` is larger.
pub open spec fn sat_sub(x: int, y: int) -> int {
    if x > y {
        x - y
    } else {
        0
    }
}

/// A scroll offset moved `step` rows down, stopping at `max` (an offset
/// already past `max` stays where it is).
pub open spec fn scrolled_down(pos: u16, step: u16, max: u16) -> u16 {
    if pos + step <= max {
        (pos + step) as u16
    } else if pos < max {
        max
    } else {
        pos
    }
}

/// Move a scroll offset `step` rows down, stopping at `max`.
fn scroll_down(pos: u16, step: u16, max: u16) -> (r: u16)
    ensures
        r == scrolled_down(pos, step, max),
{
    if (pos as u32) + (step as u32) <= max as u32 {
        pos + step
    } else if pos < max {
        max
    } else {
        pos
    }
}

/// The PIDs of a multi-selection, each once.
pub fn selection_list(set: &HashSet<u32>) -> (v: Vec<u32>)
    ensures
        v@.to_set() == set@,
        v@.no_duplicates(),
{
    broadcast use vstd::std_specs::hash::group_hash_axioms;
    let ghost items = vstd::std_specs::hash::spec_hash_keys_iter(set).remaining().unref();
    let mut v: Vec<u32> = Vec::new();
    for x in it: set.iter()
        invariant
            it.seq().unref() == items,
            items.to_set() == set@,
            items.no_duplicates(),
            v@.len() == it.index(),
            v@ == items.take(v@.len() as int),
    {
        let ghost before = v@;
        v.push(*x);
        assert(items.take(v@.len() as int) =~= before.push(*x));
    }
    assert(v@.len() == items.len());
    assert(v@ =~= items);
    v
}

/// What a key does in the normal mode (no dialog, no filter input).
pub open spec fn normal_key_effect(o: App, f: App, key: KeyEvent) -> bool {
    let k = key.code;
    if key.ctrl && is_char(k, 'c') || is_char(k, 'q') || k == KeyCode::Esc {
        f == (App { should_quit: true, ..o })
    } else if k == KeyCode::Up || is_char(k, 'k') {
        moved_up(o, f)
    } else if k == KeyCode::Down || is_char(k, 'j') {
        moved_down(o, f)
    } else if k == KeyCode::Enter {
        expand_toggled(o, f)
    } else if k == KeyCode::Right || is_char(k, 'l') {
        selected_expanded(o, f)
    } else if k == KeyCode::Left || is_char(k, 'h') {
        selected_collapsed(o, f)
    } else if is_char(k, 'e') {
        all_expand_toggled(o, f)
    } else if k == KeyCode::Tab {
        next_tabbed(o, f)
    } else if k == KeyCode::BackTab {
        prev_tabbed(o, f)
    } else if is_char(k, ' ') {
        select_toggled(o, f)
    } else if is_char(k, '/') {
        f.filter_text@.len() == 0 && view_rebuilt(App { filter_active: true, filter_text: f.filter_text, ..o }, f)
    } else if is_char(k, 's') {
        sort_toggled(o, f)
    } else if is_char(k, 'r') {
        f == (App { sort_ascending: !o.sort_ascending, ..o })
    } else if is_char(k, '+') {
        f == (App {
            refresh_secs: if o.refresh_secs + 1 < 60 {
                (o.refresh_secs + 1) as u64
            } else {
                60
            },
            refresh_changed: true,
            ..o
        })
    } else if is_char(k, '-') {
        f == (App {
            refresh_secs: if o.refresh_secs > 2 {
                (o.refresh_secs - 1) as u64
            } else {
                1
            },
            refresh_changed: true,
            ..o
        })
    } else if is_char(k, 'x') {
        f == (if selected_pid(o) is Some {
            App { dialog: Some(DialogKind::KillConfirm), ..o }
        } else {
            o
        })
    } else if is_char(k, 'K') {
        f == (if selected_pid(o) is Some {
            App { dialog: Some(DialogKind::KillTreeConfirm), ..o }
        } else {
            o
        })
    } else if is_char(k, 'H') {
        f == (App { dialog: Some(DialogKind::Help), ..o })
    } else if is_char(k, 'S') {
        f == (if selected_pid(o) is Some {
            App { signal_picker_index: 0, dialog: Some(DialogKind::SignalPicker), ..o }
        } else {
            o
        })
    } else if k == KeyCode::PageUp {
        f == (App {
            detail_scroll: sat_sub(o.detail_scroll as int, 10) as u16,
            log_scroll: sat_sub(o.log_scroll as int, 10) as u16,
            ..o
        })
    } else if k == KeyCode::PageDown {
        f == (App {
            detail_scroll: if o.detail_scroll + 10 > u16::MAX {
                u16::MAX
            } else {
                (o.detail_scroll + 10) as u16
            },
            log_scroll: if o.log_scroll + 10 > u16::MAX {
                u16::MAX
            } else {
                (o.log_scroll + 10) as u16
            },
            ..o
        })
    } else if k == KeyCode::Home {
        f == (App { selected_index: 0, ..o })
    } else if k == KeyCode::End {
        f == (if o.flat_list@.len() > 0 {
            App { selected_index: (o.flat_list@.len() - 1) as usize, ..o }
        } else {
            o
        })
    } else {
        f == o
    }
}

/// What a key does while the filter input has focus. Every change of the
/// filter text is applied at once: the view is rebuilt with it.
pub open spec fn filter_key_effect(o: App, f: App, key: KeyEvent) -> bool {
    match key.code {
        KeyCode::Esc => f.filter_text@.len() == 0 && view_rebuilt(
            App { filter_active: false, filter_text: f.filter_text, ..o },
            f,
        ),
        KeyCode::Enter => f == (App { filter_active: false, ..o }),
        KeyCode::Backspace => f.filter_text@ == (if o.filter_text@.len() > 0 {
            o.filter_text@.drop_last()
        } else {
            o.filter_text@
        }) && view_rebuilt(App { filter_text: f.filter_text, ..o }, f),
        KeyCode::Char(c) => f.filter_text@ == o.filter_text@.push(c) && view_rebuilt(
            App { filter_text: f.filter_text, ..o },
            f,
        ),
        _ => f == o,
    }
}

/// The subtree PIDs of the first process with `pid` in the trees.
pub open spec fn subtree_pids(o: App, pid: u32, pids: Seq<u32>) -> bool {
    exists|n: crate::process::ProcessView|
        first_found(views(o.process_trees@), pid, n) && pids == pids_of(preorder_node(n))
}

/// What a key does while a dialog is open, and the kill request it makes.
pub open spec fn dialog_key_effect(o: App, f: App, key: KeyEvent, d: DialogKind, r: Option<KillOrder>) -> bool {
    let k = key.code;
    let closed = App { dialog: None, ..o };
    match d {
        DialogKind::KillConfirm => if k == KeyCode::Enter {
            f == closed && if !o.selected_pids@.is_empty() {
                r matches Some(KillOrder::Batch(pids, sig)) && sig == KillSignal::Term
                    && pids@.to_set() == o.selected_pids@ && pids@.no_duplicates()
            } else {
                match selected_pid(o) {
                    Some(pid) => r == Some(KillOrder::Signal(pid, KillSignal::Term)),
                    None => r is None,
                }
            }
        } else if k == KeyCode::Esc {
            f == closed && r is None
        } else {
            f == o && r is None
        },
        DialogKind::KillTreeConfirm => if k == KeyCode::Enter {
            f == closed && match selected_pid(o) {
                Some(pid) => if in_forest(views(o.process_trees@), pid) {
                    r matches Some(KillOrder::Tree(pids, sig)) && sig == KillSignal::Term && subtree_pids(o, pid, pids@)
                } else {
                    r is None
                },
                None => r is None,
            }
        } else if k == KeyCode::Esc {
            f == closed && r is None
        } else {
            f == o && r is None
        },
        DialogKind::SignalPicker => if k == KeyCode::Up || is_char(k, 'k') {
            r is None && f == (if o.signal_picker_index > 0 {
                App { signal_picker_index: (o.signal_picker_index - 1) as usize, ..o }
            } else {
                o
            })
        } else if k == KeyCode::Down || is_char(k, 'j') {
            r is None && f == (if o.signal_picker_index + 1 < KillSignal::all_signals().len() {
                App { signal_picker_index: (o.signal_picker_index + 1) as usize, ..o }
            } else {
                o
            })
        } else if k == KeyCode::Enter {
            f == closed && match selected_pid(o) {
                Some(pid) => r == Some(
                    KillOrder::Signal(
                        pid,
                        KillSignal::all_signals()[o.signal_picker_index as int % KillSignal::all_signals().len() as int],
                    ),
                ),
                None => r is None,
            }
        } else if k == KeyCode::Esc {
            f == closed && r is None
        } else {
            f == o && r is None
        },
        DialogKind::Help => r is None && if k == KeyCode::Esc || is_char(k, 'H') || is_char(k, 'q') {
            f == closed
        } else if k == KeyCode::Up || is_char(k, 'k') {
            f == (App { help_scroll: sat_sub(o.help_scroll as int, 1) as u16, ..o })
        } else if k == KeyCode::Down || is_char(k, 'j') {
            f == (App { help_scroll: scrolled_down(o.help_scroll, 1, o.help_max_scroll), ..o })
        } else if k == KeyCode::PageUp {
            f == (App { help_scroll: sat_sub(o.help_scroll as int, 10) as u16, ..o })
        } else if k == KeyCode::PageDown {
            f == (App { help_scroll: scrolled_down(o.help_scroll, 10, o.help_max_scroll), ..o })
        } else {
            f == o
        },
        DialogKind::ForceKillPrompt => if k == KeyCode::Enter {
            f == closed && match selected_pid(o) {
                Some(pid) => r == Some(KillOrder::Force(pid)),
                None => r is None,
            }
        } else if k == KeyCode::Esc {
            f == closed && r is None
        } else {
            f == o && r is None
        },
    }
}

/// What a key does: the open dialog takes it first, then the filter input,
/// then the normal mode. The result is the kill request made, if any.
pub open spec fn key_effect(o: App, f: App, key: KeyEvent, r: Option<KillOrder>) -> bool {
    match o.dialog {
        Some(d) => dialog_key_effect(o, f, key, d, r),
        None => r is None && if o.filter_active {
            filter_key_effect(o, f, key)
        } else {
            normal_key_effect(o, f, key)
        },
    }
}

/// Handle a key: dialogs first, then the filter input, then normal mode.
/// Returns the kill request it made, if any; the caller sends it.
pub fn handle_key(app: &mut App, key: KeyEvent) -> (r: Option<KillOrder>)
    ensures
        key_effect(*old(app), *final(app), key, r),
{
    match app.dialog {
        Some(d) => handle_dialog_key(app, key, d),
        None => {
            if app.filter_active {
                handle_filter_key(app, key);
            } else {
                handle_normal_key(app, key);
            }
            None
        },
    }
}

fn handle_dialog_key(app: &mut App, key: KeyEvent, dialog: DialogKind) -> (r: Option<KillOrder>)
    requires
        old(app).dialog == Some(dialog),
    ensures
        dialog_key_effect(*old(app), *final(app), key, dialog, r),
{
    let k = key.code;
    match dialog {
        DialogKind::KillConfirm => {
            if k == KeyCode::Enter {
                let mut sent: Option<KillOrder> = None;
                if !app.selected_pids.is_empty() {
                    sent = Some(KillOrder::Batch(selection_list(&app.selected_pids), KillSignal::Term));
                } else {
                    match app.selected_process() {
                    Some(p) => {
                        let pid = p.pid;
                            sent = Some(KillOrder::Signal(pid, KillSignal::Term));
                        },
                        None => {},
                    }
                }
                app.dialog = None;
                sent
            } else if k == KeyCode::Esc {
                app.dialog = None;
                None
            } else {
                None
            }
        },
        DialogKind::KillTreeConfirm => {
            if k == KeyCode::Enter {
                let mut sent: Option<KillOrder> = None;
                match app.selected_process() {
                    Some(p) => {
                        let pid = p.pid;
                        match app.find_process_in_trees(pid) {
                            Some(tree_proc) => {
                                let pids = TreeBuilder::collect_pids(tree_proc);
                                sent = Some(KillOrder::Tree(pids, KillSignal::Term));
                            },
                            None => {},
                        }
                    },
                    None => {},
                }
                app.dialog = None;
                sent
            } else if k == KeyCode::Esc {
                app.dialog = None;
                None
            } else {
                None
            }
        },
        DialogKind::SignalPicker => {
            let signal_count = KillSignal::all().len();
            if k == KeyCode::Up || k == KeyCode::Char('k') {
                if app.signal_picker_index > 0 {
                    app.signal_picker_index -= 1;
                }
                None
            } else if k == KeyCode::Down || k == KeyCode::Char('j') {
                if app.signal_picker_index < signal_count - 1 {
                    app.signal_picker_index += 1;
                }
                None
            } else if k == KeyCode::Enter {
                let signal = app.selected_kill_signal();
                let mut sent: Option<KillOrder> = None;
                match app.selected_process() {
                    Some(p) => {
                        let pid = p.pid;
                        sent = Some(KillOrder::Signal(pid, signal));
                    },
                    None => {},
                }
                app.dialog = None;
                sent
            } else if k == KeyCode::Esc {
                app.dialog = None;
                None
            } else {
                None
            }
        },
        DialogKind::Help => {
            if k == KeyCode::Esc || k == KeyCode::Char('H') || k == KeyCode::Char('q') {
                app.dialog = None;
            } else if k == KeyCode::Up || k == KeyCode::Char('k') {
                app.help_scroll = app.help_scroll.saturating_sub(1);
            } else if k == KeyCode::Down || k == KeyCode::Char('j') {
                app.help_scroll = scroll_down(app.help_scroll, 1, app.help_max_scroll);
            } else if k == KeyCode::PageUp {
                app.help_scroll = app.help_scroll.saturating_sub(10);
            } else if k == KeyCode::PageDown {
                app.help_scroll = scroll_down(app.help_scroll, 10, app.help_max_scroll);
            }
            None
        },
        DialogKind::ForceKillPrompt => {
            if k == KeyCode::Enter {
                let mut sent: Option<KillOrder> = None;
                match app.selected_process() {
                    Some(p) => {
                        let pid = p.pid;
                        sent = Some(KillOrder::Force(pid));
                    },
                    None => {},
                }
                app.dialog = None;
                sent
            } else if k == KeyCode::Esc {
                app.dialog = None;
                None
            } else {
                None
            }
        },
    }
}

fn handle_filter_key(app: &mut App, key: KeyEvent)
    ensures
        filter_key_effect(*old(app), *final(app), key),
{
    match key.code {
        KeyCode::Esc => {
            app.filter_active = false;
            app.filter_text = String::new();
            app.rebuild_view();
        },
        KeyCode::Enter => {
            app.filter_active = false;
        },
        KeyCode::Backspace => {
            pop_char(&mut app.filter_text);
            app.rebuild_view();
        },
        KeyCode::Char(c) => {
            push_char(&mut app.filter_text, c);
            app.rebuild_view();
        },
        _ => {},
    }
}

#[verifier::rlimit(40)]
#[verifier::spinoff_prover]
fn handle_normal_key(app: &mut App, key: KeyEvent)
    ensures
        normal_key_effect(*old(app), *final(app), key),
{
    let k = key.code;
    if key.ctrl && k == KeyCode::Char('c') || k == KeyCode::Char('q') || k == KeyCode::Esc {
        app.should_quit = true;
    } else if k == KeyCode::Up || k == KeyCode::Char('k') {
        app.move_up();
    } else if k == KeyCode::Down || k == KeyCode::Char('j') {
        app.move_down();
    } else if k == KeyCode::Enter {
        app.toggle_expand();
    } else if k == KeyCode::Right || k == KeyCode::Char('l') {
        app.expand_selected();
    } else if k == KeyCode::Left || k == KeyCode::Char('h') {
        app.collapse_selected();
    } else if k == KeyCode::Char('e') {
        app.toggle_expand_all();
    } else if k == KeyCode::Tab {
        app.next_tab();
    } else if k == KeyCode::BackTab {
        app.prev_tab();
    } else if k == KeyCode::Char(' ') {
        app.toggle_select();
    } else if k == KeyCode::Char('/') {
        app.filter_active = true;
        app.filter_text = String::new();
        app.rebuild_view();
    } else if k == KeyCode::Char('s') {
        app.toggle_sort();
    } else if k == KeyCode::Char('r') {
        app.sort_ascending = !app.sort_ascending;
    } else if k == KeyCode::Char('+') {
        app.refresh_secs = if app.refresh_secs < 59 {
            app.refresh_secs + 1
        } else {
            60
        };
        app.refresh_changed = true;
    } else if k == KeyCode::Char('-') {
        app.refresh_secs = if app.refresh_secs > 2 {
            app.refresh_secs - 1
        } else {
            1
        };
        app.refresh_changed = true;
    } else if k == KeyCode::Char('x') {
        if app.selected_index < app.flat_list.len() {
            app.dialog = Some(DialogKind::KillConfirm);
        }
    } else if k == KeyCode::Char('K') {
        if app.selected_index < app.flat_list.len() {
            app.dialog = Some(DialogKind::KillTreeConfirm);
        }
    } else if k == KeyCode::Char('H') {
        app.dialog = Some(DialogKind::Help);
    } else if k == KeyCode::Char('S') {
        if app.selected_index < app.flat_list.len() {
            app.signal_picker_index = 0;
            app.dialog = Some(DialogKind::SignalPicker);
        }
    } else if k == KeyCode::PageUp {
        app.detail_scroll = app.detail_scroll.saturating_sub(10);
        app.log_scroll = app.log_scroll.saturating_sub(10);
    } else if k == KeyCode::PageDown {
        app.detail_scroll = app.detail_scroll.saturating_add(10);
        app.log_scroll = app.log_scroll.saturating_add(10);
    } else if k == KeyCode::Home {
        app.selected_index = 0;
    } else if k == KeyCode::End {
        if app.flat_list.len() > 0 {
            app.selected_index = app.flat_list.len() - 1;
        }
    }
}

} // verus!

verus! {

/// Control-C quits in the normal mode, whatever the state.
pub proof fn law_ctrl_c_quits(o: App, f: App)
    requires
        normal_key_effect(o, f, KeyEvent { code: KeyCode::Char('c'), ctrl: true }),
    ensures
        f.should_quit,
{
}

/// In the filter input, typing a character and then Backspace leaves the
/// filter text as it was, and the trees shown are those of that filter.
pub proof fn law_type_then_erase(o: App, m: App, f: App, c: char)
    requires
        filter_key_effect(o, m, KeyEvent { code: KeyCode::Char(c), ctrl: false }),
        filter_key_effect(m, f, KeyEvent { code: KeyCode::Backspace, ctrl: false }),
    ensures
        f.filter_text@ == o.filter_text@,
        views(f.process_trees@) == view_trees(
            views(o.raw_processes@),
            o.node_only,
            o.filter_text@,
            o.sort_column,
            o.sort_ascending,
        ),
{
    assert(m.filter_text@.drop_last() =~= o.filter_text@);
}

/// Each character typed into the filter is applied at once: the trees
/// shown are the last scan seen through the extended filter.
pub proof fn law_filter_applies_each_keystroke(o: App, f: App, c: char)
    requires
        filter_key_effect(o, f, KeyEvent { code: KeyCode::Char(c), ctrl: false }),
    ensures
        f.filter_text@ == o.filter_text@.push(c),
        views(f.process_trees@) == view_trees(
            views(o.raw_processes@),
            o.node_only,
            o.filter_text@.push(c),
            o.sort_column,
            o.sort_ascending,
        ),
{
}

/// Esc closes every dialog without sending anything.
pub proof fn law_esc_closes_dialog(o: App, f: App, d: DialogKind, r: Option<KillOrder>)
    requires
        dialog_key_effect(o, f, KeyEvent { code: KeyCode::Esc, ctrl: false }, d, r),
    ensures
        f.dialog is None,
        r is None,
{
}

} // verus!
