//! State of the interactive process view.
use vstd::prelude::*;

use std::collections::HashSet;

use crate::config::Config;
use crate::process::killer::KillSignal;
use crate::text::{
    chars_of, contains_chars, decimal, decimal_chars, has_substring, lemma_lex_asymmetric,
    lemma_lex_not_less_transitive, lex_less, str_less, to_lowercase, unicode_lowercase,
};
use crate::process::info::{fresh_view, lemma_pviews_index, lemma_pviews_views, views};
use crate::seqs::lemma_filter_step;
use crate::process::tree::{
    find_in, first_found, forest_all, forest_of, ignores_children, in_forest, lemma_forest_all_index,
    lemma_forest_of_all, lemma_sort_forest_all, pid_listed, sort_forest, tree_all, with_children, TreeBuilder,
    children_sorted, law_sort_forest_sorts_levels, order_ignores_children, sorted_by, weak_order_on,
    sort_ordered, lemma_sort_sorted, law_sort_level_permutes,
};
use crate::process::Runtime;
use crate::process::{ProcessInfo, ProcessView};
use crate::process::health::{f32_is_nan, f32_order_key, f32_key, f32_nan};
use crate::process::duration_nanos;

verus! {

/// Which detail tab is active in the detail panel.
#[derive(Debug, Clone, Copy, PartialEq, Eq, Structural)]
pub enum DetailTab {
    Info,
    Log,
    Net,
    Env,
}

impl DetailTab {
    /// The position of the tab in the tab bar.
    pub open spec fn index(self) -> int {
        match self {
            DetailTab::Info => 0,
            DetailTab::Log => 1,
            DetailTab::Net => 2,
            DetailTab::Env => 3,
        }
    }

    /// The tab at position `i` (taken modulo the number of tabs).
    pub open spec fn at(i: int) -> DetailTab {
        let k = i % 4;
        if k == 0 {
            DetailTab::Info
        } else if k == 1 {
            DetailTab::Log
        } else if k == 2 {
            DetailTab::Net
        } else {
            DetailTab::Env
        }
    }

    /// The tab to the right, wrapping around after the last one.
    pub fn next(&self) -> (r: DetailTab)
        ensures
            r == DetailTab::at(self.index() + 1),
    {
        match self {
            DetailTab::Info => DetailTab::Log,
            DetailTab::Log => DetailTab::Net,
            DetailTab::Net => DetailTab::Env,
            DetailTab::Env => DetailTab::Info,
        }
    }

    /// The tab to the left, wrapping around before the first one.
    pub fn prev(&self) -> (r: DetailTab)
        ensures
            r == DetailTab::at(self.index() + 3),
    {
        match self {
            DetailTab::Info => DetailTab::Env,
            DetailTab::Log => DetailTab::Info,
            DetailTab::Net => DetailTab::Log,
            DetailTab::Env => DetailTab::Net,
        }
    }

    /// The title shown on the tab.
    pub open spec fn title(self) -> Seq<char> {
        match self {
            DetailTab::Info => "Info"@,
            DetailTab::Log => "Log"@,
            DetailTab::Net => "Net"@,
            DetailTab::Env => "Env"@,
        }
    }

    /// The title shown on the tab.
    pub fn label(&self) -> (s: &'static str)
        ensures
            s@ == self.title(),
    {
        match self {
            DetailTab::Info => "Info",
            DetailTab::Log => "Log",
            DetailTab::Net => "Net",
            DetailTab::Env => "Env",
        }
    }

    /// The tab reached from this one after `n` steps to the right.
    pub open spec fn after(self, n: int) -> DetailTab {
        DetailTab::at(self.index() + n)
    }

    /// Every tab, in tab-bar order.
    pub fn all() -> (v: Vec<DetailTab>)
        ensures
            v@.len() == 4,
            forall|i: int| 0 <= i < 4 ==> #[trigger] v@[i] == DetailTab::at(i),
    {
        vec![DetailTab::Info, DetailTab::Log, DetailTab::Net, DetailTab::Env]
    }
}

/// Moving right and then left (or left and then right) returns to the tab
/// one started from.
pub proof fn law_tab_next_prev_inverse(t: DetailTab)
    ensures
        DetailTab::at(DetailTab::at(t.index() + 1).index() + 3) == t,
        DetailTab::at(DetailTab::at(t.index() + 3).index() + 1) == t,
{
}

/// Moving right four times visits every tab once and returns to the start.
pub proof fn law_tab_cycle(t: DetailTab)
    ensures
        t.after(4) == t,
        forall|i: int, j: int| 0 <= i < j < 4 ==> #[trigger] t.after(i) != #[trigger] t.after(j),
{
}

/// What dialog, if any, is currently displayed.
#[derive(Debug, Clone, Copy, PartialEq, Eq, Structural)]
pub enum DialogKind {
    KillConfirm,
    KillTreeConfirm,
    SignalPicker,
    ForceKillPrompt,
    Help,
}

/// Which panel currently has keyboard focus.
#[derive(Debug, Clone, Copy, PartialEq, Eq, Structural)]
pub enum FocusPanel {
    ProcessList,
    DetailPanel,
}

/// Column by which the process list can be sorted.
#[derive(Debug, Clone, Copy, PartialEq, Eq, Structural)]
pub enum SortColumn {
    Pid,
    Name,
    Port,
    Threads,
    Cpu,
    Memory,
    User,
    Status,
    Uptime,
}

impl SortColumn {
    /// The position of the column in the cycle of sort columns.
    pub open spec fn index(self) -> int {
        match self {
            SortColumn::Pid => 0,
            SortColumn::Name => 1,
            SortColumn::Port => 2,
            SortColumn::Threads => 3,
            SortColumn::Cpu => 4,
            SortColumn::Memory => 5,
            SortColumn::User => 6,
            SortColumn::Status => 7,
            SortColumn::Uptime => 8,
        }
    }

    /// The column at position `i` (taken modulo the number of columns).
    pub open spec fn at(i: int) -> SortColumn {
        let k = i % 9;
        if k == 0 {
            SortColumn::Pid
        } else if k == 1 {
            SortColumn::Name
        } else if k == 2 {
            SortColumn::Port
        } else if k == 3 {
            SortColumn::Threads
        } else if k == 4 {
            SortColumn::Cpu
        } else if k == 5 {
            SortColumn::Memory
        } else if k == 6 {
            SortColumn::User
        } else if k == 7 {
            SortColumn::Status
        } else {
            SortColumn::Uptime
        }
    }

    /// The next sort column, wrapping around after `Uptime`.
    pub fn next(&self) -> (r: SortColumn)
        ensures
            r == SortColumn::at(self.index() + 1),
    {
        match self {
            SortColumn::Pid => SortColumn::Name,
            SortColumn::Name => SortColumn::Port,
            SortColumn::Port => SortColumn::Threads,
            SortColumn::Threads => SortColumn::Cpu,
            SortColumn::Cpu => SortColumn::Memory,
            SortColumn::Memory => SortColumn::User,
            SortColumn::User => SortColumn::Status,
            SortColumn::Status => SortColumn::Uptime,
            SortColumn::Uptime => SortColumn::Pid,
        }
    }

    /// The column reached from this one after `n` presses of the sort key.
    pub open spec fn after(self, n: int) -> SortColumn {
        SortColumn::at(self.index() + n)
    }

    /// The column header text.
    pub open spec fn title(self) -> Seq<char> {
        match self {
            SortColumn::Pid => "PID"@,
            SortColumn::Name => "NAME"@,
            SortColumn::Port => "PORT"@,
            SortColumn::Threads => "THR"@,
            SortColumn::Cpu => "CPU"@,
            SortColumn::Memory => "MEM"@,
            SortColumn::User => "USER"@,
            SortColumn::Status => "STATUS"@,
            SortColumn::Uptime => "UPTIME"@,
        }
    }

    /// The column header text.
    pub fn label(&self) -> (s: &'static str)
        ensures
            s@ == self.title(),
    {
        match self {
            SortColumn::Pid => "PID",
            SortColumn::Name => "NAME",
            SortColumn::Port => "PORT",
            SortColumn::Threads => "THR",
            SortColumn::Cpu => "CPU",
            SortColumn::Memory => "MEM",
            SortColumn::User => "USER",
            SortColumn::Status => "STATUS",
            SortColumn::Uptime => "UPTIME",
        }
    }
}

/// Cycling through the sort columns visits all nine and comes back.
pub proof fn law_sort_column_cycle(c: SortColumn)
    ensures
        c.after(9) == c,
        c.after(0) == c,
        forall|i: int, j: int| 0 <= i < j < 9 ==> #[trigger] c.after(i) != #[trigger] c.after(j),
{
}

// ─── Sort order of the process list ─────────────────────────────────

/// The first port of a process, or 0 when it has none.
pub open spec fn first_port(p: ProcessView) -> u16 {
    if p.ports.len() > 0 {
        p.ports[0]
    } else {
        0
    }
}

/// The lowest non-zero first port in the subtree of `p` (0 when there is
/// none): the key by which the port column orders whole branches.
pub open spec fn port_key(p: ProcessView) -> u16
    decreases p,
{
    port_key_among(p.children, first_port(p))
}

/// `best` folded with the port keys of the processes in `s`: the lowest
/// non-zero value among them, 0 when all are 0.
pub open spec fn port_key_among(s: Seq<ProcessView>, best: u16) -> u16
    decreases s,
{
    if s.len() == 0 {
        best
    } else {
        let b = port_key_among(s.drop_last(), best);
        let cp = port_key(s.last());
        if cp != 0 && (b == 0 || cp < b) {
            cp
        } else {
            b
        }
    }
}

/// `a` is strictly less than `b` in the given column. Names compare in
/// lowercase, CPU figures by their `f32` value (a NaN is less than nothing),
/// texts by code point.
pub open spec fn column_less(col: SortColumn, a: ProcessView, b: ProcessView) -> bool {
    match col {
        SortColumn::Pid => a.pid < b.pid,
        SortColumn::Name => lex_less(unicode_lowercase(a.name), unicode_lowercase(b.name)),
        SortColumn::Port => port_key(a) < port_key(b),
        SortColumn::Threads => a.threads < b.threads,
        SortColumn::Cpu => !f32_is_nan(a.cpu_percent_bits) && !f32_is_nan(b.cpu_percent_bits)
            && f32_order_key(a.cpu_percent_bits) < f32_order_key(b.cpu_percent_bits),
        SortColumn::Memory => a.memory_rss < b.memory_rss,
        SortColumn::User => lex_less(a.user, b.user),
        SortColumn::Status => lex_less(a.status, b.status),
        SortColumn::Uptime => a.uptime_nanos < b.uptime_nanos,
    }
}

/// `a` belongs strictly before `b` when sorting by `col`, ascending or not.
pub open spec fn precedes(a: ProcessView, b: ProcessView, col: SortColumn, ascending: bool) -> bool {
    if ascending {
        column_less(col, a, b)
    } else {
        column_less(col, b, a)
    }
}

/// The sort order as a relation, for the sorting functions.
pub open spec fn order_of(col: SortColumn, ascending: bool) -> spec_fn(ProcessView, ProcessView) -> bool {
    |a: ProcessView, b: ProcessView| precedes(a, b, col, ascending)
}

/// The lowest non-zero first port in the subtree of `p`; 0 when there is none.
pub fn subtree_port_key(p: &ProcessInfo) -> (k: u16)
    ensures
        k == port_key(p@),
    decreases p,
{
    let mut best: u16 = if p.ports.len() > 0 {
        p.ports[0]
    } else {
        0
    };
    let ghost kids = ProcessInfo::pviews(p.children@);
    proof {
        crate::process::info::lemma_pviews_len(p.children@);
    }
    let mut i: usize = 0;
    while i < p.children.len()
        invariant
            i <= p.children.len(),
            kids == ProcessInfo::pviews(p.children@),
            kids.len() == p.children@.len(),
            best == port_key_among(kids.take(i as int), first_port(p@)),
        decreases p.children.len() - i,
    {
        assert(decreases_to!(p => p.children@[i as int]));
        let cp = subtree_port_key(&p.children[i]);
        proof {
            lemma_pviews_index(p.children@, i as int);
            assert(kids.take(i + 1).drop_last() == kids.take(i as int));
        }
        if cp != 0 && (best == 0 || cp < best) {
            best = cp;
        }
        i += 1;
    }
    assert(kids.take(kids.len() as int) == kids);
    best
}

/// Whether `a` belongs strictly before `b` when sorting by `col`.
pub fn sort_precedes(a: &ProcessInfo, b: &ProcessInfo, col: SortColumn, ascending: bool) -> (r: bool)
    ensures
        r == precedes(a@, b@, col, ascending),
{
    let (x, y) = if ascending {
        (a, b)
    } else {
        (b, a)
    };
    match col {
        SortColumn::Pid => x.pid < y.pid,
        SortColumn::Name => {
            let lx = to_lowercase(x.name.as_str());
            let ly = to_lowercase(y.name.as_str());
            str_less(lx.as_str(), ly.as_str())
        },
        SortColumn::Port => subtree_port_key(x) < subtree_port_key(y),
        SortColumn::Threads => x.threads < y.threads,
        SortColumn::Cpu => !f32_nan(x.cpu_percent_bits) && !f32_nan(y.cpu_percent_bits) && f32_key(
            x.cpu_percent_bits,
        ) < f32_key(y.cpu_percent_bits),
        SortColumn::Memory => x.memory_rss < y.memory_rss,
        SortColumn::User => str_less(x.user.as_str(), y.user.as_str()),
        SortColumn::Status => str_less(x.status.as_str(), y.status.as_str()),
        SortColumn::Uptime => x.uptime.as_nanos() < y.uptime.as_nanos(),
    }
}

// ─── The application state ───────────────────────────────────────────

/// State of the interactive view. Terminal handles, timers and the log
/// reader live with the program's event loop.
pub struct App {
    pub config: Config,
    /// Last scan result, before filtering.
    pub raw_processes: Vec<ProcessInfo>,
    /// The process trees (roots with nested children), filtered and sorted.
    pub process_trees: Vec<ProcessInfo>,
    /// The rows on screen: each shown process with its depth.
    pub flat_list: Vec<(ProcessInfo, usize)>,
    /// The highlighted row.
    pub selected_index: usize,
    /// PIDs that are multi-selected.
    pub selected_pids: HashSet<u32>,
    /// Active detail tab.
    pub active_tab: DetailTab,
    /// PIDs whose children are shown.
    pub expanded_pids: HashSet<u32>,
    /// The open dialog, if any.
    pub dialog: Option<DialogKind>,
    /// Row in the signal picker.
    pub signal_picker_index: usize,
    /// Filter text.
    pub filter_text: String,
    /// Whether the filter input has focus.
    pub filter_active: bool,
    pub sort_column: SortColumn,
    pub sort_ascending: bool,
    /// Scroll offset of the log tab.
    pub log_scroll: u16,
    /// Scroll offset of the detail panel.
    pub detail_scroll: u16,
    /// Lines of content in the detail panel (set while drawing).
    pub detail_content_lines: u16,
    /// Visible height of the detail panel (set while drawing).
    pub detail_view_height: u16,
    pub should_quit: bool,
    /// System-wide CPU usage, as the bit pattern of an `f32` percentage.
    pub system_cpu_bits: u32,
    pub system_memory_used: u64,
    pub system_memory_total: u64,
    /// PID of the process whose graceful kill is under way.
    pub kill_in_progress: Option<u32>,
    /// Ticks drawn so far (for animations).
    pub tick_count: u64,
    /// PIDs seen in the previous scan.
    pub known_pids: HashSet<u32>,
    /// Whether newly seen parents start expanded.
    pub default_expanded: bool,
    pub help_scroll: u16,
    pub help_max_scroll: u16,
    /// Refresh interval in seconds.
    pub refresh_secs: u64,
    /// Whether the refresh interval changed since the event loop started.
    pub refresh_changed: bool,
    /// Whether a rescan is wanted (e.g. after a kill).
    pub needs_rescan: bool,
    /// The row the process table highlights (`None` when it is empty).
    pub table_selected: Option<usize>,
    pub focus: FocusPanel,
    /// Show only Node servers and their tree parents.
    pub node_only: bool,
}

/// `p` matches `filter`: the filter is empty, or its lowercase form occurs
/// in the lowercase name, command, framework or runtime, or in the decimal
/// PID or one of the decimal ports.
pub open spec fn filter_matches(p: ProcessView, filter: Seq<char>) -> bool {
    let f = unicode_lowercase(filter);
    ||| filter.len() == 0
    ||| has_substring(unicode_lowercase(p.name), f)
    ||| has_substring(unicode_lowercase(p.command), f)
    ||| has_substring(decimal(p.pid as nat), f)
    ||| has_substring(unicode_lowercase(p.framework.label()), f)
    ||| (p.runtime is Some && has_substring(unicode_lowercase(p.runtime->0.label()), f))
    ||| exists|i: int| 0 <= i < p.ports.len() && has_substring(decimal(#[trigger] p.ports[i] as nat), f)
}

/// The row the table highlights for a list of `len` rows.
pub open spec fn table_row(len: nat, selected: usize) -> Option<usize> {
    if len == 0 {
        None
    } else {
        Some(selected)
    }
}

impl App {
    /// A fresh view: nothing scanned, first row selected, sorted by PID
    /// ascending, newly seen parents expanded, refreshing at the configured
    /// interval.
    pub fn new(config: Config) -> (app: App)
        ensures
            app.config == config,
            app.raw_processes@.len() == 0,
            app.process_trees@.len() == 0,
            app.flat_list@.len() == 0,
            app.selected_index == 0,
            app.selected_pids@.is_empty(),
            app.active_tab == DetailTab::Info,
            app.expanded_pids@.is_empty(),
            app.dialog is None,
            app.signal_picker_index == 0,
            app.filter_text@.len() == 0,
            !app.filter_active,
            app.sort_column == SortColumn::Pid,
            app.sort_ascending,
            app.log_scroll == 0 && app.detail_scroll == 0,
            app.detail_content_lines == 0 && app.detail_view_height == 0,
            !app.should_quit,
            app.system_cpu_bits == 0 && app.system_memory_used == 0 && app.system_memory_total == 0,
            app.kill_in_progress is None,
            app.tick_count == 0,
            app.known_pids@.is_empty(),
            app.default_expanded,
            app.help_scroll == 0 && app.help_max_scroll == 0,
            app.refresh_secs == config.general.refresh_interval,
            !app.refresh_changed && !app.needs_rescan,
            app.table_selected == Some(0usize),
            app.focus == FocusPanel::ProcessList,
            !app.node_only,
    {
        let refresh = config.general.refresh_interval;
        App {
            config,
            raw_processes: Vec::new(),
            process_trees: Vec::new(),
            flat_list: Vec::new(),
            selected_index: 0,
            selected_pids: HashSet::new(),
            active_tab: DetailTab::Info,
            expanded_pids: HashSet::new(),
            dialog: None,
            signal_picker_index: 0,
            filter_text: String::new(),
            filter_active: false,
            sort_column: SortColumn::Pid,
            sort_ascending: true,
            log_scroll: 0,
            detail_scroll: 0,
            detail_content_lines: 0,
            detail_view_height: 0,
            should_quit: false,
            system_cpu_bits: 0,
            system_memory_used: 0,
            system_memory_total: 0,
            kill_in_progress: None,
            tick_count: 0,
            known_pids: HashSet::new(),
            default_expanded: true,
            help_scroll: 0,
            help_max_scroll: 0,
            refresh_secs: refresh,
            refresh_changed: false,
            needs_rescan: false,
            table_selected: Some(0),
            focus: FocusPanel::ProcessList,
            node_only: false,
        }
    }

    /// True if `p` matches `filter` (case-insensitive substring of the name,
    /// command, framework or runtime; digit substring of the PID or a port).
    /// An empty filter matches everything.
    pub fn matches_filter(p: &ProcessInfo, filter: &str) -> (r: bool)
        ensures
            r == filter_matches(p@, filter@),
    {
        let raw = chars_of(filter);
        if raw.len() == 0 {
            return true;
        }
        let fl = to_lowercase(filter);
        let f = chars_of(fl.as_str());
        let name = to_lowercase(p.name.as_str());
        if contains_chars(&chars_of(name.as_str()), &f) {
            return true;
        }
        let command = to_lowercase(p.command.as_str());
        if contains_chars(&chars_of(command.as_str()), &f) {
            return true;
        }
        if contains_chars(&decimal_chars(p.pid as u64), &f) {
            return true;
        }
        let fw = p.framework.to_string();
        let fwl = to_lowercase(fw.as_str());
        if contains_chars(&chars_of(fwl.as_str()), &f) {
            return true;
        }
        match p.runtime {
            Some(rt) => {
                let rs = rt.to_string();
                let rl = to_lowercase(rs.as_str());
                if contains_chars(&chars_of(rl.as_str()), &f) {
                    return true;
                }
            },
            None => {},
        }
        let mut i: usize = 0;
        while i < p.ports.len()
            invariant
                i <= p.ports.len(),
                f@ == unicode_lowercase(filter@),
                forall|j: int| 0 <= j < i ==> !has_substring(decimal(#[trigger] p.ports@[j] as nat), f@),
            decreases p.ports.len() - i,
        {
            if contains_chars(&decimal_chars(p.ports[i] as u64), &f) {
                assert(has_substring(decimal(p@.ports[i as int] as nat), f@));
                return true;
            }
            i += 1;
        }
        false
    }

    /// Point the table's highlight at the selected row (none when empty).
    fn sync_table_state(&mut self)
        ensures
            *final(self) == (App { table_selected: table_row(old(self).flat_list@.len(), old(self).selected_index), ..*old(self) }),
    {
        if self.flat_list.len() == 0 {
            self.table_selected = None;
        } else {
            self.table_selected = Some(self.selected_index);
        }
    }

    /// Reset the scroll offsets after the selection moved.
    fn on_selection_changed(&mut self)
        ensures
            *final(self) == (App {
                log_scroll: 0,
                detail_scroll: 0,
                table_selected: table_row(old(self).flat_list@.len(), old(self).selected_index),
                ..*old(self)
            }),
    {
        self.log_scroll = 0;
        self.detail_scroll = 0;
        self.sync_table_state();
    }

    /// The process on the selected row, if there is one.
    pub fn selected_process(&self) -> (r: Option<&ProcessInfo>)
        ensures
            match r {
                Some(p) => self.selected_index < self.flat_list@.len() && *p == self.flat_list@[self.selected_index as int].0,
                None => self.selected_index >= self.flat_list@.len(),
            },
    {
        if self.selected_index < self.flat_list.len() {
            Some(&self.flat_list[self.selected_index].0)
        } else {
            None
        }
    }

    /// Move the selection one row up (not past the first row).
    pub fn move_up(&mut self)
        ensures
            moved_up(*old(self), *final(self)),
    {
        if self.selected_index > 0 {
            self.selected_index -= 1;
            self.on_selection_changed();
        }
    }

    /// Move the selection one row down (not past the last row).
    pub fn move_down(&mut self)
        ensures
            moved_down(*old(self), *final(self)),
    {
        if self.flat_list.len() > 0 && self.selected_index < self.flat_list.len() - 1 {
            self.selected_index += 1;
            self.on_selection_changed();
        }
    }

    /// Add the selected row's PID to the multi-selection, or take it out.
    pub fn toggle_select(&mut self)
        ensures
            select_toggled(*old(self), *final(self)),
    {
        if self.selected_index < self.flat_list.len() {
            let pid = self.flat_list[self.selected_index].0.pid;
            if self.selected_pids.contains(&pid) {
                self.selected_pids.remove(&pid);
            } else {
                self.selected_pids.insert(pid);
            }
        }
    }

    /// Show the next detail tab, scrolled to the top.
    pub fn next_tab(&mut self)
        ensures
            next_tabbed(*old(self), *final(self)),
    {
        self.active_tab = self.active_tab.next();
        self.detail_scroll = 0;
    }

    /// Show the previous detail tab, scrolled to the top.
    pub fn prev_tab(&mut self)
        ensures
            prev_tabbed(*old(self), *final(self)),
    {
        self.active_tab = self.active_tab.prev();
        self.detail_scroll = 0;
    }

    /// Sort by the next column, ascending.
    pub fn toggle_sort(&mut self)
        ensures
            sort_toggled(*old(self), *final(self)),
    {
        let next = self.sort_column.next();
        if next == self.sort_column {
            self.sort_ascending = !self.sort_ascending;
        } else {
            self.sort_column = next;
            self.sort_ascending = true;
        }
    }

    /// The signal on the picker's row (the row taken modulo the number of
    /// signals).
    pub fn selected_kill_signal(&self) -> (s: KillSignal)
        ensures
            s == KillSignal::all_signals()[self.signal_picker_index as int % KillSignal::all_signals().len() as int],
    {
        let signals = KillSignal::all();
        signals[self.signal_picker_index % signals.len()]
    }

    /// How far the detail panel can scroll: content lines beyond the view
    /// (0 when everything fits).
    pub fn detail_max_scroll(&self) -> (m: u16)
        ensures
            m == (if self.detail_content_lines > self.detail_view_height {
                (self.detail_content_lines - self.detail_view_height) as u16
            } else {
                0u16
            }),
    {
        self.detail_content_lines.saturating_sub(self.detail_view_height)
    }

    /// Keep the detail and log scroll offsets within the scrollable range.
    pub fn clamp_detail_scroll(&mut self)
        ensures
            ({
                let max = if old(self).detail_content_lines > old(self).detail_view_height {
                    (old(self).detail_content_lines - old(self).detail_view_height) as u16
                } else {
                    0u16
                };
                *final(self) == (App {
                    detail_scroll: if old(self).detail_scroll < max { old(self).detail_scroll } else { max },
                    log_scroll: if old(self).log_scroll < max { old(self).log_scroll } else { max },
                    ..*old(self)
                })
            }),
    {
        let max = self.detail_max_scroll();
        if self.detail_scroll > max {
            self.detail_scroll = max;
        }
        if self.log_scroll > max {
            self.log_scroll = max;
        }
    }
}

// ─── Rows on screen ──────────────────────────────────────────────────

/// The placeholder for a child of a collapsed row: a fresh record with
/// only its PID and name.
pub open spec fn stub_of(c: ProcessView) -> ProcessView {
    fresh_view(c.pid, c.name)
}

/// How a process is shown: as it is when expanded; otherwise with its
/// children replaced by placeholders (kept so the row can show that it
/// has children).
pub open spec fn shown(n: ProcessView, expanded: Set<u32>) -> ProcessView {
    if expanded.contains(n.pid) {
        n
    } else {
        with_children(n, n.children.map_values(|c: ProcessView| stub_of(c)))
    }
}

/// The rows of a tree: its root at depth `d`, then, when the root has
/// children and is expanded, the rows of each child one level deeper.
pub open spec fn rows_of_node(n: ProcessView, d: int, expanded: Set<u32>) -> Seq<(ProcessView, int)>
    decreases n,
{
    seq![(shown(n, expanded), d)] + if n.children.len() > 0 && expanded.contains(n.pid) {
        rows_of(n.children, d + 1, expanded)
    } else {
        Seq::empty()
    }
}

/// The rows of a forest, tree after tree.
pub open spec fn rows_of(s: Seq<ProcessView>, d: int, expanded: Set<u32>) -> Seq<(ProcessView, int)>
    decreases s,
{
    if s.len() == 0 {
        Seq::empty()
    } else {
        rows_of(s.drop_last(), d, expanded) + rows_of_node(s.last(), d, expanded)
    }
}

/// Rows as values.
pub open spec fn row_views(v: Seq<(ProcessInfo, usize)>) -> Seq<(ProcessView, int)> {
    v.map_values(|e: (ProcessInfo, usize)| (e.0@, e.1 as int))
}

/// The selection kept on a list of `len` rows: moved to the last row when
/// it fell off the end.
pub open spec fn clamp_index(i: usize, len: nat) -> usize {
    if i >= len && len > 0 {
        (len - 1) as usize
    } else {
        i
    }
}

/// Whether the first process with `pid` met in a level has children, the
/// levels searched depth first: a match decides for its own level, and a
/// `false` from below lets the search go on with the next tree.
pub open spec fn has_kids_find(s: Seq<ProcessView>, pid: u32) -> bool
    decreases s,
{
    if s.len() == 0 {
        false
    } else if s[0].pid == pid {
        s[0].children.len() > 0
    } else {
        proof {
            assert(decreases_to!(s => s[0]));
            assert(decreases_to!(s[0] => s[0].children));
        }
        if has_kids_find(s[0].children, pid) {
            true
        } else {
            has_kids_find(s.drop_first(), pid)
        }
    }
}

/// The PIDs of the processes that have children, found by descending
/// only into such processes.
pub open spec fn parent_pids(s: Seq<ProcessView>) -> Set<u32>
    decreases s,
{
    if s.len() == 0 {
        Set::empty()
    } else {
        let n = s.last();
        parent_pids(s.drop_last()) + if n.children.len() > 0 {
            set![n.pid] + parent_pids(n.children)
        } else {
            Set::empty()
        }
    }
}

/// The process is shown given the Node-only switch and the filter.
pub open spec fn visible(p: ProcessView, node_only: bool, filter: Seq<char>) -> bool {
    (!node_only || p.runtime == Some(Runtime::Node) || p.runtime is None) && filter_matches(p, filter)
}

/// `visible` as a predicate.
pub open spec fn visible_pred(node_only: bool, filter: Seq<char>) -> spec_fn(ProcessView) -> bool {
    |p: ProcessView| visible(p, node_only, filter)
}

/// The row `i` is the nearest row above `idx` that is shallower than `d`.
pub open spec fn is_parent_row(rows: Seq<(ProcessView, int)>, idx: int, d: int, i: int) -> bool {
    0 <= i < idx && rows[i].1 < d && forall|j: int| i < j < idx ==> rows[j].1 >= d
}

fn flatten_recursive(node: &ProcessInfo, depth: usize, expanded: &HashSet<u32>, result: &mut Vec<(ProcessInfo, usize)>)
    requires
        old(result)@.len() >= depth,
    ensures
        row_views(final(result)@) == row_views(old(result)@) + rows_of_node(node@, depth as int, expanded@),
        final(result)@.len() >= old(result)@.len(),
    decreases node,
{
    let ghost start = row_views(result@);
    let ghost kids = views(node.children@);
    proof {
        lemma_pviews_views(node.children@);
    }
    let mut display = node.duplicate();
    let has_children = node.children.len() > 0;
    let is_expanded = expanded.contains(&node.pid);
    if !is_expanded {
        let mut stubs: Vec<ProcessInfo> = Vec::new();
        let mut i: usize = 0;
        while i < node.children.len()
            invariant
                i <= node.children.len(),
                kids == views(node.children@),
                views(stubs@) == kids.take(i as int).map_values(|c: ProcessView| stub_of(c)),
            decreases node.children.len() - i,
        {
            let c = &node.children[i];
            let mut stub = ProcessInfo::new(c.pid, c.name.as_str());
            stub.children = Vec::new();
            let ghost prev = stubs@;
            stubs.push(stub);
            proof {
                assert(ProcessInfo::pviews(stub.children@) =~= Seq::<ProcessView>::empty());
                assert(stub@ == stub_of(kids[i as int]));
                assert(views(stubs@) =~= views(prev).push(stub@));
                assert(kids.take(i + 1).map_values(|c: ProcessView| stub_of(c)) =~= kids.take(i as int).map_values(
                    |c: ProcessView| stub_of(c),
                ).push(stub_of(kids[i as int])));
            }
            i += 1;
        }
        assert(kids.take(kids.len() as int) =~= kids);
        display.children = stubs;
        proof {
            lemma_pviews_views(display.children@);
        }
    }
    assert(display@ == shown(node@, expanded@));
    result.push((display, depth));
    assert(row_views(result@) =~= start + seq![(shown(node@, expanded@), depth as int)]);
    assert(result.len() >= depth + 1);
    if has_children && is_expanded {
        let mut i: usize = 0;
        assert(kids.take(0) =~= Seq::<ProcessView>::empty());
        while i < node.children.len()
            invariant
                i <= node.children.len(),
                kids == views(node.children@),
                kids == node@.children,
                result.len() >= depth + 1,
                result@.len() >= start.len() + 1,
                row_views(result@) == start + seq![(shown(node@, expanded@), depth as int)] + rows_of(
                    kids.take(i as int),
                    depth + 1,
                    expanded@,
                ),
            decreases node.children.len() - i,
        {
            assert(decreases_to!(node => node.children@[i as int]));
            assert(kids[i as int] == node.children@[i as int]@);
            flatten_recursive(&node.children[i], depth + 1, expanded, result);
            proof {
                assert(kids.take(i + 1).drop_last() =~= kids.take(i as int));
                assert(kids.take(i + 1).last() == kids[i as int]);
            }
            i += 1;
        }
        assert(kids.take(kids.len() as int) =~= kids);
    } else {
        assert(row_views(result@) =~= start + rows_of_node(node@, depth as int, expanded@));
    }
}

impl App {
    /// The rows of the trees: every process down to the collapsed ones,
    /// each with its depth.
    fn flatten_with_expand(trees: &Vec<ProcessInfo>, expanded: &HashSet<u32>) -> (r: Vec<(ProcessInfo, usize)>)
        ensures
            row_views(r@) == rows_of(views(trees@), 0, expanded@),
    {
        let ghost s = views(trees@);
        let mut result: Vec<(ProcessInfo, usize)> = Vec::new();
        let mut i: usize = 0;
        assert(s.take(0) =~= Seq::<ProcessView>::empty());
        assert(row_views(result@) =~= Seq::<(ProcessView, int)>::empty());
        while i < trees.len()
            invariant
                i <= trees.len(),
                s == views(trees@),
                row_views(result@) == rows_of(s.take(i as int), 0, expanded@),
            decreases trees.len() - i,
        {
            flatten_recursive(&trees[i], 0, expanded, &mut result);
            proof {
                assert(s.take(i + 1).drop_last() =~= s.take(i as int));
                assert(s.take(i + 1).last() == s[i as int]);
            }
            i += 1;
        }
        assert(s.take(s.len() as int) =~= s);
        result
    }
}

fn find_has_children(trees: &Vec<ProcessInfo>, pid: u32) -> (r: bool)
    ensures
        r == has_kids_find(views(trees@), pid),
    decreases trees,
{
    let ghost s = views(trees@);
    let mut i: usize = 0;
    assert(s.skip(0) =~= s);
    while i < trees.len()
        invariant
            i <= trees.len(),
            s == views(trees@),
            has_kids_find(s, pid) == has_kids_find(s.skip(i as int), pid),
        decreases trees.len() - i,
    {
        let tree = &trees[i];
        let ghost rest = s.skip(i as int);
        assert(rest[0] == tree@);
        assert(rest.drop_first() =~= s.skip(i + 1));
        proof {
            lemma_pviews_views(tree.children@);
        }
        if tree.pid == pid {
            return tree.children.len() > 0;
        }
        assert(decreases_to!(trees => trees@[i as int]));
        assert(decreases_to!(trees@[i as int] => trees@[i as int].children));
        if find_has_children(&tree.children, pid) {
            return true;
        }
        i += 1;
    }
    assert(s.skip(s.len() as int) =~= Seq::<ProcessView>::empty());
    false
}

fn collect_all_pids(trees: &Vec<ProcessInfo>, set: &mut HashSet<u32>)
    ensures
        final(set)@ == old(set)@ + parent_pids(views(trees@)),
    decreases trees,
{
    let ghost s = views(trees@);
    let ghost start = set@;
    let mut i: usize = 0;
    assert(s.take(0) =~= Seq::<ProcessView>::empty());
    assert(set@ =~= start + parent_pids(s.take(0)));
    while i < trees.len()
        invariant
            i <= trees.len(),
            s == views(trees@),
            set@ == start + parent_pids(s.take(i as int)),
        decreases trees.len() - i,
    {
        let tree = &trees[i];
        proof {
            lemma_pviews_views(tree.children@);
            assert(s.take(i + 1).drop_last() =~= s.take(i as int));
            assert(s.take(i + 1).last() == tree@);
        }
        if tree.children.len() > 0 {
            set.insert(tree.pid);
            assert(decreases_to!(trees => trees@[i as int]));
            assert(decreases_to!(trees@[i as int] => trees@[i as int].children));
            collect_all_pids(&tree.children, set);
            assert(set@ =~= start + parent_pids(s.take(i + 1)));
        } else {
            assert(set@ =~= start + parent_pids(s.take(i + 1)));
        }
        i += 1;
    }
    assert(s.take(s.len() as int) =~= s);
}

/// The nearest row above `idx` that is shallower than `depth`.
fn parent_row(rows: &Vec<(ProcessInfo, usize)>, idx: usize, depth: usize) -> (r: Option<usize>)
    requires
        idx < rows.len(),
    ensures
        match r {
            Some(i) => exists|w: int| is_parent_row(row_views(rows@), idx as int, depth as int, w)
                && i == choose|w: int| is_parent_row(row_views(rows@), idx as int, depth as int, w),
            None => !exists|w: int| is_parent_row(row_views(rows@), idx as int, depth as int, w),
        },
{
    let ghost rv = row_views(rows@);
    let mut i: usize = idx;
    let mut found = false;
    while i > 0 && !found
        invariant
            i <= idx < rows.len(),
            rv == row_views(rows@),
            forall|j: int| (if found { i + 1 } else { i as int }) <= j < idx ==> rv[j].1 >= depth,
            found ==> i < idx && rv[i as int].1 < depth,
        decreases i,
    {
        let k = i - 1;
        assert(rv[k as int].1 == rows@[k as int].1);
        if rows[k].1 < depth {
            found = true;
        }
        i = k;
    }
    if found {
        assert(is_parent_row(rv, idx as int, depth as int, i as int));
        let ghost w = choose|w: int| is_parent_row(rv, idx as int, depth as int, w);
        assert(w == i) by {
            if w < i {
                assert(rv[i as int].1 >= depth);
            } else if w > i {
                assert(rv[w].1 >= depth);
            }
        }
        Some(i)
    } else {
        assert forall|w: int| !is_parent_row(rv, idx as int, depth as int, w) by {
            if 0 <= w < idx {
                assert(rv[w].1 >= depth);
            }
        }
        None
    }
}

impl App {
    /// `self` with the rows, expansion set and selection replaced, the
    /// table highlight following the selection.
    pub open spec fn with_rows(
        self,
        expanded: HashSet<u32>,
        flat_list: Vec<(ProcessInfo, usize)>,
        selected: usize,
    ) -> App {
        App {
            expanded_pids: expanded,
            flat_list,
            selected_index: selected,
            table_selected: table_row(flat_list@.len(), selected),
            ..self
        }
    }

    /// Whether the first process with the PID found in the trees has
    /// children.
    fn has_children_in_tree(&self, pid: u32) -> (r: bool)
        ensures
            r == has_kids_find(views(self.process_trees@), pid),
    {
        find_has_children(&self.process_trees, pid)
    }

    /// The first process with the PID in the trees, depth first.
    pub fn find_process_in_trees(&self, pid: u32) -> (r: Option<&ProcessInfo>)
        ensures
            match r {
                Some(p) => first_found(views(self.process_trees@), pid, p@),
                None => !in_forest(views(self.process_trees@), pid),
            },
    {
        find_in(&self.process_trees, pid)
    }

    /// Expand or collapse the selected row's children (when it has any in
    /// the trees), keeping the selection on the list.
    #[verifier::rlimit(60)]
    #[verifier::spinoff_prover]
    pub fn toggle_expand(&mut self)
        ensures
            expand_toggled(*old(self), *final(self)),
    {
        if self.selected_index < self.flat_list.len() {
            let pid = self.flat_list[self.selected_index].0.pid;
            if self.has_children_in_tree(pid) {
                if self.expanded_pids.contains(&pid) {
                    self.expanded_pids.remove(&pid);
                } else {
                    self.expanded_pids.insert(pid);
                }
                self.flat_list = Self::flatten_with_expand(&self.process_trees, &self.expanded_pids);
                if self.selected_index >= self.flat_list.len() && self.flat_list.len() > 0 {
                    self.selected_index = self.flat_list.len() - 1;
                }
                self.sync_table_state();
            }
        }
    }

    /// Right arrow: expand the selected row; when it is already expanded,
    /// move to the row below.
    pub fn expand_selected(&mut self)
        ensures
            selected_expanded(*old(self), *final(self)),
    {
        if self.selected_index < self.flat_list.len() {
            let pid = self.flat_list[self.selected_index].0.pid;
            if self.has_children_in_tree(pid) {
                if self.expanded_pids.contains(&pid) {
                    if self.selected_index + 1 < self.flat_list.len() {
                        self.selected_index += 1;
                        self.on_selection_changed();
                    }
                } else {
                    self.expanded_pids.insert(pid);
                    self.flat_list = Self::flatten_with_expand(&self.process_trees, &self.expanded_pids);
                    self.sync_table_state();
                }
            }
        }
    }

    /// Left arrow: collapse the selected row when it is expanded; otherwise
    /// move to its parent row (the nearest row above that is shallower).
    #[verifier::rlimit(60)]
    #[verifier::spinoff_prover]
    pub fn collapse_selected(&mut self)
        ensures
            selected_collapsed(*old(self), *final(self)),
    {
        if self.selected_index < self.flat_list.len() {
            let pid = self.flat_list[self.selected_index].0.pid;
            let depth = self.flat_list[self.selected_index].1;
            if self.expanded_pids.contains(&pid) {
                self.expanded_pids.remove(&pid);
                self.flat_list = Self::flatten_with_expand(&self.process_trees, &self.expanded_pids);
                if self.selected_index >= self.flat_list.len() && self.flat_list.len() > 0 {
                    self.selected_index = self.flat_list.len() - 1;
                }
                self.sync_table_state();
            } else {
                match parent_row(&self.flat_list, self.selected_index, depth) {
                    Some(i) => {
                        self.selected_index = i;
                        self.on_selection_changed();
                    },
                    None => {},
                }
            }
        }
    }

    /// Expand every process with children when nothing is expanded (and let
    /// new parents start expanded); otherwise collapse everything (and let
    /// new parents start collapsed).
    pub fn toggle_expand_all(&mut self)
        ensures
            all_expand_toggled(*old(self), *final(self)),
    {
        let ghost o = *self;
        if self.expanded_pids.is_empty() {
            assert(self.expanded_pids@ =~= Set::<u32>::empty());
            collect_all_pids(&self.process_trees, &mut self.expanded_pids);
            assert(self.expanded_pids@ =~= parent_pids(views(o.process_trees@)));
            self.default_expanded = true;
        } else {
            self.expanded_pids.clear();
            self.default_expanded = false;
        }
        self.flat_list = Self::flatten_with_expand(&self.process_trees, &self.expanded_pids);
        if self.selected_index >= self.flat_list.len() && self.flat_list.len() > 0 {
            self.selected_index = self.flat_list.len() - 1;
        }
        self.sync_table_state();
    }
}

/// The trees shown for a scan: the visible processes built into trees and
/// sorted by the column.
pub open spec fn view_trees(
    raw: Seq<ProcessView>,
    node_only: bool,
    filter: Seq<char>,
    col: SortColumn,
    ascending: bool,
) -> Seq<ProcessView> {
    sort_forest(forest_of(raw.filter(visible_pred(node_only, filter))), col, ascending)
}

/// `f` is `o` with its view rebuilt: the trees are the last scan seen
/// through `o`'s Node-only switch and filter and sorted by `o`'s column,
/// the rows are those trees as expanded, the selection is kept on the list,
/// and nothing else changed.
pub open spec fn view_rebuilt(o: App, f: App) -> bool {
    let len = f.flat_list@.len();
    let idx = if len == 0 {
        0usize
    } else {
        clamp_index(o.selected_index, len)
    };
    &&& views(f.process_trees@) == view_trees(
        views(o.raw_processes@),
        o.node_only,
        o.filter_text@,
        o.sort_column,
        o.sort_ascending,
    )
    &&& row_views(f.flat_list@) == rows_of(views(f.process_trees@), 0, o.expanded_pids@)
    &&& f == (App {
        process_trees: f.process_trees,
        flat_list: f.flat_list,
        selected_index: idx,
        table_selected: table_row(len, idx),
        ..o
    })
}

/// The PIDs of a list of processes.
pub open spec fn pid_set(s: Seq<ProcessView>) -> Set<u32> {
    Set::new(|q: u32| pid_listed(s, q))
}

impl App {
    /// Apply the Node-only switch and the filter to the last scan, build
    /// and sort the trees, list the rows and keep the selection on the list
    /// (on the first row when the list is empty).
    #[verifier::rlimit(60)]
    #[verifier::spinoff_prover]
    pub fn rebuild_view(&mut self)
        ensures
            ({
                let o = *old(self);
                let len = final(self).flat_list@.len();
                let idx = if len == 0 {
                    0usize
                } else {
                    clamp_index(o.selected_index, len)
                };
                &&& views(final(self).process_trees@) == view_trees(
                    views(o.raw_processes@),
                    o.node_only,
                    o.filter_text@,
                    o.sort_column,
                    o.sort_ascending,
                )
                &&& row_views(final(self).flat_list@) == rows_of(views(final(self).process_trees@), 0, o.expanded_pids@)
                &&& *final(self) == (App {
                    process_trees: final(self).process_trees,
                    flat_list: final(self).flat_list,
                    selected_index: idx,
                    table_selected: table_row(len, idx),
                    ..o
                })
            }),
    {
        let ghost raw = views(self.raw_processes@);
        let ghost pred = visible_pred(self.node_only, self.filter_text@);
        let node_only = self.node_only;
        let mut processes: Vec<ProcessInfo> = Vec::new();
        let mut i: usize = 0;
        assert(raw.take(0) =~= Seq::<ProcessView>::empty());
        reveal(Seq::filter);
        assert(views(processes@) =~= raw.take(0).filter(pred));
        while i < self.raw_processes.len()
            invariant
                i <= self.raw_processes.len(),
                raw == views(self.raw_processes@),
                pred == visible_pred(self.node_only, self.filter_text@),
                node_only == self.node_only,
                views(processes@) == raw.take(i as int).filter(pred),
            decreases self.raw_processes.len() - i,
        {
            let p = &self.raw_processes[i];
            proof {
                lemma_filter_step(raw, pred, i as int);
            }
            let keep_runtime = !node_only || p.is_node() || p.runtime.is_none();
            if keep_runtime && Self::matches_filter(p, self.filter_text.as_str()) {
                let ghost prev = processes@;
                processes.push(p.duplicate());
                assert(views(processes@) =~= views(prev).push(p@));
            }
            i += 1;
        }
        assert(raw.take(raw.len() as int) =~= raw);
        let mut trees = TreeBuilder::build(processes);
        TreeBuilder::sort_recursive(&mut trees, self.sort_column, self.sort_ascending);
        self.process_trees = trees;
        self.flat_list = Self::flatten_with_expand(&self.process_trees, &self.expanded_pids);
        if self.flat_list.len() > 0 {
            if self.selected_index >= self.flat_list.len() {
                self.selected_index = self.flat_list.len() - 1;
            }
        } else {
            self.selected_index = 0;
        }
        self.sync_table_state();
    }

    /// Store a fresh scan and rebuild the view. While new parents start
    /// expanded, every PID not seen in the previous scan is expanded.
    #[verifier::rlimit(60)]
    #[verifier::spinoff_prover]
    pub fn update_processes(&mut self, processes: Vec<ProcessInfo>)
        ensures
            ({
                let o = *old(self);
                let e = if o.default_expanded {
                    o.expanded_pids@ + pid_set(views(processes@)).difference(o.known_pids@)
                } else {
                    o.expanded_pids@
                };
                let len = final(self).flat_list@.len();
                let idx = if len == 0 {
                    0usize
                } else {
                    clamp_index(o.selected_index, len)
                };
                &&& final(self).expanded_pids@ == e
                &&& final(self).known_pids@ == pid_set(views(processes@))
                &&& views(final(self).raw_processes@) == views(processes@)
                &&& views(final(self).process_trees@) == view_trees(
                    views(processes@),
                    o.node_only,
                    o.filter_text@,
                    o.sort_column,
                    o.sort_ascending,
                )
                &&& row_views(final(self).flat_list@) == rows_of(views(final(self).process_trees@), 0, e)
                &&& *final(self) == (App {
                    expanded_pids: final(self).expanded_pids,
                    known_pids: final(self).known_pids,
                    raw_processes: final(self).raw_processes,
                    process_trees: final(self).process_trees,
                    flat_list: final(self).flat_list,
                    selected_index: idx,
                    table_selected: table_row(len, idx),
                    ..o
                })
            }),
    {
        let ghost pv = views(processes@);
        let ghost e0 = self.expanded_pids@;
        let ghost k0 = self.known_pids@;
        let ghost orig = *self;
        if self.default_expanded {
            let mut i: usize = 0;
            while i < processes.len()
                invariant
                    i <= processes.len(),
                    pv == views(processes@),
                    k0 == self.known_pids@,
                    self.expanded_pids@ == e0 + pid_set(pv.take(i as int)).difference(k0),
                    *self == (App { expanded_pids: self.expanded_pids, ..orig }),
                    orig.known_pids@ == k0,
                    orig.expanded_pids@ == e0,
                decreases processes.len() - i,
            {
                let pid = processes[i].pid;
                if !self.known_pids.contains(&pid) {
                    self.expanded_pids.insert(pid);
                }
                proof {
                    assert(pv.take(i + 1)[i as int].pid == pid);
                    assert forall|q: u32| #[trigger] pid_set(pv.take(i + 1)).contains(q) <==> (pid_set(pv.take(i as int)).contains(q) || q == pid) by {
                        if pid_listed(pv.take(i + 1), q) && q != pid {
                            let j = choose|j: int| 0 <= j < pv.take(i + 1).len() && #[trigger] pv.take(i + 1)[j].pid == q;
                            assert(pv.take(i as int)[j] == pv.take(i + 1)[j]);
                        }
                        if pid_listed(pv.take(i as int), q) {
                            let j = choose|j: int| 0 <= j < pv.take(i as int).len() && #[trigger] pv.take(i as int)[j].pid == q;
                            assert(pv.take(i as int)[j] == pv.take(i + 1)[j]);
                        }
                    }
                    assert(self.expanded_pids@ =~= e0 + pid_set(pv.take(i + 1)).difference(k0));
                }
                i += 1;
            }
            assert(pv.take(pv.len() as int) =~= pv);
        }
        let ghost after_expand = *self;
        let mut known: HashSet<u32> = HashSet::new();
        let mut i: usize = 0;
        assert(known@ =~= pid_set(pv.take(0)));
        while i < processes.len()
            invariant
                *self == after_expand,
                i <= processes.len(),
                pv == views(processes@),
                known@ == pid_set(pv.take(i as int)),
            decreases processes.len() - i,
        {
            let pid = processes[i].pid;
            known.insert(pid);
            proof {
                assert(pv.take(i + 1)[i as int].pid == pid);
                assert forall|q: u32| #[trigger] pid_set(pv.take(i + 1)).contains(q) <==> (pid_set(pv.take(i as int)).contains(q) || q == pid) by {
                    if pid_listed(pv.take(i + 1), q) && q != pid {
                        let j = choose|j: int| 0 <= j < pv.take(i + 1).len() && #[trigger] pv.take(i + 1)[j].pid == q;
                        assert(pv.take(i as int)[j] == pv.take(i + 1)[j]);
                    }
                    if pid_listed(pv.take(i as int), q) {
                        let j = choose|j: int| 0 <= j < pv.take(i as int).len() && #[trigger] pv.take(i as int)[j].pid == q;
                        assert(pv.take(i as int)[j] == pv.take(i + 1)[j]);
                    }
                }
                assert(known@ =~= pid_set(pv.take(i + 1)));
            }
            i += 1;
        }
        assert(pv.take(pv.len() as int) =~= pv);
        self.known_pids = known;
        self.raw_processes = processes;
        proof {
            let mid = *self;
            assert(mid == (App {
                expanded_pids: mid.expanded_pids,
                known_pids: mid.known_pids,
                raw_processes: mid.raw_processes,
                ..orig
            }));
            assert(mid.expanded_pids@ == (if orig.default_expanded {
                orig.expanded_pids@ + pid_set(pv).difference(orig.known_pids@)
            } else {
                orig.expanded_pids@
            }));
        }
        self.rebuild_view();
    }

    /// Switch the Node-only view on or off and rebuild.
    pub fn toggle_node_only(&mut self)
        ensures
            ({
                let o = *old(self);
                let len = final(self).flat_list@.len();
                let idx = if len == 0 {
                    0usize
                } else {
                    clamp_index(o.selected_index, len)
                };
                &&& final(self).node_only == !o.node_only
                &&& views(final(self).process_trees@) == view_trees(
                    views(o.raw_processes@),
                    !o.node_only,
                    o.filter_text@,
                    o.sort_column,
                    o.sort_ascending,
                )
                &&& row_views(final(self).flat_list@) == rows_of(views(final(self).process_trees@), 0, o.expanded_pids@)
                &&& *final(self) == (App {
                    node_only: !o.node_only,
                    process_trees: final(self).process_trees,
                    flat_list: final(self).flat_list,
                    selected_index: idx,
                    table_selected: table_row(len, idx),
                    ..o
                })
            }),
    {
        self.node_only = !self.node_only;
        self.rebuild_view();
    }
}

// ─── State transitions ───────────────────────────────────────────────

/// The selection moved one row up (when not already on the first row).
pub open spec fn moved_up(o: App, f: App) -> bool {
    f == (if o.selected_index > 0 {
        App {
            selected_index: (o.selected_index - 1) as usize,
            log_scroll: 0,
            detail_scroll: 0,
            table_selected: table_row(o.flat_list@.len(), (o.selected_index - 1) as usize),
            ..o
        }
    } else {
        o
    })
}

/// The selection moved one row down (when not already on the last row).
pub open spec fn moved_down(o: App, f: App) -> bool {
    f == (if o.selected_index + 1 < o.flat_list@.len() {
        App {
            selected_index: (o.selected_index + 1) as usize,
            log_scroll: 0,
            detail_scroll: 0,
            table_selected: table_row(o.flat_list@.len(), (o.selected_index + 1) as usize),
            ..o
        }
    } else {
        o
    })
}

/// The next detail tab is shown, scrolled to the top.
pub open spec fn next_tabbed(o: App, f: App) -> bool {
    f == (App { active_tab: DetailTab::at(o.active_tab.index() + 1), detail_scroll: 0, ..o })
}

/// The previous detail tab is shown, scrolled to the top.
pub open spec fn prev_tabbed(o: App, f: App) -> bool {
    f == (App { active_tab: DetailTab::at(o.active_tab.index() + 3), detail_scroll: 0, ..o })
}

/// The next sort column is chosen, ascending.
pub open spec fn sort_toggled(o: App, f: App) -> bool {
    f == (App {
        sort_column: SortColumn::at(o.sort_column.index() + 1),
        sort_ascending: true,
        ..o
    })
}

/// The selected row's children were shown or hidden.
pub open spec fn expand_toggled(o: App, f: App) -> bool {
    ({
        let o = o;
        let idx = o.selected_index;
        if idx < o.flat_list@.len() && has_kids_find(views(o.process_trees@), o.flat_list@[idx as int].0.pid) {
            let pid = o.flat_list@[idx as int].0.pid;
            let e = if o.expanded_pids@.contains(pid) {
                o.expanded_pids@.remove(pid)
            } else {
                o.expanded_pids@.insert(pid)
            };
            &&& f.expanded_pids@ == e
            &&& row_views(f.flat_list@) == rows_of(views(o.process_trees@), 0, e)
            &&& f == o.with_rows(
                f.expanded_pids,
                f.flat_list,
                clamp_index(idx, f.flat_list@.len()),
            )
        } else {
            f == o
        }
    })
}

/// The selected row was expanded, or the selection moved into it.
pub open spec fn selected_expanded(o: App, f: App) -> bool {
    ({
        let o = o;
        let idx = o.selected_index;
        if idx < o.flat_list@.len() && has_kids_find(views(o.process_trees@), o.flat_list@[idx as int].0.pid) {
            let pid = o.flat_list@[idx as int].0.pid;
            if o.expanded_pids@.contains(pid) {
                if idx + 1 < o.flat_list@.len() {
                    f == (App {
                        selected_index: (idx + 1) as usize,
                        log_scroll: 0,
                        detail_scroll: 0,
                        table_selected: table_row(o.flat_list@.len(), (idx + 1) as usize),
                        ..o
                    })
                } else {
                    f == o
                }
            } else {
                &&& f.expanded_pids@ == o.expanded_pids@.insert(pid)
                &&& row_views(f.flat_list@) == rows_of(views(o.process_trees@), 0, o.expanded_pids@.insert(pid))
                &&& f == o.with_rows(f.expanded_pids, f.flat_list, idx)
            }
        } else {
            f == o
        }
    })
}

/// The selected row was collapsed, or the selection moved to its parent row.
pub open spec fn selected_collapsed(o: App, f: App) -> bool {
    ({
        let o = o;
        let idx = o.selected_index;
        if idx < o.flat_list@.len() {
            let pid = o.flat_list@[idx as int].0.pid;
            let depth = o.flat_list@[idx as int].1;
            if o.expanded_pids@.contains(pid) {
                &&& f.expanded_pids@ == o.expanded_pids@.remove(pid)
                &&& row_views(f.flat_list@) == rows_of(views(o.process_trees@), 0, o.expanded_pids@.remove(pid))
                &&& f == o.with_rows(
                    f.expanded_pids,
                    f.flat_list,
                    clamp_index(idx, f.flat_list@.len()),
                )
            } else if depth > 0 && exists|i: int| is_parent_row(row_views(o.flat_list@), idx as int, depth as int, i) {
                let i = choose|i: int| is_parent_row(row_views(o.flat_list@), idx as int, depth as int, i);
                f == (App {
                    selected_index: i as usize,
                    log_scroll: 0,
                    detail_scroll: 0,
                    table_selected: table_row(o.flat_list@.len(), i as usize),
                    ..o
                })
            } else {
                f == o
            }
        } else {
            f == o
        }
    })
}

/// Every parent was expanded, or everything collapsed.
pub open spec fn all_expand_toggled(o: App, f: App) -> bool {
    ({
        let o = o;
        let e = if o.expanded_pids@.is_empty() {
            parent_pids(views(o.process_trees@))
        } else {
            Set::empty()
        };
        &&& f.expanded_pids@ == e
        &&& row_views(f.flat_list@) == rows_of(views(o.process_trees@), 0, e)
        &&& f == (App {
            default_expanded: o.expanded_pids@.is_empty(),
            ..o.with_rows(
                f.expanded_pids,
                f.flat_list,
                clamp_index(o.selected_index, f.flat_list@.len()),
            )
        })
    })
}

/// The selected row's PID was added to the multi-selection, or taken out.
pub open spec fn select_toggled(o: App, f: App) -> bool {
    &&& f.selected_pids@ == (if o.selected_index < o.flat_list@.len() {
        let pid = o.flat_list@[o.selected_index as int].0.pid;
        if o.selected_pids@.contains(pid) {
            o.selected_pids@.remove(pid)
        } else {
            o.selected_pids@.insert(pid)
        }
    } else {
        o.selected_pids@
    })
    &&& f == (App { selected_pids: f.selected_pids, ..o })
}

} // verus!

verus! {

// ─── Laws of the view ────────────────────────────────────────────────

/// The filter ignores case: two non-empty filters with the same lowercase
/// form match the same processes.
pub proof fn law_filter_case_insensitive(p: ProcessView, f1: Seq<char>, f2: Seq<char>)
    requires
        unicode_lowercase(f1) == unicode_lowercase(f2),
        f1.len() > 0,
        f2.len() > 0,
    ensures
        filter_matches(p, f1) == filter_matches(p, f2),
{
}

/// The empty filter matches every process.
pub proof fn law_empty_filter_matches_all(p: ProcessView)
    ensures
        filter_matches(p, Seq::empty()),
{
}

/// With the Node-only switch on, only Node servers and tree parents (no
/// runtime) are visible; with it off, the filter alone decides.
pub proof fn law_node_only_visibility(p: ProcessView, filter: Seq<char>)
    ensures
        visible(p, true, filter) ==> p.runtime == Some(Runtime::Node) || p.runtime is None,
        visible(p, false, filter) == filter_matches(p, filter),
{
}

/// After a rebuild the selection is on a row, or the list is empty and the
/// selection is the first row.
pub proof fn law_rebuild_selection_on_list(selected: usize, len: nat)
    ensures
        ({
            let idx = if len == 0 { 0usize } else { clamp_index(selected, len) };
            (len == 0 && idx == 0) || idx < len
        }),
{
}

/// Selecting a row twice leaves the multi-selection as it was.
pub proof fn law_toggle_select_twice(o: App, m: App, f: App)
    requires
        select_toggled(o, m),
        select_toggled(m, f),
    ensures
        f.selected_pids@ == o.selected_pids@,
{
    if o.selected_index < o.flat_list@.len() {
        let pid = o.flat_list@[o.selected_index as int].0.pid;
        if o.selected_pids@.contains(pid) {
            assert(f.selected_pids@ =~= o.selected_pids@);
        } else {
            assert(f.selected_pids@ =~= o.selected_pids@);
        }
    }
}

/// Moving to the next tab and back returns to the tab one started from.
pub proof fn law_next_then_prev_tab(o: App, m: App, f: App)
    requires
        next_tabbed(o, m),
        prev_tabbed(m, f),
    ensures
        f.active_tab == o.active_tab,
{
}

/// The rows of a tree all satisfy `p` when the tree does throughout and `p`
/// ignores children.
proof fn lemma_rows_node_all(n: ProcessView, d: int, e: Set<u32>, p: spec_fn(ProcessView) -> bool)
    requires
        ignores_children(p),
        tree_all(n, p),
    ensures
        forall|i: int| 0 <= i < rows_of_node(n, d, e).len() ==> p(#[trigger] rows_of_node(n, d, e)[i].0),
    decreases n,
{
    let below = if n.children.len() > 0 && e.contains(n.pid) {
        rows_of(n.children, d + 1, e)
    } else {
        Seq::empty()
    };
    if n.children.len() > 0 && e.contains(n.pid) {
        lemma_rows_all(n.children, d + 1, e, p);
    }
    assert(p(shown(n, e)) == p(n));
    let r = rows_of_node(n, d, e);
    assert(r == seq![(shown(n, e), d)] + below);
    assert forall|i: int| 0 <= i < r.len() implies p(#[trigger] r[i].0) by {
        if i > 0 {
            assert(r[i] == below[i - 1]);
        }
    }
}

/// The rows of a forest all satisfy `p` when the forest does throughout and
/// `p` ignores children.
proof fn lemma_rows_all(s: Seq<ProcessView>, d: int, e: Set<u32>, p: spec_fn(ProcessView) -> bool)
    requires
        ignores_children(p),
        forest_all(s, p),
    ensures
        forall|i: int| 0 <= i < rows_of(s, d, e).len() ==> p(#[trigger] rows_of(s, d, e)[i].0),
    decreases s,
{
    if s.len() > 0 {
        lemma_rows_all(s.drop_last(), d, e, p);
        lemma_rows_node_all(s.last(), d, e, p);
        let a = rows_of(s.drop_last(), d, e);
        let b = rows_of_node(s.last(), d, e);
        assert forall|i: int| 0 <= i < rows_of(s, d, e).len() implies p(#[trigger] rows_of(s, d, e)[i].0) by {
            if i < a.len() {
                assert(rows_of(s, d, e)[i] == a[i]);
            } else {
                assert(rows_of(s, d, e)[i] == b[i - a.len()]);
            }
        }
    }
}

/// Every row shown passes the filter and the Node-only switch: after the
/// view is rebuilt from a scan whose processes have no children of their
/// own (as a scan gives them), each row's process is visible.
pub proof fn law_rows_pass_filter(o: App, f: App)
    requires
        view_rebuilt(o, f),
        forall|i: int| 0 <= i < o.raw_processes@.len() ==> (#[trigger] o.raw_processes@[i])@.children.len() == 0,
    ensures
        forall|i: int| 0 <= i < f.flat_list@.len() ==> visible(#[trigger] f.flat_list@[i].0@, o.node_only, o.filter_text@),
{
    broadcast use vstd::seq_lib::group_filter_ensures, vstd::seq::Seq::lemma_filter_contains_rev;
    let vis = visible_pred(o.node_only, o.filter_text@);
    let raw = views(o.raw_processes@);
    let kept = raw.filter(vis);
    assert forall|n: ProcessView, c: Seq<ProcessView>| #[trigger] vis(with_children(n, c)) == vis(n) by {
        let m = with_children(n, c);
        assert(m.name == n.name && m.command == n.command && m.pid == n.pid && m.framework == n.framework);
        assert(m.runtime == n.runtime && m.ports == n.ports);
    }
    assert(ignores_children(vis));
    assert forall|i: int| 0 <= i < kept.len() implies #[trigger] tree_all(kept[i], vis) by {
        assert(vis(kept[i]));
        assert(kept.contains(kept[i]));
        assert(raw.contains(kept[i]));
        let j = choose|j: int| 0 <= j < raw.len() && raw[j] == kept[i];
        assert(raw[j] == o.raw_processes@[j]@);
        assert(kept[i].children.len() == 0);
    }
    lemma_forest_all_index(kept, vis);
    lemma_forest_of_all(kept, vis);
    lemma_sort_forest_all(forest_of(kept), o.sort_column, o.sort_ascending, vis);
    let trees = views(f.process_trees@);
    assert(trees == sort_forest(forest_of(kept), o.sort_column, o.sort_ascending));
    lemma_rows_all(trees, 0, o.expanded_pids@, vis);
    let rows = row_views(f.flat_list@);
    assert forall|i: int| 0 <= i < f.flat_list@.len() implies visible(#[trigger] f.flat_list@[i].0@, o.node_only, o.filter_text@) by {
        assert(rows[i] == (f.flat_list@[i].0@, f.flat_list@[i].1 as int));
        assert(vis(rows[i].0));
    }
}

/// The processes a column can order: for the CPU column those whose CPU
/// figure is a number (a NaN is ordered against nothing); for the others
/// every process.
pub open spec fn sortable(col: SortColumn) -> spec_fn(ProcessView) -> bool {
    |p: ProcessView| col != SortColumn::Cpu || !f32_is_nan(p.cpu_percent_bits)
}

/// Lexicographic order on a key is a strict weak order.
proof fn lemma_lex_key_order(key: spec_fn(ProcessView) -> Seq<char>, before: spec_fn(ProcessView, ProcessView) -> bool, ascending: bool)
    requires
        forall|a: ProcessView, b: ProcessView| #[trigger] before(a, b) == if ascending {
            lex_less(key(a), key(b))
        } else {
            lex_less(key(b), key(a))
        },
    ensures
        forall|a: ProcessView, b: ProcessView| #[trigger] before(a, b) ==> !before(b, a),
        forall|a: ProcessView, b: ProcessView, c: ProcessView|
            !#[trigger] before(a, b) && !#[trigger] before(b, c) ==> !before(a, c),
{
    assert forall|a: ProcessView, b: ProcessView| #[trigger] before(a, b) implies !before(b, a) by {
        if ascending {
            lemma_lex_asymmetric(key(a), key(b));
        } else {
            lemma_lex_asymmetric(key(b), key(a));
        }
    }
    assert forall|a: ProcessView, b: ProcessView, c: ProcessView|
        !#[trigger] before(a, b) && !#[trigger] before(b, c) implies !before(a, c) by {
        if ascending {
            lemma_lex_not_less_transitive(key(a), key(b), key(c));
        } else {
            lemma_lex_not_less_transitive(key(c), key(b), key(a));
        }
    }
}

/// Every column but the port column orders processes by their own fields,
/// as a strict weak order on the processes it can order.
pub proof fn lemma_column_order(col: SortColumn, ascending: bool)
    requires
        col != SortColumn::Port,
    ensures
        weak_order_on(order_of(col, ascending), sortable(col)),
        order_ignores_children(order_of(col, ascending)),
        ignores_children(sortable(col)),
{
    let before = order_of(col, ascending);
    let d = sortable(col);
    match col {
        SortColumn::Name => {
            lemma_lex_key_order(|p: ProcessView| unicode_lowercase(p.name), before, ascending);
        },
        SortColumn::User => {
            lemma_lex_key_order(|p: ProcessView| p.user, before, ascending);
        },
        SortColumn::Status => {
            lemma_lex_key_order(|p: ProcessView| p.status, before, ascending);
        },
        _ => {},
    }
    assert forall|a: ProcessView, b: ProcessView, ca: Seq<ProcessView>, cb: Seq<ProcessView>|
        #[trigger] before(with_children(a, ca), with_children(b, cb)) == before(a, b) by {
        let a2 = with_children(a, ca);
        let b2 = with_children(b, cb);
        assert(a2.pid == a.pid && a2.name == a.name && a2.threads == a.threads && a2.user == a.user);
        assert(b2.pid == b.pid && b2.name == b.name && b2.threads == b.threads && b2.user == b.user);
    }
    assert forall|n: ProcessView, c: Seq<ProcessView>| #[trigger] d(with_children(n, c)) == d(n) by {
        assert(with_children(n, c).cpu_percent_bits == n.cpu_percent_bits);
    }
}

/// After a rebuild every level of the trees is in the chosen column's
/// order, ascending or descending: the roots and the children of every
/// process, also read off the fields themselves (sorted by memory
/// ascending, no process has more resident memory than a later one at its
/// level). This holds for every column but the port column (whose key is
/// the lowest port of a whole subtree), for the CPU column when no CPU
/// figure is NaN, and when the scan's processes have no children of their
/// own (as a scan gives them).
pub proof fn law_rebuild_sorts_levels(o: App, f: App)
    requires
        view_rebuilt(o, f),
        o.sort_column != SortColumn::Port,
        forall|i: int| 0 <= i < o.raw_processes@.len() ==> (#[trigger] o.raw_processes@[i])@.children.len() == 0,
        forall|i: int| 0 <= i < o.raw_processes@.len() ==> sortable(o.sort_column)((#[trigger] o.raw_processes@[i])@),
    ensures
        sorted_by(views(f.process_trees@), order_of(o.sort_column, o.sort_ascending)),
        forest_all(views(f.process_trees@), children_sorted(order_of(o.sort_column, o.sort_ascending))),
        fields_in_order(views(f.process_trees@), o.sort_column, o.sort_ascending),
        forest_all(views(f.process_trees@), children_in_field_order(o.sort_column, o.sort_ascending)),
{
    broadcast use vstd::seq_lib::group_filter_ensures, vstd::seq::Seq::lemma_filter_contains_rev;
    let d = sortable(o.sort_column);
    let vis = visible_pred(o.node_only, o.filter_text@);
    let raw = views(o.raw_processes@);
    let kept = raw.filter(vis);
    lemma_column_order(o.sort_column, o.sort_ascending);
    assert forall|i: int| 0 <= i < kept.len() implies #[trigger] tree_all(kept[i], d) by {
        assert(kept.contains(kept[i]));
        assert(raw.contains(kept[i]));
        let j = choose|j: int| 0 <= j < raw.len() && raw[j] == kept[i];
        assert(raw[j] == o.raw_processes@[j]@);
        assert(kept[i].children.len() == 0);
        assert(d(kept[i]));
    }
    lemma_forest_all_index(kept, d);
    lemma_forest_of_all(kept, d);
    law_sort_forest_sorts_levels(forest_of(kept), o.sort_column, o.sort_ascending, d);
    law_sort_forest_orders_fields(forest_of(kept), o.sort_column, o.sort_ascending);
}

/// `a` may stand before `b` when sorting by `col`, read off the fields
/// themselves: ascending, `a`'s value in the column is no greater than
/// `b`'s (names compared in lowercase, texts by code point, CPU figures by
/// their `f32` value, ports by the lowest port of the subtree); descending,
/// no smaller.
pub open spec fn field_in_order(col: SortColumn, ascending: bool, a: ProcessView, b: ProcessView) -> bool {
    let x = if ascending { a } else { b };
    let y = if ascending { b } else { a };
    match col {
        SortColumn::Pid => x.pid <= y.pid,
        SortColumn::Name => !lex_less(unicode_lowercase(y.name), unicode_lowercase(x.name)),
        SortColumn::Port => port_key(x) <= port_key(y),
        SortColumn::Threads => x.threads <= y.threads,
        SortColumn::Cpu => f32_order_key(x.cpu_percent_bits) <= f32_order_key(y.cpu_percent_bits),
        SortColumn::Memory => x.memory_rss <= y.memory_rss,
        SortColumn::User => !lex_less(y.user, x.user),
        SortColumn::Status => !lex_less(y.status, x.status),
        SortColumn::Uptime => x.uptime_nanos <= y.uptime_nanos,
    }
}

/// Every process of `s` may stand before every later one in the column.
pub open spec fn fields_in_order(s: Seq<ProcessView>, col: SortColumn, ascending: bool) -> bool {
    forall|i: int, j: int| 0 <= i < j < s.len() ==> field_in_order(col, ascending, #[trigger] s[i], #[trigger] s[j])
}

/// The children of a process are in the column's order by their fields.
pub open spec fn children_in_field_order(col: SortColumn, ascending: bool) -> spec_fn(ProcessView) -> bool {
    |n: ProcessView| fields_in_order(n.children, col, ascending)
}

/// Each column's order, the port column's included, is a strict weak order
/// on the processes it can order.
proof fn lemma_level_order(col: SortColumn, ascending: bool)
    ensures
        weak_order_on(order_of(col, ascending), sortable(col)),
{
    if col != SortColumn::Port {
        lemma_column_order(col, ascending);
    }
}

/// When `b` does not belong strictly before `a`, `a`'s field may stand
/// before `b`'s.
proof fn lemma_not_before_in_field_order(col: SortColumn, ascending: bool, a: ProcessView, b: ProcessView)
    requires
        sortable(col)(a),
        sortable(col)(b),
        !precedes(b, a, col, ascending),
    ensures
        field_in_order(col, ascending, a, b),
{
}

/// A sequence sorted by the column's order, of processes the column can
/// order, is in that order by the fields.
proof fn lemma_sorted_fields(s: Seq<ProcessView>, col: SortColumn, ascending: bool)
    requires
        sorted_by(s, order_of(col, ascending)),
        forall|i: int| 0 <= i < s.len() ==> sortable(col)(#[trigger] s[i]),
    ensures
        fields_in_order(s, col, ascending),
{
    assert forall|i: int, j: int| 0 <= i < j < s.len() implies field_in_order(col, ascending, #[trigger] s[i], #[trigger] s[j]) by {
        assert(!order_of(col, ascending)(s[j], s[i]));
        assert(sortable(col)(s[i]));
        assert(sortable(col)(s[j]));
        lemma_not_before_in_field_order(col, ascending, s[i], s[j]);
    }
}

/// Sorting one level by a column puts its processes in that column's order
/// by their fields: ascending by memory, no process has more resident
/// memory than a later one; by PID, no PID exceeds a later one; by name, no
/// lowercase name comes after a later one; and so on for every column, the
/// port column included, descending in the reverse way. For the CPU column
/// this holds when no CPU figure is NaN.
pub proof fn law_sort_level_orders_fields(s: Seq<ProcessView>, col: SortColumn, ascending: bool)
    requires
        forall|i: int| 0 <= i < s.len() ==> sortable(col)(#[trigger] s[i]),
    ensures
        fields_in_order(sort_ordered(s, order_of(col, ascending)), col, ascending),
        sort_ordered(s, order_of(col, ascending)).to_multiset() == s.to_multiset(),
{
    broadcast use vstd::seq_lib::to_multiset_contains;
    let before = order_of(col, ascending);
    let t = sort_ordered(s, before);
    lemma_level_order(col, ascending);
    lemma_sort_sorted(s, before, sortable(col));
    law_sort_level_permutes(s, before);
    assert forall|i: int| 0 <= i < t.len() implies sortable(col)(#[trigger] t[i]) by {
        assert(t.contains(t[i]));
        assert(t.to_multiset().count(t[i]) > 0);
        assert(s.contains(t[i]));
    }
    lemma_sorted_fields(t, col, ascending);
}

/// A tree sorted level by level, of processes the column can order, is in
/// the column's order by the fields at every level.
proof fn lemma_tree_children_fields(n: ProcessView, col: SortColumn, ascending: bool)
    requires
        tree_all(n, sortable(col)),
        tree_all(n, children_sorted(order_of(col, ascending))),
    ensures
        tree_all(n, children_in_field_order(col, ascending)),
    decreases n,
{
    lemma_forest_all_index(n.children, sortable(col));
    assert forall|i: int| 0 <= i < n.children.len() implies sortable(col)(#[trigger] n.children[i]) by {
        assert(tree_all(n.children[i], sortable(col)));
    }
    assert(children_sorted(order_of(col, ascending))(n));
    lemma_sorted_fields(n.children, col, ascending);
    lemma_forest_children_fields(n.children, col, ascending);
}

/// A forest sorted level by level, of processes the column can order, is in
/// the column's order by the fields below every process.
proof fn lemma_forest_children_fields(s: Seq<ProcessView>, col: SortColumn, ascending: bool)
    requires
        forest_all(s, sortable(col)),
        forest_all(s, children_sorted(order_of(col, ascending))),
    ensures
        forest_all(s, children_in_field_order(col, ascending)),
    decreases s,
{
    if s.len() > 0 {
        lemma_forest_children_fields(s.drop_last(), col, ascending);
        lemma_tree_children_fields(s.last(), col, ascending);
    }
}

/// Sorting the trees by a column puts every level in that column's order
/// by the fields: the roots, and the children of every process. Ascending
/// by memory, no process at a level has more resident memory than a later
/// one at that level; likewise for every column but the port column, and
/// for the CPU column when no CPU figure is NaN.
pub proof fn law_sort_forest_orders_fields(s: Seq<ProcessView>, col: SortColumn, ascending: bool)
    requires
        col != SortColumn::Port,
        forest_all(s, sortable(col)),
    ensures
        fields_in_order(sort_forest(s, col, ascending), col, ascending),
        forest_all(sort_forest(s, col, ascending), children_in_field_order(col, ascending)),
{
    let d = sortable(col);
    let r = sort_forest(s, col, ascending);
    lemma_column_order(col, ascending);
    law_sort_forest_sorts_levels(s, col, ascending, d);
    lemma_sort_forest_all(s, col, ascending, d);
    lemma_forest_all_index(r, d);
    assert forall|i: int| 0 <= i < r.len() implies d(#[trigger] r[i]) by {
        assert(tree_all(r[i], d));
    }
    lemma_sorted_fields(r, col, ascending);
    lemma_forest_children_fields(r, col, ascending);
}

} // verus!
