//! Decisions and text of the command-line subcommands (`list`, `kill`,
//! `info`), apart from their input and output.
use vstd::prelude::*;

use crate::process::{duration_nanos, ProcessInfo, ProcessView};
use crate::process::format::{bytes_text, display_name_of, uptime_text};
use crate::config::Config;
use crate::process::killer::KillSignal;
use crate::text::{
    chars_of, concat, concat_strings, decimal, decimal_string, pad, pad_right, repeat_str,
    repeated, text, texts_of, trim_chars, trimmed,
};
use crate::tui::widgets::{ports_joined, ports_text};

verus! {

/// The signal `kill` sends: the one named by `--signal` when the name is
/// known; otherwise the configured `default_signal` when that name is
/// known; otherwise `SIGTERM`.
pub open spec fn chosen_signal(name: Option<Seq<char>>, default_signal: Seq<char>) -> KillSignal {
    match name {
        Some(n) if KillSignal::parse(n) is Some => KillSignal::parse(n)->0,
        _ => match KillSignal::parse(default_signal) {
            Some(s) => s,
            None => KillSignal::Term,
        },
    }
}

/// The signal `kill` sends for the `--signal` option and the configured
/// default signal.
pub fn kill_signal_choice(signal: Option<&str>, default_signal: &str) -> (s: KillSignal)
    ensures
        s == chosen_signal(
            match signal {
                Some(x) => Some(x@),
                None => None,
            },
            default_signal@,
        ),
{
    let named = match signal {
        Some(x) => KillSignal::from_str(x),
        None => None,
    };
    match named {
        Some(s) => s,
        None => match KillSignal::from_str(default_signal) {
            Some(s) => s,
            None => KillSignal::Term,
        },
    }
}

/// The answer to a `[y/N]` prompt is yes: `y` or `Y` with surrounding
/// whitespace ignored.
pub open spec fn says_yes(answer: Seq<char>) -> bool {
    trimmed(answer) == seq!['y'] || trimmed(answer) == seq!['Y']
}

/// What `kill` does, from its arguments and the chosen signal.
#[derive(Debug, Clone, Copy, PartialEq, Eq, Structural)]
pub enum KillPlan {
    /// The signal to every scanned process (`--all`).
    All(KillSignal),
    /// The signal to the process tree rooted at the PID (`--tree`).
    Tree(u32, KillSignal),
    /// `SIGTERM` to the one process, then waiting for it to exit for the
    /// graceful timeout and `SIGKILL` if it has not.
    Graceful(u32),
    /// The signal, once, to the one process.
    Signal(u32, KillSignal),
    /// Neither a PID nor `--all` was given.
    NoTarget,
}

/// `--all` wins; otherwise the PID, as a tree with `--tree`. A single
/// process is terminated gracefully when the signal is `SIGTERM` and sent
/// the signal once otherwise.
pub open spec fn kill_plan_of(pid: Option<u32>, tree: bool, all: bool, signal: KillSignal) -> KillPlan {
    if all {
        KillPlan::All(signal)
    } else {
        match pid {
            Some(p) => if tree {
                KillPlan::Tree(p, signal)
            } else if signal == KillSignal::Term {
                KillPlan::Graceful(p)
            } else {
                KillPlan::Signal(p, signal)
            },
            None => KillPlan::NoTarget,
        }
    }
}

/// What `kill` does.
pub fn kill_plan(pid: Option<u32>, tree: bool, all: bool, signal: KillSignal) -> (k: KillPlan)
    ensures
        k == kill_plan_of(pid, tree, all, signal),
{
    if all {
        KillPlan::All(signal)
    } else {
        match pid {
            Some(p) => if tree {
                KillPlan::Tree(p, signal)
            } else if signal == KillSignal::Term {
                KillPlan::Graceful(p)
            } else {
                KillPlan::Signal(p, signal)
            },
            None => KillPlan::NoTarget,
        }
    }
}

/// Whether `kill` asks for confirmation: as configured, unless
/// `--no-confirm` was given.
pub fn asks_before_kill(no_confirm: bool, config: &Config) -> (b: bool)
    ensures
        b == (!no_confirm && config.general.confirm_before_kill),
{
    !no_confirm && config.general.confirm_before_kill
}

/// Whether the answer to a `[y/N]` prompt is yes.
pub fn confirmed(answer: &str) -> (b: bool)
    ensures
        b == says_yes(answer@),
{
    let t = trim_chars(&chars_of(answer));
    if t.len() == 1 {
        let r = t[0] == 'y' || t[0] == 'Y';
        assert(r <==> (t@ =~= seq!['y'] || t@ =~= seq!['Y']));
        r
    } else {
        false
    }
}

/// What `info` calls a process: a Node server or a tree parent.
pub open spec fn process_kind_text(p: ProcessView) -> Seq<char> {
    if p.runtime == Some(crate::process::Runtime::Node) {
        "Node"@
    } else {
        "Tree parent"@
    }
}

/// What `info` calls a process.
pub fn process_kind(p: &ProcessInfo) -> (s: &'static str)
    ensures
        s@ == process_kind_text(p@),
{
    if p.is_node() {
        "Node"
    } else {
        "Tree parent"
    }
}

/// The header of the `list` table.
pub open spec fn table_header_text() -> Seq<char> {
    pad_right("PID"@, 8) + " "@ + pad_right("NAME"@, 20) + " "@ + pad_right("FRAMEWORK"@, 12) + " "@
        + pad_right("PORT"@, 10) + " "@ + pad_right("CPU"@, 8) + " "@ + pad_right("MEM"@, 10) + " "@
        + pad_right("UPTIME"@, 12)
}

fn padded(s: &str, w: usize) -> (r: String)
    ensures
        r@ == pad_right(s@, w as nat),
{
    pad(&text(s), w, true)
}

/// The header of the `list` table.
pub fn table_header() -> (s: String)
    ensures
        s@ == table_header_text(),
{
    let parts = vec![
        padded("PID", 8), text(" "), padded("NAME", 20), text(" "), padded("FRAMEWORK", 12), text(" "),
        padded("PORT", 10), text(" "), padded("CPU", 8), text(" "), padded("MEM", 10), text(" "),
        padded("UPTIME", 12),
    ];
    proof {
        assert(texts_of(parts@) =~= seq![
            pad_right("PID"@, 8), " "@, pad_right("NAME"@, 20), " "@, pad_right("FRAMEWORK"@, 12), " "@,
            pad_right("PORT"@, 10), " "@, pad_right("CPU"@, 8), " "@, pad_right("MEM"@, 10), " "@,
            pad_right("UPTIME"@, 12),
        ]);
        reveal_with_fuel(concat, 14);
    }
    concat_strings(&parts)
}

/// One row of the `list` table for a process at `depth`, its CPU figure's
/// text given: PID, indented display name (the name column narrowing by
/// the indent), framework, ports (`-` when none), CPU, memory and uptime,
/// each left-aligned in its column.
pub open spec fn table_row_text(p: ProcessInfo, depth: nat, cpu_text: Seq<char>) -> Seq<char> {
    let v = p@;
    let indent = repeated("  "@, depth);
    pad_right(decimal(v.pid as nat), 8) + " "@ + indent + pad_right(display_name_of(v.name, v.command), (20 - 2 * depth) as nat)
        + " "@ + pad_right(v.framework.label(), 12) + " "@ + pad_right(
        if v.ports.len() == 0 { "-"@ } else { ports_joined(v.ports, ","@) },
        10,
    ) + " "@ + pad_right(cpu_text, 8) + " "@ + pad_right(bytes_text(v.memory_rss), 10) + " "@ + pad_right(
        uptime_text((duration_nanos(p.uptime) / 1_000_000_000) as nat),
        12,
    )
}

/// One row of the `list` table. The name column is 20 characters wide less
/// the indent, so a process deeper than ten levels has no row.
pub fn table_row(p: &ProcessInfo, depth: usize, cpu_text: String) -> (s: String)
    requires
        depth <= 10,
    ensures
        s@ == table_row_text(*p, depth as nat, cpu_text@),
{
    let ports = if p.ports.len() == 0 {
        text("-")
    } else {
        ports_text(&p.ports, ",")
    };
    let parts = vec![
        pad(&decimal_string(p.pid as u64), 8, true),
        text(" "),
        repeat_str("  ", depth),
        pad(&p.display_name(), 20 - 2 * depth, true),
        text(" "),
        pad(&p.framework.to_string(), 12, true),
        text(" "),
        pad(&ports, 10, true),
        text(" "),
        pad(&cpu_text, 8, true),
        text(" "),
        pad(&p.memory_display(), 10, true),
        text(" "),
        pad(&p.uptime_display(), 12, true),
    ];
    proof {
        assert(texts_of(parts@) =~= seq![
            parts@[0]@, " "@, parts@[2]@, parts@[3]@, " "@, parts@[5]@, " "@, parts@[7]@, " "@, parts@[9]@,
            " "@, parts@[11]@, " "@, parts@[13]@,
        ]);
        reveal_with_fuel(concat, 15);
    }
    concat_strings(&parts)
}

/// The fields of one `list --format csv` record, the CPU figure's text
/// given: PID, parent PID, name, framework, ports joined with `;`, CPU,
/// resident bytes, uptime and status.
pub open spec fn csv_fields(p: ProcessInfo, cpu_text: Seq<char>) -> Seq<Seq<char>> {
    let v = p@;
    seq![
        decimal(v.pid as nat),
        decimal(v.ppid as nat),
        v.name,
        v.framework.label(),
        ports_joined(v.ports, ";"@),
        cpu_text,
        decimal(v.memory_rss as nat),
        uptime_text((duration_nanos(p.uptime) / 1_000_000_000) as nat),
        v.status,
    ]
}

/// The fields of one CSV record.
pub fn csv_record(p: &ProcessInfo, cpu_text: String) -> (v: Vec<String>)
    ensures
        texts_of(v@) == csv_fields(*p, cpu_text@),
{
    let v = vec![
        decimal_string(p.pid as u64),
        decimal_string(p.ppid as u64),
        p.name.clone(),
        p.framework.to_string(),
        ports_text(&p.ports, ";"),
        cpu_text,
        decimal_string(p.memory_rss),
        p.uptime_display(),
        p.status.clone(),
    ];
    assert(texts_of(v@) =~= csv_fields(*p, v@[5]@));
    v
}

} // verus!
