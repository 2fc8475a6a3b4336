//! The text of each panel and dialog, piece by piece, with the tone each
//! piece is drawn in. Drawing it is left to the terminal front end.
use vstd::prelude::*;

use crate::process::{ProcessInfo, ProcessView};
use crate::process::tree::{forest_size, lemma_push_size, tree_size};
use crate::config::Config;
use crate::process::info::{lemma_pviews_views, views};
use crate::text::{
    chars_of, concat, concat_strings, contains_chars, same_chars, decimal, decimal_chars, decimal_string,
    has_substring, join, join_chars, repeat_str, repeated, string_of, text, texts_of,
    to_uppercase, unicode_uppercase,
};
use crate::process::{duration_nanos, HealthStatus};
use crate::process::format::{bytes_text, display_name_of, uptime_text};
use super::app::{DetailTab, SortColumn};
use crate::process::killer::KillSignal;
use crate::log::streamer::LogStreamer;
use crate::text::{pad, pad_left, pad_right};
use crate::process::health::{f32_is_nan, f32_key, f32_nan, f32_order_key, F32_EIGHTY};
use crate::process::format::format_bytes;
use super::app::row_views;
use super::app::{App, DialogKind, FocusPanel};

verus! {

/// How a piece of text is drawn.
#[derive(Debug, Clone, Copy, PartialEq, Eq, Structural)]
pub enum Tone {
    Plain,
    Yellow,
    YellowBold,
    Cyan,
    CyanBold,
    White,
    WhiteBold,
    Gray,
    DarkGray,
    DarkGrayItalic,
    Green,
    Red,
    RedBold,
}

/// A piece of text and its tone.
#[derive(Debug)]
pub struct Piece {
    pub text: String,
    pub tone: Tone,
}

/// Pieces as values.
pub open spec fn pieces(v: Seq<Piece>) -> Seq<(Seq<char>, Tone)> {
    v.map_values(|p: Piece| (p.text@, p.tone))
}

/// Lines of pieces as values.
pub open spec fn lines_view(v: Seq<Vec<Piece>>) -> Seq<Seq<(Seq<char>, Tone)>> {
    v.map_values(|l: Vec<Piece>| pieces(l@))
}

fn piece(s: &str, tone: Tone) -> (p: Piece)
    ensures
        p.text@ == s@,
        p.tone == tone,
{
    Piece { text: text(s), tone }
}

/// A key hint of the bottom bar: `" [key] desc "`.
pub open spec fn hint(key: Seq<char>, desc: Seq<char>) -> (Seq<char>, Tone) {
    (" ["@ + key + "] "@ + desc + " "@, Tone::Yellow)
}

/// The separator between key hints.
pub open spec fn separator_piece() -> (Seq<char>, Tone) {
    ("|"@, Tone::DarkGray)
}

/// A key hint of the bottom bar.
pub fn key_hint(key: &str, desc: &str) -> (p: Piece)
    ensures
        (p.text@, p.tone) == hint(key@, desc@),
{
    let parts = vec![text(" ["), text(key), text("] "), text(desc), text(" ")];
    let t = concat_strings(&parts);
    proof {
        let tv = texts_of(parts@);
        assert(tv =~= seq![" ["@, key@, "] "@, desc@, " "@]);
        assert(concat(tv) =~= " ["@ + key@ + "] "@ + desc@ + " "@) by {
            reveal_with_fuel(concat, 6);
        }
    }
    Piece { text: t, tone: Tone::Yellow }
}

/// The separator between key hints.
pub fn separator() -> (p: Piece)
    ensures
        (p.text@, p.tone) == separator_piece(),
{
    piece("|", Tone::DarkGray)
}

/// The bottom bar: key hints for the open dialog, the filter input, the
/// detail panel or the process list.
pub open spec fn bottom_bar_pieces(dialog: Option<DialogKind>, filter_active: bool, filter: Seq<char>, focus: FocusPanel) -> Seq<(Seq<char>, Tone)> {
    match dialog {
        Some(DialogKind::Help) => seq![hint("Esc"@, "Close"@)],
        Some(DialogKind::SignalPicker) => seq![
            hint("Up/Down"@, "Select"@),
            separator_piece(),
            hint("Enter"@, "Send"@),
            separator_piece(),
            hint("Esc"@, "Cancel"@),
        ],
        Some(_) => seq![hint("Enter"@, "Confirm"@), separator_piece(), hint("Esc"@, "Cancel"@)],
        None => if filter_active {
            seq![
                (" /"@, Tone::YellowBold),
                (filter, Tone::WhiteBold),
                ("█"@, Tone::Yellow),
                ("  "@, Tone::Plain),
                separator_piece(),
                hint("Enter"@, "Apply"@),
                separator_piece(),
                hint("Esc"@, "Cancel"@),
            ]
        } else if focus == FocusPanel::DetailPanel {
            seq![
                hint("Esc"@, "List"@),
                separator_piece(),
                hint("Tab"@, "Next Tab"@),
                separator_piece(),
                hint("S-Tab"@, "Prev Tab"@),
                separator_piece(),
                hint("Up/Down"@, "Scroll"@),
                separator_piece(),
                hint("PgUp/Dn"@, "Page"@),
                separator_piece(),
                hint("x"@, "Kill"@),
                separator_piece(),
                hint("S"@, "Signal"@),
            ]
        } else {
            seq![
                hint("q"@, "Quit"@),
                separator_piece(),
                hint("Up/Down"@, "Navigate"@),
                separator_piece(),
                hint("PgUp/Dn"@, "Page"@),
                separator_piece(),
                hint("Enter"@, "Expand"@),
                separator_piece(),
                hint("Tab"@, "Details"@),
                separator_piece(),
                hint("Space"@, "Select"@),
                separator_piece(),
                hint("/"@, "Filter"@),
                separator_piece(),
                hint("s"@, "Sort"@),
                separator_piece(),
                hint("x"@, "Kill"@),
                separator_piece(),
                hint("S"@, "Signal"@),
            ]
        },
    }
}

/// The bottom bar of the view.
pub fn bottom_bar(app: &App) -> (v: Vec<Piece>)
    ensures
        pieces(v@) == bottom_bar_pieces(app.dialog, app.filter_active, app.filter_text@, app.focus),
{
    let mut v: Vec<Piece> = Vec::new();
    match app.dialog {
        Some(DialogKind::Help) => {
            v.push(key_hint("Esc", "Close"));
        },
        Some(DialogKind::SignalPicker) => {
            v.push(key_hint("Up/Down", "Select"));
            v.push(separator());
            v.push(key_hint("Enter", "Send"));
            v.push(separator());
            v.push(key_hint("Esc", "Cancel"));
        },
        Some(_) => {
            v.push(key_hint("Enter", "Confirm"));
            v.push(separator());
            v.push(key_hint("Esc", "Cancel"));
        },
        None => {
            if app.filter_active {
                v.push(piece(" /", Tone::YellowBold));
                v.push(Piece { text: app.filter_text.clone(), tone: Tone::WhiteBold });
                v.push(piece("█", Tone::Yellow));
                v.push(piece("  ", Tone::Plain));
                v.push(separator());
                v.push(key_hint("Enter", "Apply"));
                v.push(separator());
                v.push(key_hint("Esc", "Cancel"));
            } else if app.focus == FocusPanel::DetailPanel {
                v.push(key_hint("Esc", "List"));
                v.push(separator());
                v.push(key_hint("Tab", "Next Tab"));
                v.push(separator());
                v.push(key_hint("S-Tab", "Prev Tab"));
                v.push(separator());
                v.push(key_hint("Up/Down", "Scroll"));
                v.push(separator());
                v.push(key_hint("PgUp/Dn", "Page"));
                v.push(separator());
                v.push(key_hint("x", "Kill"));
                v.push(separator());
                v.push(key_hint("S", "Signal"));
            } else {
                v.push(key_hint("q", "Quit"));
                v.push(separator());
                v.push(key_hint("Up/Down", "Navigate"));
                v.push(separator());
                v.push(key_hint("PgUp/Dn", "Page"));
                v.push(separator());
                v.push(key_hint("Enter", "Expand"));
                v.push(separator());
                v.push(key_hint("Tab", "Details"));
                v.push(separator());
                v.push(key_hint("Space", "Select"));
                v.push(separator());
                v.push(key_hint("/", "Filter"));
                v.push(separator());
                v.push(key_hint("s", "Sort"));
                v.push(separator());
                v.push(key_hint("x", "Kill"));
                v.push(separator());
                v.push(key_hint("S", "Signal"));
            }
        },
    }
    assert(pieces(v@) =~= bottom_bar_pieces(app.dialog, app.filter_active, app.filter_text@, app.focus));
    v
}

// ─── Geometry and counts ─────────────────────────────────────────────

/// A rectangle of terminal cells.
#[derive(Debug, Clone, Copy, PartialEq, Eq, Structural)]
pub struct Area {
    pub x: u16,
    pub y: u16,
    pub width: u16,
    pub height: u16,
}

/// `x - y`, or 0 when `y` is larger.
pub open spec fn sat_sub_u16(x: u16, y: u16) -> u16 {
    if x > y {
        (x - y) as u16
    } else {
        0
    }
}

/// A rectangle of `percent_x` by `percent_y` percent of `area`, centred in
/// it; its size is clamped so that it ends within the `u16` range.
pub open spec fn centered_area(percent_x: u16, percent_y: u16, area: Area) -> Area {
    let w = (area.width * percent_x / 100) as u16;
    let h = (area.height * percent_y / 100) as u16;
    let x = (area.x + sat_sub_u16(area.width, w) / 2) as u16;
    let y = (area.y + sat_sub_u16(area.height, h) / 2) as u16;
    Area {
        x,
        y,
        width: if w > u16::MAX - x { (u16::MAX - x) as u16 } else { w },
        height: if h > u16::MAX - y { (u16::MAX - y) as u16 } else { h },
    }
}

/// Create a centred rectangle within the given area.
pub fn centered_rect(percent_x: u16, percent_y: u16, area: Area) -> (r: Area)
    requires
        area.width * percent_x <= u16::MAX,
        area.height * percent_y <= u16::MAX,
        area.x + sat_sub_u16(area.width, (area.width * percent_x / 100) as u16) / 2 <= u16::MAX,
        area.y + sat_sub_u16(area.height, (area.height * percent_y / 100) as u16) / 2 <= u16::MAX,
    ensures
        r == centered_area(percent_x, percent_y, area),
{
    let width = area.width * percent_x / 100;
    let height = area.height * percent_y / 100;
    let x = area.x + (area.width.saturating_sub(width)) / 2;
    let y = area.y + (area.height.saturating_sub(height)) / 2;
    let max_width = u16::MAX - x;
    let max_height = u16::MAX - y;
    Area {
        x,
        y,
        width: if width > max_width { max_width } else { width },
        height: if height > max_height { max_height } else { height },
    }
}

/// The number of descendants of a process (capped at `usize::MAX`).
pub fn count_descendants(process: &ProcessInfo) -> (n: usize)
    ensures
        n == (if forest_size(process@.children) <= usize::MAX {
            forest_size(process@.children) as usize
        } else {
            usize::MAX
        }),
    decreases process,
{
    let ghost s = views(process.children@);
    proof {
        lemma_pviews_views(process.children@);
    }
    let len = process.children.len();
    let mut count: usize = len;
    let mut i: usize = 0;
    assert(s.take(0) =~= Seq::<ProcessView>::empty());
    while i < process.children.len()
        invariant
            i <= process.children.len(),
            len == process.children.len(),
            s == views(process.children@),
            count == (if len + forest_size(s.take(i as int)) - i <= usize::MAX {
                (len + forest_size(s.take(i as int)) - i) as usize
            } else {
                usize::MAX
            }),
            forest_size(s.take(i as int)) >= i,
        decreases process.children.len() - i,
    {
        assert(decreases_to!(process => process.children@[i as int]));
        let d = count_descendants(&process.children[i]);
        proof {
            assert(s.take(i + 1) =~= s.take(i as int).push(s[i as int]));
            lemma_push_size(s.take(i as int), s[i as int]);
            assert(s[i as int] == process.children@[i as int]@);
            assert(tree_size(s[i as int]) == 1 + forest_size(s[i as int].children));
        }
        count = count.saturating_add(d);
        i += 1;
    }
    assert(s.take(s.len() as int) =~= s);
    count
}

/// Terminal rows needed to show lines of the given display widths in
/// `width` columns with wrapping: each line takes the ceiling of its width
/// (at least 1) over `width` rows; the total is capped at `u16::MAX`. With
/// no columns, the number of lines (taken modulo 2^16).
pub open spec fn wrapped_rows(widths: Seq<usize>, width: u16) -> int
    decreases widths.len(),
{
    if widths.len() == 0 {
        0
    } else {
        let w = if widths.last() >= 1 { widths.last() as int } else { 1 };
        wrapped_rows(widths.drop_last(), width) + (w + width - 1) / (width as int)
    }
}

/// The number of terminal rows that lines of the given display widths take
/// in an area `width` columns wide when long lines wrap.
pub fn wrapped_line_count(widths: &Vec<usize>, width: u16) -> (n: u16)
    ensures
        width == 0 ==> n == (widths@.len() % 65536) as u16,
        width > 0 ==> n == (if wrapped_rows(widths@, width) < u16::MAX {
            wrapped_rows(widths@, width) as u16
        } else {
            u16::MAX
        }),
{
    if width == 0 {
        return (widths.len() % 65536) as u16;
    }
    let w = width as usize;
    let mut total: usize = 0;
    let mut i: usize = 0;
    assert(widths@.take(0) =~= Seq::<usize>::empty());
    while i < widths.len()
        invariant
            i <= widths.len(),
            width > 0,
            w == width as usize,
            total == (if wrapped_rows(widths@.take(i as int), width) < usize::MAX {
                wrapped_rows(widths@.take(i as int), width) as usize
            } else {
                usize::MAX
            }),
            wrapped_rows(widths@.take(i as int), width) >= 0,
        decreases widths.len() - i,
    {
        let lw = if widths[i] >= 1 {
            widths[i]
        } else {
            1
        };
        let q = lw / w;
        let rows = if lw % w == 0 {
            q
        } else {
            assert(q < usize::MAX) by (nonlinear_arith)
                requires
                    q == lw / w,
                    w >= 1,
                    lw % w != 0,
                    lw <= usize::MAX,
            {
            }
            q + 1
        };
        proof {
            assert(widths@.take(i + 1).drop_last() =~= widths@.take(i as int));
            assert(widths@.take(i + 1).last() == widths@[i as int]);
            let a = lw as int;
            let b = w as int;
            assert(rows as int == (a + b - 1) / b) by (nonlinear_arith)
                requires
                    b > 0,
                    a >= 1,
                    rows as int == (if a % b == 0 { a / b } else { a / b + 1 }),
            {
            }
        }
        total = total.saturating_add(rows);
        i += 1;
    }
    assert(widths@.take(widths.len() as int) =~= widths@);
    if total >= 65535 {
        65535
    } else {
        total as u16
    }
}

// ─── Environment tab ─────────────────────────────────────────────────

/// Key fragments that mark an environment variable as sensitive.
pub open spec fn sensitive_patterns() -> Seq<Seq<char>> {
    seq!["PASSWORD"@, "SECRET"@, "TOKEN"@, "KEY"@, "API_KEY"@, "PRIVATE"@, "CREDENTIALS"@, "AUTH"@]
}

/// The key, uppercased, contains one of the sensitive fragments.
pub open spec fn sensitive_key(key: Seq<char>) -> bool {
    exists|i: int| 0 <= i < sensitive_patterns().len() && has_substring(unicode_uppercase(key), #[trigger] sensitive_patterns()[i])
}

/// Whether an environment variable's value should be masked.
pub fn is_sensitive(key: &str) -> (b: bool)
    ensures
        b == sensitive_key(key@),
{
    let upper = to_uppercase(key);
    let u = chars_of(upper.as_str());
    let pats = vec!["PASSWORD", "SECRET", "TOKEN", "KEY", "API_KEY", "PRIVATE", "CREDENTIALS", "AUTH"];
    assert(pats@.map_values(|s: &str| s@) =~= sensitive_patterns());
    let mut i: usize = 0;
    while i < pats.len()
        invariant
            i <= pats.len(),
            pats@.map_values(|s: &str| s@) == sensitive_patterns(),
            u@ == unicode_uppercase(key@),
            forall|j: int| 0 <= j < i ==> !has_substring(u@, #[trigger] sensitive_patterns()[j]),
        decreases pats.len() - i,
    {
        let p = chars_of(pats[i]);
        assert(p@ == sensitive_patterns()[i as int]);
        if contains_chars(&u, &p) {
            return true;
        }
        i += 1;
    }
    false
}

/// One line of the environment tab: `"  KEY"`, `"="`, and the value, shown
/// as `"********"` when masking is on and the key is sensitive.
pub open spec fn env_line_pieces(key: Seq<char>, value: Seq<char>, mask: bool) -> Seq<(Seq<char>, Tone)> {
    seq![
        ("  "@ + key, Tone::CyanBold),
        ("="@, Tone::DarkGray),
        (if mask && sensitive_key(key) { "********"@ } else { value }, Tone::White),
    ]
}

/// The lines of the environment tab.
pub open spec fn env_tab_pieces(env: Seq<(Seq<char>, Seq<char>)>, mask: bool) -> Seq<Seq<(Seq<char>, Tone)>> {
    if env.len() == 0 {
        seq![seq![("  No environment variables available."@, Tone::DarkGray)]]
    } else {
        env.map_values(|kv: (Seq<char>, Seq<char>)| env_line_pieces(kv.0, kv.1, mask))
    }
}

/// The lines of the environment tab for a process.
pub fn env_tab_lines(process: &ProcessInfo, config: &Config) -> (v: Vec<Vec<Piece>>)
    ensures
        lines_view(v@) == env_tab_pieces(process@.env_vars, config.display.mask_env_values),
{
    let mut v: Vec<Vec<Piece>> = Vec::new();
    assert(process@.env_vars.len() == process.env_vars@.len());
    if process.env_vars.len() == 0 {
        let line = vec![piece("  No environment variables available.", Tone::DarkGray)];
        assert(pieces(line@) =~= seq![("  No environment variables available."@, Tone::DarkGray)]);
        v.push(line);
        assert(lines_view(v@) =~= env_tab_pieces(process@.env_vars, config.display.mask_env_values));
        return v;
    }
    let mask = config.display.mask_env_values;
    let ghost ev = process@.env_vars;
    let mut i: usize = 0;
    while i < process.env_vars.len()
        invariant
            i <= process.env_vars.len(),
            ev == process@.env_vars,
            ev.len() == process.env_vars@.len(),
            mask == config.display.mask_env_values,
            lines_view(v@) == ev.take(i as int).map_values(|kv: (Seq<char>, Seq<char>)| env_line_pieces(kv.0, kv.1, mask)),
        decreases process.env_vars.len() - i,
    {
        let key = &process.env_vars[i].0;
        let value = &process.env_vars[i].1;
        assert(ev[i as int] == (key@, value@));
        let shown = if mask && is_sensitive(key.as_str()) {
            text("********")
        } else {
            value.clone()
        };
        let parts = vec![text("  "), key.clone()];
        let k = concat_strings(&parts);
        proof {
            assert(texts_of(parts@) =~= seq!["  "@, key@]);
            reveal_with_fuel(concat, 3);
        }
        let line = vec![Piece { text: k, tone: Tone::CyanBold }, piece("=", Tone::DarkGray), Piece { text: shown, tone: Tone::White }];
        let ghost prev = v@;
        v.push(line);
        proof {
            assert(pieces(line@) =~= env_line_pieces(key@, value@, mask));
            assert(lines_view(v@) =~= lines_view(prev).push(pieces(line@)));
            assert(ev.take(i + 1) =~= ev.take(i as int).push(ev[i as int]));
        }
        i += 1;
    }
    assert(ev.take(ev.len() as int) =~= ev);
    v
}

/// The column widths of the process list for a list `inner_width` columns
/// wide: the third (name) column takes what is left, at least its width
/// here; the others are fixed. Lists wider than 100 get wider columns.
pub open spec fn list_widths(inner_width: u16) -> Seq<u16> {
    if inner_width > 100 {
        seq![3u16, 7, 12, 7, 4, 7, 9, 8, 7, 10]
    } else {
        seq![2u16, 6, 8, 6, 4, 6, 8, 8, 6, 8]
    }
}

/// The column widths of the process list.
pub fn list_column_widths(inner_width: u16) -> (v: Vec<u16>)
    ensures
        v@ == list_widths(inner_width),
{
    let v = if inner_width > 100 {
        vec![3u16, 7, 12, 7, 4, 7, 9, 8, 7, 10]
    } else {
        vec![2u16, 6, 8, 6, 4, 6, 8, 8, 6, 8]
    };
    assert(v@ =~= list_widths(inner_width));
    v
}

// ─── Net tab ─────────────────────────────────────────────────────────

/// The tone of a connection by its TCP state: green when listening, cyan
/// when established, yellow in `CLOSE_WAIT`, dark in `TIME_WAIT`, white
/// otherwise.
pub open spec fn state_tone(state: Seq<char>) -> Tone {
    if state == "LISTEN"@ {
        Tone::Green
    } else if state == "ESTABLISHED"@ {
        Tone::Cyan
    } else if state == "CLOSE_WAIT"@ {
        Tone::Yellow
    } else if state == "TIME_WAIT"@ {
        Tone::DarkGray
    } else {
        Tone::White
    }
}

/// The tone of a connection in state `state`.
pub fn connection_tone(state: &str) -> (t: Tone)
    ensures
        t == state_tone(state@),
{
    let s = chars_of(state);
    if same_chars(&s, &chars_of("LISTEN")) {
        Tone::Green
    } else if same_chars(&s, &chars_of("ESTABLISHED")) {
        Tone::Cyan
    } else if same_chars(&s, &chars_of("CLOSE_WAIT")) {
        Tone::Yellow
    } else if same_chars(&s, &chars_of("TIME_WAIT")) {
        Tone::DarkGray
    } else {
        Tone::White
    }
}

/// One connection as the net tab shows it: its local address's text, its
/// remote address's text if it has one, and its state.
pub type NetRow = (String, Option<String>, String);

/// A connection row as values.
pub open spec fn net_row_view(r: NetRow) -> (Seq<char>, Option<Seq<char>>, Seq<char>) {
    (r.0@, match r.1 {
        Some(t) => Some(t@),
        None => None,
    }, r.2@)
}

/// The cells of one connection: the indented local address, the remote
/// address (`-` when there is none) and the state, all in the state's tone.
pub open spec fn net_row_pieces(r: (Seq<char>, Option<Seq<char>>, Seq<char>)) -> Seq<(Seq<char>, Tone)> {
    let t = state_tone(r.2);
    seq![
        ("  "@ + r.0, t),
        (match r.1 {
            Some(a) => a,
            None => "-"@,
        }, t),
        (r.2, t),
    ]
}

/// The net tab: a note when there are no connections; otherwise the header
/// cells and the cells of each connection.
pub open spec fn net_tab_view(rows: Seq<(Seq<char>, Option<Seq<char>>, Seq<char>)>) -> Seq<Seq<(Seq<char>, Tone)>> {
    if rows.len() == 0 {
        seq![seq![("  No active network connections found."@, Tone::DarkGray)]]
    } else {
        seq![seq![("  LOCAL"@, Tone::YellowBold), ("REMOTE"@, Tone::YellowBold), ("STATE"@, Tone::YellowBold)]]
            + rows.map_values(|r: (Seq<char>, Option<Seq<char>>, Seq<char>)| net_row_pieces(r))
    }
}

/// The lines of the net tab, one per table row, for connections given by
/// their address texts and state.
pub fn net_tab_lines(rows: &Vec<NetRow>) -> (v: Vec<Vec<Piece>>)
    ensures
        lines_view(v@) == net_tab_view(rows@.map_values(|r: NetRow| net_row_view(r))),
{
    let ghost rv = rows@.map_values(|r: NetRow| net_row_view(r));
    let mut v: Vec<Vec<Piece>> = Vec::new();
    if rows.len() == 0 {
        let line = vec![piece("  No active network connections found.", Tone::DarkGray)];
        assert(pieces(line@) =~= seq![("  No active network connections found."@, Tone::DarkGray)]);
        push_line(&mut v, line);
        assert(rv.len() == 0);
        assert(lines_view(v@) =~= net_tab_view(rv));
        return v;
    }
    let header = vec![
        piece("  LOCAL", Tone::YellowBold),
        piece("REMOTE", Tone::YellowBold),
        piece("STATE", Tone::YellowBold),
    ];
    assert(pieces(header@) =~= seq![("  LOCAL"@, Tone::YellowBold), ("REMOTE"@, Tone::YellowBold), ("STATE"@, Tone::YellowBold)]);
    push_line(&mut v, header);
    let ghost head = lines_view(v@);
    let mut i: usize = 0;
    while i < rows.len()
        invariant
            i <= rows.len(),
            rv == rows@.map_values(|r: NetRow| net_row_view(r)),
            head.len() == 1,
            lines_view(v@) == head + rv.take(i as int).map_values(|r: (Seq<char>, Option<Seq<char>>, Seq<char>)| net_row_pieces(r)),
        decreases rows.len() - i,
    {
        let row = &rows[i];
        let t = connection_tone(row.2.as_str());
        let parts = vec![text("  "), row.0.clone()];
        let local = concat_strings(&parts);
        proof {
            assert(texts_of(parts@) =~= seq!["  "@, row.0@]);
            reveal_with_fuel(concat, 3);
        }
        let remote = match &row.1 {
            Some(a) => a.clone(),
            None => text("-"),
        };
        let line = vec![
            Piece { text: local, tone: t },
            Piece { text: remote, tone: t },
            Piece { text: row.2.clone(), tone: t },
        ];
        let ghost prev = lines_view(v@);
        push_line(&mut v, line);
        proof {
            assert(rv[i as int] == net_row_view(*row));
            assert(pieces(line@) =~= net_row_pieces(rv[i as int]));
            assert(rv.take(i + 1) =~= rv.take(i as int).push(rv[i as int]));
            assert(lines_view(v@) =~= head + rv.take(i + 1).map_values(|r: (Seq<char>, Option<Seq<char>>, Seq<char>)| net_row_pieces(r)));
        }
        i += 1;
    }
    assert(rv.take(rows.len() as int) =~= rv);
    assert(head =~= seq![seq![("  LOCAL"@, Tone::YellowBold), ("REMOTE"@, Tone::YellowBold), ("STATE"@, Tone::YellowBold)]]);
    assert(lines_view(v@) =~= net_tab_view(rv));
    v
}

// ─── Process list ────────────────────────────────────────────────────

/// Ports in decimal, joined with `sep`.
pub open spec fn ports_joined(ports: Seq<u16>, sep: Seq<char>) -> Seq<char> {
    join(ports.map_values(|p: u16| decimal(p as nat)), sep)
}

/// Ports in decimal joined with `sep`.
pub fn ports_text(ports: &Vec<u16>, sep: &str) -> (r: String)
    ensures
        r@ == ports_joined(ports@, sep@),
{
    let mut parts: Vec<Vec<char>> = Vec::new();
    let mut i: usize = 0;
    while i < ports.len()
        invariant
            i <= ports.len(),
            parts@.map_values(|p: Vec<char>| p@) == ports@.take(i as int).map_values(|p: u16| decimal(p as nat)),
        decreases ports.len() - i,
    {
        let d = decimal_chars(ports[i] as u64);
        let ghost prev = parts@;
        parts.push(d);
        assert(parts@.map_values(|p: Vec<char>| p@) =~= prev.map_values(|p: Vec<char>| p@).push(d@));
        assert(ports@.take(i + 1).map_values(|p: u16| decimal(p as nat)) =~= ports@.take(i as int).map_values(|p: u16| decimal(p as nat)).push(decimal(ports@[i as int] as nat)));
        i += 1;
    }
    assert(ports@.take(ports.len() as int) =~= ports@);
    let sepv = chars_of(sep);
    let r = join_chars(&parts, &sepv);
    string_of(&r)
}

/// The sort mark after a column header: `" ^"` or `" v"` on the sorted
/// column, nothing on the others.
pub open spec fn sort_mark(col: SortColumn, sorted: SortColumn, ascending: bool) -> Seq<char> {
    if col == sorted {
        if ascending { " ^"@ } else { " v"@ }
    } else {
        Seq::empty()
    }
}

/// The column headers of the process list.
pub open spec fn header_texts(sorted: SortColumn, ascending: bool) -> Seq<Seq<char>> {
    seq![
        " "@,
        "PID"@ + sort_mark(SortColumn::Pid, sorted, ascending),
        "NAME"@ + sort_mark(SortColumn::Name, sorted, ascending),
        "PORT"@ + sort_mark(SortColumn::Port, sorted, ascending),
        "THR"@ + sort_mark(SortColumn::Threads, sorted, ascending),
        "CPU"@ + sort_mark(SortColumn::Cpu, sorted, ascending),
        "MEM"@ + sort_mark(SortColumn::Memory, sorted, ascending),
        "USER"@ + sort_mark(SortColumn::User, sorted, ascending),
        "STS"@ + sort_mark(SortColumn::Status, sorted, ascending),
        "UPTIME"@ + sort_mark(SortColumn::Uptime, sorted, ascending),
    ]
}

fn header_cell(label: &str, col: SortColumn, sorted: SortColumn, ascending: bool) -> (r: String)
    ensures
        r@ == label@ + sort_mark(col, sorted, ascending),
{
    let mark = if col == sorted {
        if ascending { text(" ^") } else { text(" v") }
    } else {
        String::new()
    };
    let parts = vec![text(label), mark];
    proof {
        assert(texts_of(parts@) =~= seq![label@, parts@[1]@]);
        reveal_with_fuel(concat, 3);
    }
    concat_strings(&parts)
}

/// The column headers of the process list, with the sort mark.
pub fn header_cells(sorted: SortColumn, ascending: bool) -> (v: Vec<String>)
    ensures
        texts_of(v@) == header_texts(sorted, ascending),
{
    let v = vec![
        text(" "),
        header_cell("PID", SortColumn::Pid, sorted, ascending),
        header_cell("NAME", SortColumn::Name, sorted, ascending),
        header_cell("PORT", SortColumn::Port, sorted, ascending),
        header_cell("THR", SortColumn::Threads, sorted, ascending),
        header_cell("CPU", SortColumn::Cpu, sorted, ascending),
        header_cell("MEM", SortColumn::Memory, sorted, ascending),
        header_cell("USER", SortColumn::User, sorted, ascending),
        header_cell("STS", SortColumn::Status, sorted, ascending),
        header_cell("UPTIME", SortColumn::Uptime, sorted, ascending),
    ];
    assert(texts_of(v@) =~= header_texts(sorted, ascending));
    v
}

/// The tree marks before a row's name: an arrow for a root with children
/// (down when expanded), blanks for a childless root; below the roots, two
/// spaces per level and then `├▾ `, `├▸ ` or `└─ `.
pub open spec fn tree_prefix_text(depth: nat, has_children: bool, expanded: bool) -> Seq<char> {
    if depth == 0 {
        if has_children {
            if expanded { "▾ "@ } else { "▸ "@ }
        } else {
            "  "@
        }
    } else {
        repeated("  "@, depth) + if has_children {
            if expanded { "├▾ "@ } else { "├▸ "@ }
        } else {
            "└─ "@
        }
    }
}

/// The tree marks before a row's name.
pub fn tree_prefix(depth: usize, has_children: bool, expanded: bool) -> (r: String)
    ensures
        r@ == tree_prefix_text(depth as nat, has_children, expanded),
{
    if depth == 0 {
        if has_children {
            if expanded { text("▾ ") } else { text("▸ ") }
        } else {
            text("  ")
        }
    } else {
        let indent = repeat_str("  ", depth);
        let tail = if has_children {
            if expanded { text("├▾ ") } else { text("├▸ ") }
        } else {
            text("└─ ")
        };
        let parts = vec![indent, tail];
        proof {
            assert(texts_of(parts@) =~= seq![parts@[0]@, parts@[1]@]);
            reveal_with_fuel(concat, 3);
        }
        concat_strings(&parts)
    }
}

/// The text of a process-list row, every cell but the CPU figure.
pub struct RowText {
    /// Check box and health dot: `"[x] ●"` or `"[ ] ●"`.
    pub mark: String,
    pub pid: String,
    /// Tree marks, display name and, unless generic, the framework.
    pub name: String,
    /// Listening ports, comma-separated, or `"-"`.
    pub ports: String,
    pub threads: String,
    pub memory: String,
    pub user: String,
    pub status: String,
    pub uptime: String,
    /// The colour of the health dot.
    pub health: HealthStatus,
}

/// The name cell: tree marks, display name and, for a known framework,
/// the framework in parentheses.
pub open spec fn name_cell(p: ProcessView, depth: nat, expanded: bool) -> Seq<char> {
    let base = if p.framework.label() != "Generic"@ {
        display_name_of(p.name, p.command) + " ("@ + p.framework.label() + ")"@
    } else {
        display_name_of(p.name, p.command)
    };
    tree_prefix_text(depth, p.children.len() > 0, expanded) + base
}

/// The ports cell: `"-"` without ports.
pub open spec fn ports_cell(ports: Seq<u16>) -> Seq<char> {
    if ports.len() == 0 {
        "-"@
    } else {
        ports_joined(ports, ","@)
    }
}

/// The text of the row showing `p` at `depth`.
pub fn row_text(p: &ProcessInfo, depth: usize, checked: bool, expanded: bool) -> (r: RowText)
    ensures
        r.mark@ == (if checked { "[x]"@ } else { "[ ]"@ }) + " "@ + "●"@,
        r.pid@ == decimal(p.pid as nat),
        r.name@ == name_cell(p@, depth as nat, expanded),
        r.ports@ == ports_cell(p.ports@),
        r.threads@ == decimal(p.threads as nat),
        r.memory@ == bytes_text(p.memory_rss),
        r.user@ == p.user@,
        r.status@ == p.status@,
        r.uptime@ == uptime_text((duration_nanos(p.uptime) / 1_000_000_000) as nat),
        r.health == ProcessInfo::health_of(p@),
{
    let mark_parts = vec![if checked { text("[x]") } else { text("[ ]") }, text(" "), text("●")];
    proof {
        assert(texts_of(mark_parts@) =~= seq![mark_parts@[0]@, " "@, "●"@]);
        reveal_with_fuel(concat, 4);
    }
    let mark = concat_strings(&mark_parts);
    let prefix = tree_prefix(depth, p.children.len() > 0, expanded);
    proof {
        lemma_pviews_views(p.children@);
    }
    let label = p.framework.to_string();
    let generic = chars_of("Generic");
    let is_generic = crate::text::same_chars(&chars_of(label.as_str()), &generic);
    let dn = p.display_name();
    let base = if !is_generic {
        let parts = vec![dn, text(" ("), label, text(")")];
        proof {
            assert(texts_of(parts@) =~= seq![parts@[0]@, " ("@, parts@[2]@, ")"@]);
            reveal_with_fuel(concat, 5);
        }
        concat_strings(&parts)
    } else {
        dn
    };
    let name_parts = vec![prefix, base];
    proof {
        assert(texts_of(name_parts@) =~= seq![name_parts@[0]@, name_parts@[1]@]);
        reveal_with_fuel(concat, 3);
    }
    let name = concat_strings(&name_parts);
    let ports = if p.ports.len() == 0 {
        text("-")
    } else {
        ports_text(&p.ports, ",")
    };
    RowText {
        mark,
        pid: decimal_string(p.pid as u64),
        name,
        ports,
        threads: decimal_string(p.threads as u64),
        memory: p.memory_display(),
        user: p.user.clone(),
        status: p.status.clone(),
        uptime: p.uptime_display(),
        health: p.health(),
    }
}

/// The process list's title: the filter when one is typed or applied.
pub open spec fn list_title_text(filter_active: bool, filter: Seq<char>) -> Seq<char> {
    if filter_active || filter.len() > 0 {
        " Processes (filter: "@ + filter + ") "@
    } else {
        " Processes "@
    }
}

/// The process list's title.
pub fn list_title(app: &App) -> (r: String)
    ensures
        r@ == list_title_text(app.filter_active, app.filter_text@),
{
    if app.filter_active || app.filter_text.as_str().unicode_len() > 0 {
        let parts = vec![text(" Processes (filter: "), app.filter_text.clone(), text(") ")];
        proof {
            assert(texts_of(parts@) =~= seq![" Processes (filter: "@, app.filter_text@, ") "@]);
            reveal_with_fuel(concat, 4);
        }
        concat_strings(&parts)
    } else {
        text(" Processes ")
    }
}

// ─── Kill dialogs ────────────────────────────────────────────────────

/// A line of pieces, as values.
pub type LineView = Seq<(Seq<char>, Tone)>;

/// An empty line.
pub open spec fn blank_line() -> Seq<(Seq<char>, Tone)> {
    seq![(""@, Tone::Plain)]
}

/// The last line of a confirmation dialog.
pub open spec fn confirm_line(action: Seq<char>) -> Seq<(Seq<char>, Tone)> {
    seq![("  [Enter] "@, Tone::Green), (action, Tone::White), ("[Esc] "@, Tone::Red), ("Cancel"@, Tone::White)]
}

/// `"PID <pid> (<name>)"`.
pub open spec fn pid_name(pid: u32, name: Seq<char>) -> Seq<char> {
    "PID "@ + decimal(pid as nat) + " ("@ + name + ")"@
}

/// The number of descendants of a process, capped at `usize::MAX`.
pub open spec fn descendant_count(p: ProcessView) -> nat {
    if forest_size(p.children) <= usize::MAX {
        forest_size(p.children)
    } else {
        usize::MAX as nat
    }
}

/// A label line: a cyan label and a white value.
pub open spec fn field_line(label: Seq<char>, value: Seq<char>) -> Seq<(Seq<char>, Tone)> {
    seq![(label, Tone::Cyan), (value, Tone::White)]
}

/// The lines listing a subtree's root and children in the tree-kill dialog.
pub open spec fn tree_lines(t: ProcessView) -> Seq<Seq<(Seq<char>, Tone)>> {
    seq![field_line("    Root: "@, pid_name(t.pid, t.name))] + if descendant_count(t) > 0 {
        seq![seq![("    Children: "@, Tone::Cyan), (decimal(descendant_count(t)) + " process(es)"@, Tone::Red)]]
            + t.children.map_values(|c: ProcessView| seq![("      - "@ + pid_name(c.pid, c.name), Tone::DarkGray)])
    } else {
        Seq::empty()
    }
}

/// The title and lines of a kill dialog; `None` for the other dialogs.
pub open spec fn kill_dialog_view(
    d: DialogKind,
    process: Option<ProcessView>,
    tree: Option<ProcessView>,
) -> Option<(Seq<char>, Seq<Seq<(Seq<char>, Tone)>>)> {
    match d {
        DialogKind::KillConfirm => Some((
            " Kill Process "@,
            seq![blank_line(), seq![("  Are you sure you want to kill this process?"@, Tone::Yellow)], blank_line()]
                + match process {
                Some(p) => seq![field_line("    PID:  "@, decimal(p.pid as nat)), field_line("    Name: "@, p.name)]
                    + if p.ports.len() > 0 {
                    seq![field_line("    Port: "@, ports_joined(p.ports, ", "@))]
                } else {
                    Seq::empty()
                },
                None => Seq::empty(),
            } + seq![
                blank_line(),
                seq![("  Signal: SIGTERM (graceful)"@, Tone::DarkGray)],
                blank_line(),
                confirm_line("Confirm  "@),
            ],
        )),
        DialogKind::KillTreeConfirm => Some((
            " Kill Process Tree "@,
            seq![blank_line(), seq![("  Kill process tree? This will terminate:"@, Tone::Yellow)], blank_line()]
                + match tree {
                Some(t) => tree_lines(t),
                None => Seq::empty(),
            } + seq![blank_line(), confirm_line("Confirm  "@)],
        )),
        DialogKind::ForceKillPrompt => Some((
            " Force Kill "@,
            seq![
                blank_line(),
                seq![("  Graceful kill timed out."@, Tone::Red)],
                blank_line(),
                seq![("  Send SIGKILL (force kill)?"@, Tone::Yellow)],
            ] + match process {
                Some(p) => seq![blank_line(), field_line("    PID: "@, decimal(p.pid as nat))],
                None => Seq::empty(),
            } + seq![
                blank_line(),
                seq![("  WARNING: SIGKILL cannot be caught or ignored."@, Tone::RedBold)],
                blank_line(),
                confirm_line("Force Kill  "@),
            ],
        )),
        _ => None,
    }
}

/// The value of an optional process.
pub open spec fn opt_view(p: Option<&ProcessInfo>) -> Option<ProcessView> {
    match p {
        Some(x) => Some(x@),
        None => None,
    }
}

fn blank() -> (l: Vec<Piece>)
    ensures
        pieces(l@) == blank_line(),
{
    let l = vec![piece("", Tone::Plain)];
    assert(pieces(l@) =~= blank_line());
    l
}

fn single(s: &str, tone: Tone) -> (l: Vec<Piece>)
    ensures
        pieces(l@) == seq![(s@, tone)],
{
    let l = vec![piece(s, tone)];
    assert(pieces(l@) =~= seq![(s@, tone)]);
    l
}

fn field(label: &str, value: String) -> (l: Vec<Piece>)
    ensures
        pieces(l@) == field_line(label@, value@),
{
    let ghost vv = value@;
    let l = vec![piece(label, Tone::Cyan), Piece { text: value, tone: Tone::White }];
    assert(pieces(l@) =~= field_line(label@, vv));
    l
}

fn confirm(action: &str) -> (l: Vec<Piece>)
    ensures
        pieces(l@) == confirm_line(action@),
{
    let l = vec![piece("  [Enter] ", Tone::Green), piece(action, Tone::White), piece("[Esc] ", Tone::Red), piece("Cancel", Tone::White)];
    assert(pieces(l@) =~= confirm_line(action@));
    l
}

fn pid_name_text(pid: u32, name: &String) -> (r: String)
    ensures
        r@ == pid_name(pid, name@),
{
    let parts = vec![text("PID "), decimal_string(pid as u64), text(" ("), name.clone(), text(")")];
    proof {
        assert(texts_of(parts@) =~= seq!["PID "@, decimal(pid as nat), " ("@, name@, ")"@]);
        reveal_with_fuel(concat, 6);
    }
    concat_strings(&parts)
}

fn push_line(v: &mut Vec<Vec<Piece>>, l: Vec<Piece>)
    ensures
        lines_view(final(v)@) == lines_view(old(v)@).push(pieces(l@)),
{
    let ghost prev = v@;
    let ghost lv = pieces(l@);
    v.push(l);
    assert(lines_view(v@) =~= lines_view(prev).push(lv));
}

/// The title and lines of the kill dialog for `dialog` (`None` for the
/// signal picker and the help dialog): the process to kill, or for a tree
/// kill the subtree's root, its number of descendants and its children.
pub fn kill_dialog(
    dialog: DialogKind,
    process: Option<&ProcessInfo>,
    tree_process: Option<&ProcessInfo>,
) -> (r: Option<(String, Vec<Vec<Piece>>)>)
    ensures
        match r {
            Some((t, l)) => kill_dialog_view(dialog, opt_view(process), opt_view(tree_process)) == Some((t@, lines_view(l@))),
            None => kill_dialog_view(dialog, opt_view(process), opt_view(tree_process)) is None,
        },
{
    let mut lines: Vec<Vec<Piece>> = Vec::new();
    match dialog {
        DialogKind::KillConfirm => {
            push_line(&mut lines, blank());
            push_line(&mut lines, single("  Are you sure you want to kill this process?", Tone::Yellow));
            push_line(&mut lines, blank());
            let ghost head = lines_view(lines@);
            match process {
                Some(p) => {
                    push_line(&mut lines, field("    PID:  ", decimal_string(p.pid as u64)));
                    push_line(&mut lines, field("    Name: ", p.name.clone()));
                    if p.ports.len() > 0 {
                        push_line(&mut lines, field("    Port: ", ports_text(&p.ports, ", ")));
                    }
                },
                None => {},
            }
            let ghost mid = lines_view(lines@);
            push_line(&mut lines, blank());
            push_line(&mut lines, single("  Signal: SIGTERM (graceful)", Tone::DarkGray));
            push_line(&mut lines, blank());
            push_line(&mut lines, confirm("Confirm  "));
            let ghost pair = kill_dialog_view(dialog, opt_view(process), opt_view(tree_process))->0;
            let ghost want = pair.1;
            assert(lines_view(lines@) =~= want);
            Some((text(" Kill Process "), lines))
        },
        DialogKind::KillTreeConfirm => {
            push_line(&mut lines, blank());
            push_line(&mut lines, single("  Kill process tree? This will terminate:", Tone::Yellow));
            push_line(&mut lines, blank());
            let ghost head = lines_view(lines@);
            match tree_process {
                Some(t) => {
                    push_line(&mut lines, field("    Root: ", pid_name_text(t.pid, &t.name)));
                    let child_count = count_descendants(t);
                    if child_count > 0 {
                        let parts = vec![decimal_string(child_count as u64), text(" process(es)")];
                        proof {
                            assert(texts_of(parts@) =~= seq![decimal(child_count as nat), " process(es)"@]);
                            reveal_with_fuel(concat, 3);
                        }
                        let ct = concat_strings(&parts);
                        let ghost ctv = ct@;
                        let l = vec![piece("    Children: ", Tone::Cyan), Piece { text: ct, tone: Tone::Red }];
                        assert(pieces(l@) =~= seq![("    Children: "@, Tone::Cyan), (ctv, Tone::Red)]);
                        push_line(&mut lines, l);
                        let ghost before_kids = lines_view(lines@);
                        let ghost kids = views(t.children@);
                        proof {
                            lemma_pviews_views(t.children@);
                        }
                        let mut i: usize = 0;
                        while i < t.children.len()
                            invariant
                                i <= t.children.len(),
                                kids == views(t.children@),
                                lines_view(lines@) == before_kids + kids.take(i as int).map_values(
                                    |c: ProcessView| seq![("      - "@ + pid_name(c.pid, c.name), Tone::DarkGray)],
                                ),
                            decreases t.children.len() - i,
                        {
                            let c = &t.children[i];
                            let parts = vec![text("      - "), pid_name_text(c.pid, &c.name)];
                            proof {
                                assert(texts_of(parts@) =~= seq!["      - "@, pid_name(c.pid, c.name@)]);
                                reveal_with_fuel(concat, 3);
                            }
                            let ct = concat_strings(&parts);
                            let ghost ctv = ct@;
                            let l = vec![Piece { text: ct, tone: Tone::DarkGray }];
                            assert(pieces(l@) =~= seq![(ctv, Tone::DarkGray)]);
                            assert(kids[i as int] == c@);
                            push_line(&mut lines, l);
                            assert(kids.take(i + 1).map_values(|c: ProcessView| seq![("      - "@ + pid_name(c.pid, c.name), Tone::DarkGray)])
                                =~= kids.take(i as int).map_values(|c: ProcessView| seq![("      - "@ + pid_name(c.pid, c.name), Tone::DarkGray)]).push(
                                seq![("      - "@ + pid_name(kids[i as int].pid, kids[i as int].name), Tone::DarkGray)]));
                            i += 1;
                        }
                        assert(kids.take(kids.len() as int) =~= kids);
                    }
                },
                None => {},
            }
            push_line(&mut lines, blank());
            push_line(&mut lines, confirm("Confirm  "));
            let ghost pair = kill_dialog_view(dialog, opt_view(process), opt_view(tree_process))->0;
            let ghost want = pair.1;
            assert(lines_view(lines@) =~= want);
            Some((text(" Kill Process Tree "), lines))
        },
        DialogKind::ForceKillPrompt => {
            push_line(&mut lines, blank());
            push_line(&mut lines, single("  Graceful kill timed out.", Tone::Red));
            push_line(&mut lines, blank());
            push_line(&mut lines, single("  Send SIGKILL (force kill)?", Tone::Yellow));
            match process {
                Some(p) => {
                    push_line(&mut lines, blank());
                    push_line(&mut lines, field("    PID: ", decimal_string(p.pid as u64)));
                },
                None => {},
            }
            push_line(&mut lines, blank());
            push_line(&mut lines, single("  WARNING: SIGKILL cannot be caught or ignored.", Tone::RedBold));
            push_line(&mut lines, blank());
            push_line(&mut lines, confirm("Force Kill  "));
            let ghost pair = kill_dialog_view(dialog, opt_view(process), opt_view(tree_process))->0;
            let ghost want = pair.1;
            assert(lines_view(lines@) =~= want);
            Some((text(" Force Kill "), lines))
        },
        _ => None,
    }
}

// ─── Signal picker ───────────────────────────────────────────────────

/// The picker line of one signal: a marker on the selected row, the name
/// padded to ten characters and the description.
pub open spec fn signal_line(sig: KillSignal, selected: bool) -> Seq<(Seq<char>, Tone)> {
    let tone = if selected { Tone::CyanBold } else { Tone::White };
    seq![
        (if selected { " ▸ "@ } else { "   "@ }, tone),
        (pad_right(sig.signal_name(), 10), tone),
        (" - "@ + sig.signal_description(), if selected { Tone::Gray } else { Tone::DarkGray }),
    ]
}

/// The lines of the signal picker with row `selected` highlighted.
pub open spec fn signal_picker_view(selected: usize) -> Seq<Seq<(Seq<char>, Tone)>> {
    seq![blank_line(), seq![("  Select a signal to send:"@, Tone::Yellow)], blank_line()]
        + Seq::new(6, |i: int| signal_line(KillSignal::all_signals()[i], i == selected))
        + seq![
        blank_line(),
        seq![
            ("  [Enter] "@, Tone::Green),
            ("Send  "@, Tone::White),
            ("[Up/Down] "@, Tone::Yellow),
            ("Select  "@, Tone::White),
            ("[Esc] "@, Tone::Red),
            ("Cancel"@, Tone::White),
        ],
    ]
}

/// The lines of the signal picker.
pub fn signal_picker_lines(selected_index: usize) -> (v: Vec<Vec<Piece>>)
    ensures
        lines_view(v@) == signal_picker_view(selected_index),
{
    let mut lines: Vec<Vec<Piece>> = Vec::new();
    push_line(&mut lines, blank());
    push_line(&mut lines, single("  Select a signal to send:", Tone::Yellow));
    push_line(&mut lines, blank());
    let ghost head = lines_view(lines@);
    let signals = KillSignal::all();
    let mut i: usize = 0;
    while i < signals.len()
        invariant
            i <= signals.len(),
            signals@ == KillSignal::all_signals(),
            signals@.len() == 6,
            lines_view(lines@) == head + Seq::new(i as nat, |j: int| signal_line(KillSignal::all_signals()[j], j == selected_index)),
        decreases signals.len() - i,
    {
        let sig = signals[i];
        let is_selected = i == selected_index;
        let tone = if is_selected { Tone::CyanBold } else { Tone::White };
        let name = pad(&text(sig.name()), 10, true);
        let dparts = vec![text(" - "), text(sig.description())];
        proof {
            assert(texts_of(dparts@) =~= seq![" - "@, sig.signal_description()]);
            reveal_with_fuel(concat, 3);
        }
        let desc = concat_strings(&dparts);
        let ghost nv = name@;
        let ghost dv = desc@;
        let l = vec![
            piece(if is_selected { " ▸ " } else { "   " }, tone),
            Piece { text: name, tone },
            Piece { text: desc, tone: if is_selected { Tone::Gray } else { Tone::DarkGray } },
        ];
        assert(pieces(l@) =~= signal_line(sig, is_selected));
        push_line(&mut lines, l);
        assert(Seq::new((i + 1) as nat, |j: int| signal_line(KillSignal::all_signals()[j], j == selected_index))
            =~= Seq::new(i as nat, |j: int| signal_line(KillSignal::all_signals()[j], j == selected_index)).push(signal_line(sig, is_selected)));
        i += 1;
    }
    push_line(&mut lines, blank());
    let last = vec![
        piece("  [Enter] ", Tone::Green),
        piece("Send  ", Tone::White),
        piece("[Up/Down] ", Tone::Yellow),
        piece("Select  ", Tone::White),
        piece("[Esc] ", Tone::Red),
        piece("Cancel", Tone::White),
    ];
    assert(pieces(last@) =~= seq![
        ("  [Enter] "@, Tone::Green),
        ("Send  "@, Tone::White),
        ("[Up/Down] "@, Tone::Yellow),
        ("Select  "@, Tone::White),
        ("[Esc] "@, Tone::Red),
        ("Cancel"@, Tone::White),
    ]);
    push_line(&mut lines, last);
    assert(lines_view(lines@) =~= signal_picker_view(selected_index));
    lines
}

// ─── Log tab ─────────────────────────────────────────────────────────

/// The tone of a log line: red for errors, yellow for warnings, dark for
/// debug output (by the words `ERROR`/`error`, `WARN`/`warn`,
/// `DEBUG`/`debug`), white otherwise.
pub open spec fn log_tone(line: Seq<char>) -> Tone {
    if has_substring(line, "ERROR"@) || has_substring(line, "error"@) {
        Tone::Red
    } else if has_substring(line, "WARN"@) || has_substring(line, "warn"@) {
        Tone::Yellow
    } else if has_substring(line, "DEBUG"@) || has_substring(line, "debug"@) {
        Tone::DarkGray
    } else {
        Tone::White
    }
}

/// The tone of a log line.
pub fn log_line_tone(line: &String) -> (t: Tone)
    ensures
        t == log_tone(line@),
{
    let l = chars_of(line.as_str());
    if contains_chars(&l, &chars_of("ERROR")) || contains_chars(&l, &chars_of("error")) {
        Tone::Red
    } else if contains_chars(&l, &chars_of("WARN")) || contains_chars(&l, &chars_of("warn")) {
        Tone::Yellow
    } else if contains_chars(&l, &chars_of("DEBUG")) || contains_chars(&l, &chars_of("debug")) {
        Tone::DarkGray
    } else {
        Tone::White
    }
}

/// The lines of the log tab: without a followed file, a note on where logs
/// are looked for; with one but no lines yet, the source and a waiting
/// note; otherwise the source, a rule `rule_len` segments long and each
/// kept line, indented and toned.
pub open spec fn log_tab_view(
    source: Option<Seq<char>>,
    kept: Seq<Seq<char>>,
    rule_len: nat,
) -> Seq<Seq<(Seq<char>, Tone)>> {
    match source {
        Some(path) => if kept.len() == 0 {
            seq![field_line("  Source: "@, path), blank_line(), seq![("  Waiting for log output..."@, Tone::DarkGray)]]
        } else {
            seq![field_line("  Source: "@, path), seq![(crate::text::repeated("  ─"@, rule_len), Tone::DarkGray)]]
                + kept.map_values(|l: Seq<char>| seq![("  "@ + l, log_tone(l))])
        },
        None => seq![
            blank_line(),
            seq![("  No log source detected"@, Tone::DarkGrayItalic)],
            blank_line(),
            seq![("  ntop looks for log files in the process working directory:"@, Tone::DarkGray)],
            seq![("    *.log, logs/*.log, .next/trace, npm-debug.log, etc."@, Tone::DarkGray)],
        ],
    }
}

/// The lines of the log tab for an area `width` columns wide.
pub fn log_tab_lines(streamer: Option<&LogStreamer>, width: u16) -> (v: Vec<Vec<Piece>>)
    ensures
        lines_view(v@) == log_tab_view(
            match streamer {
                Some(s) => s.path_view(),
                None => None,
            },
            match streamer {
                Some(s) => s.lines(),
                None => Seq::empty(),
            },
            (if width > 4 { (width - 4) as nat } else { 0nat }) / 2,
        ),
{
    let mut lines: Vec<Vec<Piece>> = Vec::new();
    match streamer {
        Some(st) => {
            match st.source_path() {
                Some(path) => {
                    push_line(&mut lines, field("  Source: ", path.clone()));
                    let buffer = st.buffer();
                    if buffer.len() == 0 {
                        push_line(&mut lines, blank());
                        push_line(&mut lines, single("  Waiting for log output...", Tone::DarkGray));
                        assert(crate::log::streamer::string_views(buffer@).len() == 0);
                        assert(lines_view(lines@) =~= log_tab_view(st.path_view(), st.lines(), ((if width > 4 { (width - 4) as nat } else { 0nat }) / 2)));
                        return lines;
                    }
                    let n: usize = (width.saturating_sub(4) as usize) / 2;
                    let rule = repeat_str("  ─", n);
                    let ghost rv = rule@;
                    let l = vec![Piece { text: rule, tone: Tone::DarkGray }];
                    assert(pieces(l@) =~= seq![(rv, Tone::DarkGray)]);
                    push_line(&mut lines, l);
                    let ghost head = lines_view(lines@);
                    let ghost kept = crate::log::streamer::string_views(buffer@);
                    let mut i: usize = 0;
                    while i < buffer.len()
                        invariant
                            i <= buffer.len(),
                            kept == crate::log::streamer::string_views(buffer@),
                            lines_view(lines@) == head + kept.take(i as int).map_values(|l: Seq<char>| seq![("  "@ + l, log_tone(l))]),
                        decreases buffer.len() - i,
                    {
                        let line = &buffer[i];
                        assert(kept[i as int] == line@);
                        let parts = vec![text("  "), line.clone()];
                        proof {
                            assert(texts_of(parts@) =~= seq!["  "@, line@]);
                            reveal_with_fuel(concat, 3);
                        }
                        let t = concat_strings(&parts);
                        let ghost tv = t@;
                        let tone = log_line_tone(line);
                        let l = vec![Piece { text: t, tone }];
                        assert(pieces(l@) =~= seq![(tv, tone)]);
                        push_line(&mut lines, l);
                        assert(kept.take(i + 1).map_values(|l: Seq<char>| seq![("  "@ + l, log_tone(l))]) =~= kept.take(i as int).map_values(|l: Seq<char>| seq![("  "@ + l, log_tone(l))]).push(seq![("  "@ + kept[i as int], log_tone(kept[i as int]))]));
                        i += 1;
                    }
                    assert(kept.take(kept.len() as int) =~= kept);
                    assert(lines_view(lines@) =~= log_tab_view(st.path_view(), st.lines(), ((if width > 4 { (width - 4) as nat } else { 0nat }) / 2)));
                    return lines;
                },
                None => {},
            }
        },
        None => {},
    }
    push_line(&mut lines, blank());
    push_line(&mut lines, single("  No log source detected", Tone::DarkGrayItalic));
    push_line(&mut lines, blank());
    push_line(&mut lines, single("  ntop looks for log files in the process working directory:", Tone::DarkGray));
    push_line(&mut lines, single("    *.log, logs/*.log, .next/trace, npm-debug.log, etc.", Tone::DarkGray));
    assert(lines_view(lines@) =~= log_tab_view(None, Seq::empty(), ((if width > 4 { (width - 4) as nat } else { 0nat }) / 2)));
    lines
}

// ─── Top bar, tabs, info tab, help ───────────────────────────────────

/// Bit pattern of `50.0f32`.
pub const F32_FIFTY: u32 = 0x4248_0000u32;

/// The `f32` with bit pattern `a` is greater than the one with pattern `b`.
pub open spec fn f32_above(a: u32, b: u32) -> bool {
    !f32_is_nan(a) && !f32_is_nan(b) && f32_order_key(a) > f32_order_key(b)
}

/// The tone of the system CPU figure: red above 80%, yellow above 50%,
/// green otherwise.
pub open spec fn cpu_tone(bits: u32) -> Tone {
    if f32_above(bits, F32_EIGHTY) {
        Tone::Red
    } else if f32_above(bits, F32_FIFTY) {
        Tone::Yellow
    } else {
        Tone::Green
    }
}

/// Number of rows showing a classified server.
pub open spec fn server_rows(rows: Seq<(ProcessView, int)>) -> nat
    decreases rows.len(),
{
    if rows.len() == 0 {
        0
    } else {
        server_rows(rows.drop_last()) + if rows.last().0.runtime is Some { 1nat } else { 0nat }
    }
}

/// The top bar: version, CPU (its text given), memory in MiB, the number
/// of servers (or Node servers) on screen, the refresh interval and the
/// help key.
pub open spec fn top_bar_pieces(app: App, version: Seq<char>, cpu_text: Seq<char>) -> Seq<(Seq<char>, Tone)> {
    seq![
        (" ntop v"@ + version, Tone::CyanBold),
        ("  |  "@, Tone::DarkGray),
        ("CPU: "@, Tone::Gray),
        (cpu_text, cpu_tone(app.system_cpu_bits)),
        ("  MEM: "@, Tone::Gray),
        (decimal((app.system_memory_used / 1048576) as nat) + "/"@ + decimal((app.system_memory_total / 1048576) as nat) + "MB"@, Tone::White),
        ("  |  "@, Tone::DarkGray),
        (if app.node_only { "Nodes: "@ } else { "Servers: "@ }, Tone::Gray),
        (decimal(server_rows(row_views(app.flat_list@))), Tone::White),
        (if app.node_only { " [Node-only]"@ } else { ""@ }, Tone::YellowBold),
        ("  |  "@, Tone::DarkGray),
        ("Refresh: "@, Tone::Gray),
        (decimal(app.refresh_secs as nat) + "s"@, Tone::White),
        ("  |  "@, Tone::DarkGray),
        ("[H]"@, Tone::Yellow),
        ("elp"@, Tone::Gray),
    ]
}

/// The top bar, given the program version and the CPU figure's text.
pub fn top_bar(app: &App, version: &str, cpu_text: String) -> (v: Vec<Piece>)
    ensures
        pieces(v@) == top_bar_pieces(*app, version@, cpu_text@),
{
    let ghost rv = row_views(app.flat_list@);
    let mut count: u64 = 0;
    let mut i: usize = 0;
    assert(rv.take(0) =~= Seq::<(ProcessView, int)>::empty());
    while i < app.flat_list.len()
        invariant
            i <= app.flat_list.len(),
            rv == row_views(app.flat_list@),
            count == server_rows(rv.take(i as int)),
            count <= i,
        decreases app.flat_list.len() - i,
    {
        assert(rv.take(i + 1).drop_last() =~= rv.take(i as int));
        assert(rv.take(i + 1).last().0 == app.flat_list@[i as int].0@);
        if app.flat_list[i].0.is_server() {
            count += 1;
        }
        i += 1;
    }
    assert(rv.take(rv.len() as int) =~= rv);
    let vparts = vec![text(" ntop v"), text(version)];
    let mparts = vec![
        decimal_string(app.system_memory_used / 1048576),
        text("/"),
        decimal_string(app.system_memory_total / 1048576),
        text("MB"),
    ];
    let rparts = vec![decimal_string(app.refresh_secs), text("s")];
    proof {
        assert(texts_of(vparts@) =~= seq![" ntop v"@, version@]);
        assert(texts_of(mparts@) =~= seq![mparts@[0]@, "/"@, mparts@[2]@, "MB"@]);
        assert(texts_of(rparts@) =~= seq![rparts@[0]@, "s"@]);
        reveal_with_fuel(concat, 5);
    }
    let cpu_tone_v = if !f32_nan(app.system_cpu_bits) && f32_key(app.system_cpu_bits) > f32_key(F32_EIGHTY) {
        Tone::Red
    } else if !f32_nan(app.system_cpu_bits) && f32_key(app.system_cpu_bits) > f32_key(F32_FIFTY) {
        Tone::Yellow
    } else {
        Tone::Green
    };
    assert(!f32_is_nan(F32_EIGHTY) && !f32_is_nan(F32_FIFTY)) by (bit_vector);
    let v = vec![
        Piece { text: concat_strings(&vparts), tone: Tone::CyanBold },
        piece("  |  ", Tone::DarkGray),
        piece("CPU: ", Tone::Gray),
        Piece { text: cpu_text, tone: cpu_tone_v },
        piece("  MEM: ", Tone::Gray),
        Piece { text: concat_strings(&mparts), tone: Tone::White },
        piece("  |  ", Tone::DarkGray),
        piece(if app.node_only { "Nodes: " } else { "Servers: " }, Tone::Gray),
        Piece { text: decimal_string(count), tone: Tone::White },
        piece(if app.node_only { " [Node-only]" } else { "" }, Tone::YellowBold),
        piece("  |  ", Tone::DarkGray),
        piece("Refresh: ", Tone::Gray),
        Piece { text: concat_strings(&rparts), tone: Tone::White },
        piece("  |  ", Tone::DarkGray),
        piece("[H]", Tone::Yellow),
        piece("elp", Tone::Gray),
    ];
    assert(pieces(v@) =~= top_bar_pieces(*app, version@, cpu_text@));
    v
}

/// The tab-bar titles (each tab's title between spaces), in tab order.
pub open spec fn tab_title_texts() -> Seq<Seq<char>> {
    Seq::new(4, |i: int| " "@ + DetailTab::at(i).title() + " "@)
}

/// The tab-bar titles; the highlighted one is at the active tab's index.
pub fn tab_titles() -> (v: Vec<String>)
    ensures
        texts_of(v@) == tab_title_texts(),
{
    let tabs = DetailTab::all();
    let mut v: Vec<String> = Vec::new();
    let mut i: usize = 0;
    while i < tabs.len()
        invariant
            i <= tabs.len(),
            tabs@.len() == 4,
            forall|j: int| 0 <= j < 4 ==> #[trigger] tabs@[j] == DetailTab::at(j),
            texts_of(v@) == Seq::new(i as nat, |j: int| " "@ + DetailTab::at(j).title() + " "@),
        decreases tabs.len() - i,
    {
        let parts = vec![text(" "), text(tabs[i].label()), text(" ")];
        proof {
            assert(texts_of(parts@) =~= seq![" "@, tabs@[i as int].title(), " "@]);
            reveal_with_fuel(concat, 4);
        }
        let t = concat_strings(&parts);
        let ghost tv = t@;
        let ghost prev = v@;
        v.push(t);
        assert(tabs@[i as int] == DetailTab::at(i as int));
        assert(texts_of(v@) =~= texts_of(prev).push(tv));
        assert(texts_of(v@) =~= Seq::new((i + 1) as nat, |j: int| " "@ + DetailTab::at(j).title() + " "@));
        i += 1;
    }
    assert(texts_of(v@) =~= tab_title_texts());
    v
}

/// One line of the info tab: the key right-aligned to twelve characters.
pub open spec fn info_line(key: Seq<char>, value: Seq<char>) -> Seq<(Seq<char>, Tone)> {
    seq![("  "@ + pad_left(key, 12) + ": "@, Tone::CyanBold), (value, Tone::White)]
}

/// The info tab's fields for a process, the CPU figure's text given.
pub open spec fn info_fields(p: ProcessInfo, cpu_text: Seq<char>) -> Seq<(Seq<char>, Seq<char>)> {
    let v = p@;
    seq![
        ("PID"@, decimal(v.pid as nat)),
        ("PPID"@, decimal(v.ppid as nat)),
        ("Name"@, v.name),
        ("Framework"@, v.framework.label()),
        ("Version"@, match v.framework_version { Some(x) => x, None => "-"@ }),
        ("Ports"@, if v.ports.len() == 0 { "-"@ } else { ports_joined(v.ports, ", "@) }),
        ("CPU"@, cpu_text),
        ("Memory"@, bytes_text(v.memory_rss)),
        ("Memory (VMS)"@, bytes_text(v.memory_vms)),
        ("Threads"@, decimal(v.threads as nat)),
        ("Uptime"@, uptime_text((duration_nanos(p.uptime) / 1_000_000_000) as nat)),
        ("User"@, v.user),
        ("Status"@, v.status),
        ("Health"@, ProcessInfo::health_of(v).label()),
        ("Open FDs"@, decimal(v.open_fds as nat)),
        ("CWD"@, v.cwd),
        ("Command"@, v.command),
    ]
}

fn info_line_of(key: &str, value: String) -> (l: Vec<Piece>)
    ensures
        pieces(l@) == info_line(key@, value@),
{
    let k = pad(&text(key), 12, false);
    let parts = vec![text("  "), k, text(": ")];
    proof {
        assert(texts_of(parts@) =~= seq!["  "@, parts@[1]@, ": "@]);
        reveal_with_fuel(concat, 4);
    }
    let t = concat_strings(&parts);
    let ghost tv = t@;
    let ghost vv = value@;
    let l = vec![Piece { text: t, tone: Tone::CyanBold }, Piece { text: value, tone: Tone::White }];
    assert(pieces(l@) =~= info_line(key@, vv));
    l
}

/// The lines of the info tab.
pub fn info_lines(process: &ProcessInfo, cpu_text: String) -> (v: Vec<Vec<Piece>>)
    ensures
        lines_view(v@) == info_fields(*process, cpu_text@).map_values(|f: (Seq<char>, Seq<char>)| info_line(f.0, f.1)),
{
    let ports = if process.ports.len() == 0 {
        text("-")
    } else {
        ports_text(&process.ports, ", ")
    };
    let version = match &process.framework_version {
        Some(x) => x.clone(),
        None => text("-"),
    };
    let mut v: Vec<Vec<Piece>> = Vec::new();
    push_line(&mut v, info_line_of("PID", decimal_string(process.pid as u64)));
    push_line(&mut v, info_line_of("PPID", decimal_string(process.ppid as u64)));
    push_line(&mut v, info_line_of("Name", process.name.clone()));
    push_line(&mut v, info_line_of("Framework", process.framework.to_string()));
    push_line(&mut v, info_line_of("Version", version));
    push_line(&mut v, info_line_of("Ports", ports));
    push_line(&mut v, info_line_of("CPU", cpu_text));
    push_line(&mut v, info_line_of("Memory", process.memory_display()));
    push_line(&mut v, info_line_of("Memory (VMS)", format_bytes(process.memory_vms)));
    push_line(&mut v, info_line_of("Threads", decimal_string(process.threads as u64)));
    push_line(&mut v, info_line_of("Uptime", process.uptime_display()));
    push_line(&mut v, info_line_of("User", process.user.clone()));
    push_line(&mut v, info_line_of("Status", process.status.clone()));
    push_line(&mut v, info_line_of("Health", process.health().to_string()));
    push_line(&mut v, info_line_of("Open FDs", decimal_string(process.open_fds as u64)));
    push_line(&mut v, info_line_of("CWD", process.cwd.clone()));
    push_line(&mut v, info_line_of("Command", process.command.clone()));
    assert(lines_view(v@) =~= info_fields(*process, cpu_text@).map_values(|f: (Seq<char>, Seq<char>)| info_line(f.0, f.1)));
    v
}

/// A section title of the help dialog.
pub open spec fn help_section(title: Seq<char>) -> Seq<(Seq<char>, Tone)> {
    seq![("  -- "@ + title + " --"@, Tone::YellowBold)]
}

/// A key line of the help dialog, the key padded to fourteen characters.
pub open spec fn help_key(key: Seq<char>, desc: Seq<char>) -> Seq<(Seq<char>, Tone)> {
    seq![("    "@ + pad_right(key, 14), Tone::Green), (desc, Tone::White)]
}

/// The lines of the help dialog.
pub open spec fn help_view(version: Seq<char>) -> Seq<Seq<(Seq<char>, Tone)>> {
    seq![
        blank_line(),
        seq![("  ntop v"@ + version, Tone::CyanBold)],
        blank_line(),
        help_section("Process List (default focus)"@),
        help_key("Up/Down"@, "Move cursor"@),
        help_key("PgUp/PgDn"@, "Page up/down"@),
        help_key("Home/End"@, "Jump to first/last"@),
        help_key("Enter"@, "Expand / collapse tree"@),
        help_key("Left/Right"@, "Collapse / expand node"@),
        help_key("Space"@, "Toggle multi-select"@),
        help_key("Tab"@, "Move focus to detail panel"@),
        blank_line(),
        help_section("Detail Panel (Tab to enter)"@),
        help_key("Tab"@, "Next detail tab"@),
        help_key("Shift+Tab"@, "Previous detail tab"@),
        help_key("Up/Down"@, "Scroll content"@),
        help_key("PgUp/PgDn"@, "Page content"@),
        help_key("Esc"@, "Return to process list"@),
        blank_line(),
        help_section("Filtering & Sort"@),
        help_key("/"@, "Open filter input"@),
        help_key("s"@, "Cycle sort column"@),
        help_key("r"@, "Reverse sort direction"@),
        blank_line(),
        help_section("Process Control"@),
        help_key("x"@, "Kill selected (SIGTERM)"@),
        help_key("K"@, "Kill process tree"@),
        help_key("S"@, "Open signal picker"@),
        blank_line(),
        help_section("General"@),
        help_key("e"@, "Toggle expand/collapse all"@),
        help_key("+/-"@, "Adjust refresh interval"@),
        help_key("H"@, "Show this help"@),
        help_key("q / Ctrl+C"@, "Quit"@),
        blank_line(),
        seq![("  Press "@, Tone::DarkGray), ("Esc"@, Tone::Yellow), (" to close"@, Tone::DarkGray)],
    ]
}

fn help_section_line(title: &str) -> (l: Vec<Piece>)
    ensures
        pieces(l@) == help_section(title@),
{
    let parts = vec![text("  -- "), text(title), text(" --")];
    proof {
        assert(texts_of(parts@) =~= seq!["  -- "@, title@, " --"@]);
        reveal_with_fuel(concat, 4);
    }
    let t = concat_strings(&parts);
    let ghost tv = t@;
    let l = vec![Piece { text: t, tone: Tone::YellowBold }];
    assert(pieces(l@) =~= help_section(title@));
    l
}

fn help_key_line(key: &str, desc: &str) -> (l: Vec<Piece>)
    ensures
        pieces(l@) == help_key(key@, desc@),
{
    let parts = vec![text("    "), pad(&text(key), 14, true)];
    proof {
        assert(texts_of(parts@) =~= seq!["    "@, parts@[1]@]);
        reveal_with_fuel(concat, 3);
    }
    let t = concat_strings(&parts);
    let ghost tv = t@;
    let l = vec![Piece { text: t, tone: Tone::Green }, piece(desc, Tone::White)];
    assert(pieces(l@) =~= help_key(key@, desc@));
    l
}

/// The lines of the help dialog, given the program version.
pub fn help_lines(version: &str) -> (v: Vec<Vec<Piece>>)
    ensures
        lines_view(v@) == help_view(version@),
{
    let mut v: Vec<Vec<Piece>> = Vec::new();
    push_line(&mut v, blank());
    let parts = vec![text("  ntop v"), text(version)];
    proof {
        assert(texts_of(parts@) =~= seq!["  ntop v"@, version@]);
        reveal_with_fuel(concat, 3);
    }
    let t = concat_strings(&parts);
    let ghost tv = t@;
    let l = vec![Piece { text: t, tone: Tone::CyanBold }];
    assert(pieces(l@) =~= seq![(tv, Tone::CyanBold)]);
    push_line(&mut v, l);
    push_line(&mut v, blank());
    push_line(&mut v, help_section_line("Process List (default focus)"));
    push_line(&mut v, help_key_line("Up/Down", "Move cursor"));
    push_line(&mut v, help_key_line("PgUp/PgDn", "Page up/down"));
    push_line(&mut v, help_key_line("Home/End", "Jump to first/last"));
    push_line(&mut v, help_key_line("Enter", "Expand / collapse tree"));
    push_line(&mut v, help_key_line("Left/Right", "Collapse / expand node"));
    push_line(&mut v, help_key_line("Space", "Toggle multi-select"));
    push_line(&mut v, help_key_line("Tab", "Move focus to detail panel"));
    push_line(&mut v, blank());
    push_line(&mut v, help_section_line("Detail Panel (Tab to enter)"));
    push_line(&mut v, help_key_line("Tab", "Next detail tab"));
    push_line(&mut v, help_key_line("Shift+Tab", "Previous detail tab"));
    push_line(&mut v, help_key_line("Up/Down", "Scroll content"));
    push_line(&mut v, help_key_line("PgUp/PgDn", "Page content"));
    push_line(&mut v, help_key_line("Esc", "Return to process list"));
    push_line(&mut v, blank());
    push_line(&mut v, help_section_line("Filtering & Sort"));
    push_line(&mut v, help_key_line("/", "Open filter input"));
    push_line(&mut v, help_key_line("s", "Cycle sort column"));
    push_line(&mut v, help_key_line("r", "Reverse sort direction"));
    push_line(&mut v, blank());
    push_line(&mut v, help_section_line("Process Control"));
    push_line(&mut v, help_key_line("x", "Kill selected (SIGTERM)"));
    push_line(&mut v, help_key_line("K", "Kill process tree"));
    push_line(&mut v, help_key_line("S", "Open signal picker"));
    push_line(&mut v, blank());
    push_line(&mut v, help_section_line("General"));
    push_line(&mut v, help_key_line("e", "Toggle expand/collapse all"));
    push_line(&mut v, help_key_line("+/-", "Adjust refresh interval"));
    push_line(&mut v, help_key_line("H", "Show this help"));
    push_line(&mut v, help_key_line("q / Ctrl+C", "Quit"));
    push_line(&mut v, blank());
    let last = vec![piece("  Press ", Tone::DarkGray), piece("Esc", Tone::Yellow), piece(" to close", Tone::DarkGray)];
    assert(pieces(last@) =~= seq![("  Press "@, Tone::DarkGray), ("Esc"@, Tone::Yellow), (" to close"@, Tone::DarkGray)]);
    push_line(&mut v, last);
    assert(lines_view(v@) =~= help_view(version@));
    v
}

} // verus!
