use ntop::commands::{
    asks_before_kill, confirmed, csv_record, kill_plan, kill_signal_choice, process_kind, table_header, table_row,
    KillPlan,
};
use ntop::config::Config;
use ntop::process::format::format_bytes;
use ntop::process::framework::FrameworkDetector;
use ntop::process::killer::{kill_request, KillSignal};
use ntop::process::network::{IpAddress, NetworkInspector};
use ntop::process::tree::TreeBuilder;
use ntop::process::{FrameworkKind, HealthStatus, ProcessInfo, Runtime};
use ntop::tui::app::{App, DetailTab, DialogKind, SortColumn};
use ntop::tui::ui::{handle_key, KeyCode, KeyEvent, KillOrder};
use ntop::tui::widgets::{
    bottom_bar, centered_rect, connection_tone, list_column_widths, count_descendants, net_tab_lines, env_tab_lines, header_cells, help_lines,
    info_lines, is_sensitive, key_hint, kill_dialog, list_title, log_tab_lines, ports_text,
    row_text, signal_picker_lines, tab_titles, top_bar, tree_prefix, wrapped_line_count, Area,
    Tone,
};
use std::time::Duration;

fn proc_with(pid: u32, ppid: u32, name: &str) -> ProcessInfo {
    let mut p = ProcessInfo::new(pid, name);
    p.ppid = ppid;
    p
}

fn key(code: KeyCode) -> KeyEvent {
    KeyEvent { code, ctrl: false }
}

fn sample_app() -> App {
    let mut app = App::new(Config::default());
    app.update_processes(vec![
        proc_with(100, 1, "shell"),
        proc_with(101, 100, "next-server"),
        proc_with(102, 100, "worker"),
        proc_with(200, 1, "other"),
    ]);
    app
}

// ─── App state ───────────────────────────────────────────────────────

#[test]
fn test_app_new_defaults() {
    let app = App::new(Config::default());
    assert!(app.flat_list.is_empty());
    assert_eq!(app.selected_index, 0);
    assert_eq!(app.sort_column, SortColumn::Pid);
    assert!(app.sort_ascending);
    assert_eq!(app.refresh_secs, 1);
    assert_eq!(app.table_selected, Some(0));
    assert!(app.default_expanded);
}

#[test]
fn test_first_scan_expands_everything() {
    let app = sample_app();
    let rows: Vec<(u32, usize)> = app.flat_list.iter().map(|(p, d)| (p.pid, *d)).collect();
    assert_eq!(rows, vec![(100, 0), (101, 1), (102, 1), (200, 0)]);
    assert_eq!(app.process_trees.len(), 2);
    assert!(app.known_pids.contains(&102));
}

#[test]
fn test_collapse_then_move_to_parent() {
    let mut app = sample_app();
    app.collapse_selected();
    assert_eq!(app.flat_list.len(), 2);
    // The collapsed row keeps placeholders for its children.
    assert_eq!(app.flat_list[0].0.children.len(), 2);
    app.expand_selected();
    assert_eq!(app.flat_list.len(), 4);
    // Already expanded: moves into the first child.
    app.expand_selected();
    assert_eq!(app.selected_index, 1);
    // Every PID of the first scan starts expanded, leaves too: the first
    // Left on a leaf only drops it from the expanded set, the second moves
    // to the parent row.
    app.collapse_selected();
    assert_eq!(app.selected_index, 1);
    assert!(!app.expanded_pids.contains(&101));
    app.collapse_selected();
    assert_eq!(app.selected_index, 0);
}

#[test]
fn test_toggle_expand_all_twice() {
    let mut app = sample_app();
    app.toggle_expand_all();
    assert!(app.expanded_pids.is_empty());
    assert!(!app.default_expanded);
    assert_eq!(app.flat_list.len(), 2);
    app.toggle_expand_all();
    assert!(app.expanded_pids.contains(&100));
    assert_eq!(app.flat_list.len(), 4);
}

#[test]
fn test_selection_clamped_after_filter() {
    let mut app = sample_app();
    app.selected_index = 3;
    app.filter_text = "next".to_string();
    app.rebuild_view();
    assert_eq!(app.flat_list.len(), 1);
    assert_eq!(app.selected_index, 0);
    assert_eq!(app.table_selected, Some(0));
    app.filter_text = "nothing-matches".to_string();
    app.rebuild_view();
    assert!(app.flat_list.is_empty());
    assert_eq!(app.table_selected, None);
}

#[test]
fn test_move_up_down_and_bounds() {
    let mut app = sample_app();
    app.move_up();
    assert_eq!(app.selected_index, 0);
    app.move_down();
    app.move_down();
    app.move_down();
    app.move_down();
    assert_eq!(app.selected_index, 3);
    app.detail_scroll = 7;
    app.move_up();
    assert_eq!(app.selected_index, 2);
    assert_eq!(app.detail_scroll, 0);
}

#[test]
fn test_toggle_select_twice_restores() {
    let mut app = sample_app();
    app.toggle_select();
    assert!(app.selected_pids.contains(&100));
    app.toggle_select();
    assert!(app.selected_pids.is_empty());
}

#[test]
fn test_tabs_and_sort_cycle() {
    let mut app = App::new(Config::default());
    app.next_tab();
    assert_eq!(app.active_tab, DetailTab::Log);
    app.prev_tab();
    assert_eq!(app.active_tab, DetailTab::Info);
    app.prev_tab();
    assert_eq!(app.active_tab, DetailTab::Env);
    for _ in 0..9 {
        app.toggle_sort();
    }
    assert_eq!(app.sort_column, SortColumn::Pid);
    assert_eq!(SortColumn::Uptime.next(), SortColumn::Pid);
    assert_eq!(SortColumn::Threads.label(), "THR");
    assert_eq!(DetailTab::all().len(), 4);
}

#[test]
fn test_selected_kill_signal_wraps() {
    let mut app = App::new(Config::default());
    app.signal_picker_index = 7;
    assert_eq!(app.selected_kill_signal(), KillSignal::Kill);
}

#[test]
fn test_detail_scroll_limits() {
    let mut app = App::new(Config::default());
    app.detail_content_lines = 30;
    app.detail_view_height = 10;
    assert_eq!(app.detail_max_scroll(), 20);
    app.detail_scroll = 50;
    app.log_scroll = 5;
    app.clamp_detail_scroll();
    assert_eq!(app.detail_scroll, 20);
    assert_eq!(app.log_scroll, 5);
    app.detail_view_height = 40;
    assert_eq!(app.detail_max_scroll(), 0);
}

#[test]
fn test_find_process_in_trees() {
    let app = sample_app();
    assert_eq!(app.find_process_in_trees(102).unwrap().name, "worker");
    assert!(app.find_process_in_trees(999).is_none());
}

// ─── Keys ────────────────────────────────────────────────────────────

#[test]
fn test_ctrl_c_and_q_quit() {
    let mut app = App::new(Config::default());
    handle_key(&mut app, KeyEvent { code: KeyCode::Char('c'), ctrl: true });
    assert!(app.should_quit);
    let mut app = App::new(Config::default());
    handle_key(&mut app, key(KeyCode::Char('q')));
    assert!(app.should_quit);
}

#[test]
fn test_refresh_keys_clamp() {
    let mut app = App::new(Config::default());
    handle_key(&mut app, key(KeyCode::Char('-')));
    assert_eq!(app.refresh_secs, 1);
    assert!(app.refresh_changed);
    app.refresh_secs = 59;
    handle_key(&mut app, key(KeyCode::Char('+')));
    handle_key(&mut app, key(KeyCode::Char('+')));
    assert_eq!(app.refresh_secs, 60);
}

#[test]
fn test_filter_typing_and_escape() {
    let mut app = sample_app();
    handle_key(&mut app, key(KeyCode::Char('/')));
    assert!(app.filter_active);
    handle_key(&mut app, key(KeyCode::Char('a')));
    handle_key(&mut app, key(KeyCode::Char('b')));
    assert_eq!(app.filter_text, "ab");
    handle_key(&mut app, key(KeyCode::Backspace));
    assert_eq!(app.filter_text, "a");
    handle_key(&mut app, key(KeyCode::Esc));
    assert!(!app.filter_active);
    assert_eq!(app.filter_text, "");
}

#[test]
fn test_dialogs_open_and_close() {
    let mut app = App::new(Config::default());
    // No selected row: the kill dialog does not open.
    handle_key(&mut app, key(KeyCode::Char('x')));
    assert_eq!(app.dialog, None);
    handle_key(&mut app, key(KeyCode::Char('H')));
    assert_eq!(app.dialog, Some(DialogKind::Help));
    let r = handle_key(&mut app, key(KeyCode::Char('q')));
    assert!(r.is_none());
    assert_eq!(app.dialog, None);
    assert!(!app.should_quit);
}

#[test]
fn test_signal_picker_navigation_without_selection() {
    let mut app = App::new(Config::default());
    app.dialog = Some(DialogKind::SignalPicker);
    handle_key(&mut app, key(KeyCode::Up));
    assert_eq!(app.signal_picker_index, 0);
    for _ in 0..10 {
        handle_key(&mut app, key(KeyCode::Down));
    }
    assert_eq!(app.signal_picker_index, 5);
    let r = handle_key(&mut app, key(KeyCode::Enter));
    assert!(r.is_none());
    assert_eq!(app.dialog, None);
}

#[test]
fn test_kill_confirm_sends_term_to_selected() {
    let mut app = App::new(Config::default());
    // A PID above any real pid_max.
    app.update_processes(vec![proc_with(4_000_000, 1, "ghost")]);
    handle_key(&mut app, key(KeyCode::Char('x')));
    assert_eq!(app.dialog, Some(DialogKind::KillConfirm));
    let r = handle_key(&mut app, key(KeyCode::Enter));
    match r {
        Some(KillOrder::Signal(pid, sig)) => {
            assert_eq!(pid, 4_000_000);
            assert_eq!(sig, KillSignal::Term);
        }
        other => panic!("unexpected {:?}", other),
    }
    assert_eq!(app.dialog, None);
}

#[test]
fn test_kill_tree_sends_subtree() {
    let mut app = App::new(Config::default());
    app.update_processes(vec![proc_with(4_000_000, 1, "root"), proc_with(4_000_001, 4_000_000, "child")]);
    handle_key(&mut app, key(KeyCode::Char('K')));
    let r = handle_key(&mut app, key(KeyCode::Enter));
    match r {
        Some(KillOrder::Tree(pids, sig)) => {
            assert_eq!(pids, vec![4_000_000, 4_000_001]);
            assert_eq!(sig, KillSignal::Term);
        }
        other => panic!("unexpected {:?}", other),
    }
}

// ─── Trees ───────────────────────────────────────────────────────────

#[test]
fn test_build_sorts_children_by_pid_and_drops_cycles() {
    let procs = vec![
        proc_with(30, 10, "c"),
        proc_with(10, 1, "root"),
        proc_with(20, 10, "b"),
        // A cycle that no root reaches.
        proc_with(50, 60, "x"),
        proc_with(60, 50, "y"),
    ];
    let trees = TreeBuilder::build(procs);
    assert_eq!(trees.len(), 1);
    let kids: Vec<u32> = trees[0].children.iter().map(|c| c.pid).collect();
    assert_eq!(kids, vec![20, 30]);
}

#[test]
fn test_find_by_pid_depth_first() {
    let trees = TreeBuilder::build(vec![proc_with(1, 0, "a"), proc_with(2, 1, "b"), proc_with(3, 0, "c")]);
    assert_eq!(TreeBuilder::find_by_pid(&trees, 2).unwrap().name, "b");
    assert!(TreeBuilder::find_by_pid(&trees, 9).is_none());
}

#[test]
fn test_sort_by_port_uses_subtree_minimum() {
    let mut a = proc_with(1, 0, "a");
    let mut a_child = proc_with(2, 1, "a-server");
    a_child.ports = vec![8080];
    let mut b = proc_with(3, 0, "b");
    b.ports = vec![3000];
    a.children = vec![];
    let mut trees = TreeBuilder::build(vec![a, a_child, b]);
    TreeBuilder::sort_recursive(&mut trees, SortColumn::Port, true);
    assert_eq!(trees[0].pid, 3);
    TreeBuilder::sort_recursive(&mut trees, SortColumn::Port, false);
    assert_eq!(trees[0].pid, 1);
}

#[test]
fn test_sort_by_cpu_and_uptime() {
    let mut a = proc_with(1, 0, "a");
    a.cpu_percent_bits = 12.5f32.to_bits();
    a.uptime = Duration::from_secs(100);
    let mut b = proc_with(2, 0, "b");
    b.cpu_percent_bits = 3.0f32.to_bits();
    b.uptime = Duration::from_secs(5);
    let mut trees = TreeBuilder::build(vec![a, b]);
    TreeBuilder::sort_recursive(&mut trees, SortColumn::Cpu, true);
    assert_eq!(trees[0].pid, 2);
    TreeBuilder::sort_recursive(&mut trees, SortColumn::Uptime, false);
    assert_eq!(trees[0].pid, 1);
}

#[test]
fn test_sort_by_name_ignores_case_and_is_stable() {
    let procs = vec![proc_with(1, 0, "beta"), proc_with(2, 0, "Alpha"), proc_with(3, 0, "BETA")];
    let mut trees = TreeBuilder::build(procs);
    TreeBuilder::sort_recursive(&mut trees, SortColumn::Name, true);
    let order: Vec<u32> = trees.iter().map(|t| t.pid).collect();
    assert_eq!(order, vec![2, 1, 3]);
}

// ─── Network ─────────────────────────────────────────────────────────

#[test]
fn test_parse_addr_ipv6_forms() {
    let a = NetworkInspector::parse_addr("[::ffff:1.2.3.4]:80").unwrap();
    assert_eq!(a.ip(), IpAddress::V6([0, 0, 0, 0, 0, 0xffff, 0x0102, 0x0304]));
    let b = NetworkInspector::parse_addr("  [fe80::1:2]:443 ").unwrap();
    assert_eq!(b.ip(), IpAddress::V6([0xfe80, 0, 0, 0, 0, 0, 1, 2]));
    assert_eq!(b.port(), 443);
    assert!(NetworkInspector::parse_addr("[1::2::3]:80").is_none());
    assert!(NetworkInspector::parse_addr("[12345::]:80").is_none());
    assert!(NetworkInspector::parse_addr("01.2.3.4:80").is_none());
    assert!(NetworkInspector::parse_addr("1.2.3.256:80").is_none());
    assert_eq!(NetworkInspector::parse_addr("*:+80").unwrap().port(), 80);
}

#[test]
fn test_parse_lsof_output() {
    let out = "p100\ncnode\nn*:3000\nTST=LISTEN\nn127.0.0.1:3000->127.0.0.1:51000\nTST=ESTABLISHED\np200\nnbogus\nn[::1]:8080\nTST=LISTEN\n";
    let map = NetworkInspector::parse_lsof(out);
    let c100 = map.get(&100).unwrap();
    assert_eq!(c100.len(), 2);
    assert_eq!(c100[0].state, "LISTEN");
    assert_eq!(c100[1].remote_addr.unwrap().port(), 51000);
    let c200 = map.get(&200).unwrap();
    assert_eq!(c200.len(), 1);
    assert_eq!(c200[0].local_addr.port(), 8080);
    assert_eq!(NetworkInspector::listening_ports(c100), vec![3000]);
}

#[test]
fn test_parse_netstat_output() {
    let out = "Active Connections\r\n  Proto  Local Address  Foreign Address  State  PID\r\n  TCP    0.0.0.0:3000   0.0.0.0:0   LISTENING   42\r\n  TCP    [::]:8080   [::]:0   LISTENING   7\r\n  TCP   127.0.0.1:5000   10.0.0.2:443   ESTABLISHED   42\r\n  UDP 0.0.0.0:53 *:* 9\r\n";
    let map = NetworkInspector::parse_netstat(out);
    let c42 = map.get(&42).unwrap();
    assert_eq!(c42.len(), 2);
    assert_eq!(c42[0].state, "LISTEN");
    assert_eq!(c42[1].state, "ESTABLISHED");
    assert_eq!(map.get(&7).unwrap()[0].local_addr.port(), 8080);
    assert!(map.get(&9).is_none());
    assert_eq!(NetworkInspector::parse_netstat_addr("*:99").unwrap().ip(), IpAddress::V4([0, 0, 0, 0]));
}

#[test]
fn test_fill_listening_ports_and_lookup() {
    let map = NetworkInspector::parse_lsof("p5\nn*:4000\nTST=LISTEN\np6\nn*:4001\nTST=ESTABLISHED\n");
    let mut procs = vec![proc_with(5, 0, "a"), proc_with(6, 0, "b"), proc_with(7, 0, "c")];
    procs[1].ports = vec![1];
    NetworkInspector::fill_listening_ports(&mut procs, &map);
    assert_eq!(procs[0].ports, vec![4000]);
    assert_eq!(procs[1].ports, vec![1]);
    assert!(procs[2].ports.is_empty());
    assert_eq!(NetworkInspector::listening_ports_for_pid(5, &map), vec![4000]);
    assert_eq!(NetworkInspector::connections_for_pid(6, &map).len(), 1);
    assert!(NetworkInspector::connections_for_pid(9, &map).is_empty());
}

// ─── Text of the view ────────────────────────────────────────────────

#[test]
fn test_format_bytes_matches_float_formatting() {
    let samples: Vec<u64> = vec![
        0, 1, 512, 1023, 1024, 1075, 1126, 1331, 2048, 1_310_720, 1_363_148, 1_048_575, 1_048_576,
        5_242_880, 134_217_728, 1_073_741_823, 1_073_741_824, 1_181_116_006, 1_234_567_890_123,
        u64::MAX,
    ];
    for b in samples {
        let f = b as f64;
        let expect = if f >= 1_073_741_824.0 {
            format!("{:.1} GB", f / 1_073_741_824.0)
        } else if f >= 1_048_576.0 {
            format!("{:.1} MB", f / 1_048_576.0)
        } else if f >= 1_024.0 {
            format!("{:.1} KB", f / 1_024.0)
        } else {
            format!("{} B", b)
        };
        assert_eq!(format_bytes(b), expect, "bytes {}", b);
    }
}

#[test]
fn test_bottom_bar_and_hints() {
    let p = key_hint("q", "Quit");
    assert_eq!(p.text, " [q] Quit ");
    assert_eq!(p.tone, Tone::Yellow);
    let mut app = App::new(Config::default());
    assert_eq!(bottom_bar(&app).len(), 19);
    app.dialog = Some(DialogKind::Help);
    let bar = bottom_bar(&app);
    assert_eq!(bar.len(), 1);
    assert_eq!(bar[0].text, " [Esc] Close ");
}

#[test]
fn test_centered_rect_and_counts() {
    let r = centered_rect(50, 40, Area { x: 0, y: 0, width: 100, height: 50 });
    assert_eq!(r, Area { x: 25, y: 15, width: 50, height: 20 });
    let trees = TreeBuilder::build(vec![proc_with(1, 0, "a"), proc_with(2, 1, "b"), proc_with(3, 2, "c")]);
    assert_eq!(count_descendants(&trees[0]), 2);
    assert_eq!(wrapped_line_count(&vec![10, 0, 25], 10), 1 + 1 + 3);
    assert_eq!(wrapped_line_count(&vec![10, 0, 25], 0), 3);
}

#[test]
fn test_env_masking() {
    assert!(is_sensitive("db_password"));
    assert!(is_sensitive("GITHUB_TOKEN"));
    assert!(!is_sensitive("PATH"));
    let mut p = ProcessInfo::new(1, "node");
    let cfg = Config::default();
    assert_eq!(env_tab_lines(&p, &cfg)[0][0].text, "  No environment variables available.");
    p.env_vars = vec![("API_KEY".to_string(), "abc".to_string()), ("HOME".to_string(), "/root".to_string())];
    let lines = env_tab_lines(&p, &cfg);
    assert_eq!(lines[0][0].text, "  API_KEY");
    assert_eq!(lines[0][2].text, "********");
    assert_eq!(lines[1][2].text, "/root");
}

#[test]
fn test_process_list_text() {
    assert_eq!(tree_prefix(0, true, false), "▸ ");
    assert_eq!(tree_prefix(2, false, false), "    └─ ");
    assert_eq!(tree_prefix(1, true, true), "  ├▾ ");
    let h = header_cells(SortColumn::Cpu, false);
    assert_eq!(h[5], "CPU v");
    assert_eq!(h[1], "PID");
    let mut p = ProcessInfo::new(42, "next-server");
    p.framework = FrameworkKind::NextJs;
    p.ports = vec![3000, 3001];
    p.threads = 7;
    let row = row_text(&p, 0, true, false);
    assert_eq!(row.mark, "[x] ●");
    assert_eq!(row.name, "  next-server (Next.js)");
    assert_eq!(row.ports, "3000,3001");
    assert_eq!(row.threads, "7");
    assert_eq!(row.health, HealthStatus::Healthy);
    assert_eq!(ports_text(&vec![1, 2], ", "), "1, 2");
    let mut app = App::new(Config::default());
    assert_eq!(list_title(&app), " Processes ");
    app.filter_text = "x".to_string();
    assert_eq!(list_title(&app), " Processes (filter: x) ");
}

#[test]
fn test_kill_dialog_text() {
    let mut root = proc_with(10, 1, "root");
    let child = proc_with(11, 10, "kid");
    root.ports = vec![80];
    let (title, lines) = kill_dialog(DialogKind::KillConfirm, Some(&root), None).unwrap();
    assert_eq!(title, " Kill Process ");
    assert_eq!(lines[3][1].text, "10");
    assert_eq!(lines[5][1].text, "80");
    let trees = TreeBuilder::build(vec![root, child]);
    let (title, lines) = kill_dialog(DialogKind::KillTreeConfirm, None, Some(&trees[0])).unwrap();
    assert_eq!(title, " Kill Process Tree ");
    assert_eq!(lines[3][1].text, "PID 10 (root)");
    assert_eq!(lines[4][1].text, "1 process(es)");
    assert_eq!(lines[5][0].text, "      - PID 11 (kid)");
    assert!(kill_dialog(DialogKind::Help, None, None).is_none());
}

#[test]
fn test_picker_log_top_info_help_text() {
    let picker = signal_picker_lines(1);
    assert_eq!(picker.len(), 11);
    assert_eq!(picker[4][0].text, " ▸ ");
    assert_eq!(picker[4][1].text, "SIGKILL   ");
    let none = log_tab_lines(None, 40);
    assert_eq!(none[1][0].text, "  No log source detected");
    let mut st = ntop::log::streamer::LogStreamer::opened("a.log".to_string());
    st.record_lines(vec!["an ERROR here\n".to_string(), "fine\n".to_string()]);
    let lines = log_tab_lines(Some(&st), 10);
    assert_eq!(lines[1][0].text, "  ─  ─  ─");
    assert_eq!(lines[2][0].tone, Tone::Red);
    assert_eq!(lines[3][0].text, "  fine");
    let mut app = sample_app();
    app.system_memory_used = 3 * 1_048_576;
    app.system_memory_total = 8 * 1_048_576;
    app.system_cpu_bits = 90.0f32.to_bits();
    let bar = top_bar(&app, "0.1.3", "90.0%".to_string());
    assert_eq!(bar[0].text, " ntop v0.1.3");
    assert_eq!(bar[3].tone, Tone::Red);
    assert_eq!(bar[5].text, "3/8MB");
    assert_eq!(bar[8].text, "0");
    let p = ProcessInfo::new(5, "node");
    let info = info_lines(&p, "0.0%".to_string());
    assert_eq!(info.len(), 17);
    assert_eq!(info[0][0].text, "           PID: ");
    assert_eq!(info[4][1].text, "-");
    assert_eq!(tab_titles(), vec![" Info ", " Log ", " Net ", " Env "]);
    let help = help_lines("1.0");
    assert_eq!(help.len(), 36);
    assert_eq!(help[4][0].text, "    Up/Down       ");
}

// ─── Commands ────────────────────────────────────────────────────────

#[test]
fn test_command_helpers() {
    assert_eq!(kill_signal_choice(Some("usr1"), "SIGTERM"), KillSignal::Usr1);
    assert_eq!(kill_signal_choice(Some("bogus"), "SIGTERM"), KillSignal::Term);
    assert_eq!(kill_signal_choice(None, "SIGTERM"), KillSignal::Term);
    assert_eq!(kill_signal_choice(None, "SIGKILL"), KillSignal::Kill);
    assert_eq!(kill_signal_choice(Some("SIGHUP"), "SIGKILL"), KillSignal::Hup);
    assert_eq!(kill_signal_choice(Some("bogus"), "SIGINT"), KillSignal::Int);
    assert_eq!(kill_signal_choice(None, "nonsense"), KillSignal::Term);
    assert!(confirmed(" Y\n"));
    assert!(!confirmed("yes"));
    let mut p = ProcessInfo::new(7, "node");
    assert_eq!(process_kind(&p), "Tree parent");
    p.runtime = Some(Runtime::Node);
    assert_eq!(process_kind(&p), "Node");
    assert!(table_header().starts_with("PID      NAME"));
    let row = table_row(&p, 1, "1.5%".to_string());
    assert!(row.starts_with("7          node"));
    let rec = csv_record(&p, "1.5".to_string());
    assert_eq!(rec[0], "7");
    assert_eq!(rec[4], "");
    assert_eq!(rec[5], "1.5");
}

#[test]
fn test_net_tab_rows_and_tones() {
    assert_eq!(connection_tone("LISTEN"), Tone::Green);
    assert_eq!(connection_tone("ESTABLISHED"), Tone::Cyan);
    assert_eq!(connection_tone("CLOSE_WAIT"), Tone::Yellow);
    assert_eq!(connection_tone("TIME_WAIT"), Tone::DarkGray);
    assert_eq!(connection_tone("SYN_SENT"), Tone::White);
    let empty = net_tab_lines(&vec![]);
    assert_eq!(empty.len(), 1);
    assert_eq!(empty[0][0].text, "  No active network connections found.");
    assert_eq!(empty[0][0].tone, Tone::DarkGray);
    let rows = vec![
        ("127.0.0.1:3000".to_string(), None, "LISTEN".to_string()),
        ("127.0.0.1:3000".to_string(), Some("127.0.0.1:52311".to_string()), "ESTABLISHED".to_string()),
    ];
    let lines = net_tab_lines(&rows);
    assert_eq!(lines.len(), 3);
    assert_eq!(lines[0][0].text, "  LOCAL");
    assert_eq!(lines[0][1].text, "REMOTE");
    assert_eq!(lines[0][2].tone, Tone::YellowBold);
    assert_eq!(lines[1][0].text, "  127.0.0.1:3000");
    assert_eq!(lines[1][1].text, "-");
    assert_eq!(lines[1][2].tone, Tone::Green);
    assert_eq!(lines[2][1].text, "127.0.0.1:52311");
    assert_eq!(lines[2][0].tone, Tone::Cyan);
}

#[test]
fn test_help_dialog_scrolls_within_limit() {
    let mut app = App::new(Config::default());
    handle_key(&mut app, key(KeyCode::Char('H')));
    app.help_max_scroll = 5;
    for _ in 0..3 {
        handle_key(&mut app, key(KeyCode::Down));
    }
    assert_eq!(app.help_scroll, 3);
    handle_key(&mut app, key(KeyCode::PageDown));
    assert_eq!(app.help_scroll, 5);
    handle_key(&mut app, key(KeyCode::Char('j')));
    assert_eq!(app.help_scroll, 5);
    handle_key(&mut app, key(KeyCode::Char('k')));
    assert_eq!(app.help_scroll, 4);
    handle_key(&mut app, key(KeyCode::PageUp));
    assert_eq!(app.help_scroll, 0);
    handle_key(&mut app, key(KeyCode::Up));
    assert_eq!(app.help_scroll, 0);
    assert_eq!(app.dialog, Some(DialogKind::Help));
    handle_key(&mut app, key(KeyCode::Esc));
    assert_eq!(app.dialog, None);
}

#[test]
fn test_filter_applies_on_each_keystroke() {
    let mut app = sample_app();
    assert_eq!(app.flat_list.len(), 4);
    handle_key(&mut app, key(KeyCode::Char('/')));
    for c in "next".chars() {
        handle_key(&mut app, key(KeyCode::Char(c)));
    }
    assert_eq!(app.flat_list.len(), 1);
    assert_eq!(app.flat_list[0].0.pid, 101);
    for (p, _) in &app.flat_list {
        assert!(App::matches_filter(p, &app.filter_text));
    }
    handle_key(&mut app, key(KeyCode::Backspace));
    assert_eq!(app.filter_text, "nex");
    assert_eq!(app.flat_list.len(), 1);
    handle_key(&mut app, key(KeyCode::Esc));
    assert_eq!(app.flat_list.len(), 4);
}

#[test]
fn test_kill_plan_and_confirmation() {
    assert_eq!(kill_plan(Some(5), true, true, KillSignal::Kill), KillPlan::All(KillSignal::Kill));
    assert_eq!(kill_plan(None, false, true, KillSignal::Term), KillPlan::All(KillSignal::Term));
    assert_eq!(kill_plan(Some(5), true, false, KillSignal::Term), KillPlan::Tree(5, KillSignal::Term));
    assert_eq!(kill_plan(Some(5), false, false, KillSignal::Term), KillPlan::Graceful(5));
    assert_eq!(kill_plan(Some(1234), false, false, KillSignal::Kill), KillPlan::Signal(1234, KillSignal::Kill));
    assert_eq!(kill_plan(None, true, false, KillSignal::Term), KillPlan::NoTarget);
    let mut cfg = Config::default();
    assert!(asks_before_kill(false, &cfg));
    assert!(!asks_before_kill(true, &cfg));
    cfg.general.confirm_before_kill = false;
    assert!(!asks_before_kill(false, &cfg));
}

#[test]
fn test_apply_detection_tags_frameworks() {
    let mut a = ProcessInfo::new(1, "next-server");
    a.framework_version = Some("14".to_string());
    let mut b = ProcessInfo::new(2, "node");
    b.command = "node /app/node_modules/.bin/nest start".to_string();
    b.memory_rss = 42;
    let c = ProcessInfo::new(3, "node");
    let mut procs = vec![a, b, c];
    FrameworkDetector::apply_detection(&mut procs);
    assert_eq!(procs.len(), 3);
    assert_eq!(procs[0].framework, FrameworkKind::NextJs);
    assert_eq!(procs[0].framework_version, None);
    assert_eq!(procs[1].framework, FrameworkKind::NestJs);
    assert_eq!(procs[1].memory_rss, 42);
    assert_eq!(procs[2].framework, FrameworkKind::Generic);
}

#[test]
fn test_kill_confirm_batches_multi_selection() {
    let mut app = sample_app();
    handle_key(&mut app, key(KeyCode::Char(' ')));
    handle_key(&mut app, key(KeyCode::Down));
    handle_key(&mut app, key(KeyCode::Down));
    handle_key(&mut app, key(KeyCode::Char(' ')));
    handle_key(&mut app, key(KeyCode::Char('x')));
    assert_eq!(app.dialog, Some(DialogKind::KillConfirm));
    match handle_key(&mut app, key(KeyCode::Enter)) {
        Some(KillOrder::Batch(mut pids, sig)) => {
            pids.sort();
            assert_eq!(pids, vec![100, 102]);
            assert_eq!(sig, KillSignal::Term);
        }
        other => panic!("expected a batch, got {:?}", other),
    }
    assert_eq!(app.dialog, None);
}

#[test]
fn test_kill_request_raw_pid() {
    assert_eq!(kill_request(1234, Some(KillSignal::Kill)), (1234, Some(KillSignal::Kill)));
    assert_eq!(kill_request(7, None), (7, None));
}

#[test]
fn test_ipv4_display_reads_back_with_padding() {
    for (o, port) in [([192u8, 168, 1, 10], 8080u16), ([0, 0, 0, 0], 0), ([255, 255, 255, 255], 65535), ([10, 0, 9, 100], 3000)] {
        let text = format!("{}.{}.{}.{}:{}", o[0], o[1], o[2], o[3], port);
        let want = Some((IpAddress::V4(o), port));
        let got = NetworkInspector::parse_addr(&text).map(|a| (a.ip(), a.port()));
        assert_eq!(got, want);
        let padded = format!(" \t{}\n ", text);
        let got = NetworkInspector::parse_addr(&padded).map(|a| (a.ip(), a.port()));
        assert_eq!(got, want);
    }
}

#[test]
fn test_ipv6_display_reads_back() {
    // Texts as `SocketAddrV6` displays these groups.
    let cases: [(&str, [u16; 8]); 9] = [
        ("[::]:443", [0, 0, 0, 0, 0, 0, 0, 0]),
        ("[::1]:443", [0, 0, 0, 0, 0, 0, 0, 1]),
        ("[2001:db8::8a2e:370:7334]:443", [0x2001, 0xdb8, 0, 0, 0, 0x8a2e, 0x370, 0x7334]),
        ("[::ffff:192.0.2.128]:443", [0, 0, 0, 0, 0, 0xffff, 0xc000, 0x0280]),
        ("[1:2:3:4:5:6:7:8]:443", [1, 2, 3, 4, 5, 6, 7, 8]),
        ("[1:0:2:0:3:0:4:0]:443", [1, 0, 2, 0, 3, 0, 4, 0]),
        ("[fe80::1:0:0:0]:443", [0xfe80, 0, 0, 0, 1, 0, 0, 0]),
        ("[0:0:1::]:443", [0, 0, 1, 0, 0, 0, 0, 0]),
        ("[ffff:ffff:ffff:ffff:ffff:ffff:ffff:ffff]:443", [0xffff; 8]),
    ];
    for (shown, groups) in cases {
        let want = Some((IpAddress::V6(groups), 443u16));
        let got = NetworkInspector::parse_addr(shown).map(|a| (a.ip(), a.port()));
        assert_eq!(got, want, "{}", shown);
        let got = NetworkInspector::parse_addr(&format!("  {}\t", shown)).map(|a| (a.ip(), a.port()));
        assert_eq!(got, want, "{}", shown);
    }
}

#[test]
fn test_list_column_widths() {
    assert_eq!(list_column_widths(120), vec![3, 7, 12, 7, 4, 7, 9, 8, 7, 10]);
    assert_eq!(list_column_widths(100), vec![2, 6, 8, 6, 4, 6, 8, 8, 6, 8]);
}
