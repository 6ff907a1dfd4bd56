use codex_core::batch::{should_process, ParallelBatcher};
use codex_core::custom_command::{CustomCommand, CustomCommandType};
use codex_core::dependencies::{is_parallel_wave, resolve_command_dependencies};
use codex_core::exec_command::{
    collect_start, collect_step, CollectAction, CollectEvent,
    default_login, default_shell, default_yield_time, max_output_tokens, output_cap_bytes,
    write_stdin_default_max_output_tokens, write_stdin_default_yield_time_ms, ExecCommandOutput,
    ExitStatus, SessionId,
};
use codex_core::jsonl::{body_line, classify_line, frame_lines, kind_of, split_lines, LineKind};
use codex_core::models::ResponseItem;
use codex_core::mcp_popup::{DisplayRow, McpPopup, McpServerInfo};
use codex_core::parallel::{tally, tool_names, ParallelExecutionResult, can_execute_parallel, identify_parallel_groups, is_parallel_safe_item, ParallelExecutionInfo};
use codex_core::protocol::{is_auto_approved, AskForApproval, SandboxPolicy};
use codex_core::rate_limit::{is_rate_limit_error, Admission, RateGate};
use codex_core::rollout::{
    fork_items, header_timestamp, rollout_file_name, rollout_subdirs, transcript_lines, Rollout,
    RolloutLine, SessionStateSnapshot, SessionTimestamp,
};
use codex_core::safety::{
    is_credential_header_name, is_dangerous_header, is_known_safe_command, is_valid_sed_n_arg,
};
use codex_core::script::parse_word_commands;
use codex_core::truncate::{marker_bytes, truncate_middle};
use codex_core::util::try_parse_error_message;

fn argv(args: &[&str]) -> Vec<String> {
    args.iter().map(|s| s.to_string()).collect()
}

fn call(name: &str, arguments: &str, call_id: &str) -> ResponseItem {
    ResponseItem::FunctionCall {
        id: None,
        name: name.to_string(),
        arguments: arguments.to_string(),
        call_id: call_id.to_string(),
    }
}

fn user(text: &str) -> ResponseItem {
    ResponseItem::Message { role: "user".to_string(), content: text.to_string() }
}

fn assistant(text: &str) -> ResponseItem {
    ResponseItem::Message { role: "assistant".to_string(), content: text.to_string() }
}

fn custom(name: &str, deps: &[&str]) -> CustomCommand {
    CustomCommand {
        name: name.to_string(),
        description: String::new(),
        command_type: CustomCommandType::Shell,
        content: format!("echo {name}"),
        parallel: true,
        depends_on: deps.iter().map(|d| d.to_string()).collect(),
        accepts_args: false,
        arg_placeholder: None,
        force_high_reasoning: false,
    }
}

#[test]
fn safety_plain_scenarios() {
    let none: Vec<Vec<String>> = vec![];
    assert!(is_known_safe_command(&argv(&["ls"]), &none));
    assert!(!is_known_safe_command(&argv(&["git", "fetch"]), &none));
    assert!(is_known_safe_command(&argv(&["sed", "-n", "1,5p", "file.txt"]), &none));
    assert!(!is_known_safe_command(&argv(&["sed", "-n", "xp", "file.txt"]), &none));
    assert!(!is_known_safe_command(&argv(&["find", ".", "-name", "x", "-delete"]), &none));
    assert!(!is_known_safe_command(&argv(&[]), &none));
}

#[test]
fn safety_bash_scenarios() {
    let none: Vec<Vec<String>> = vec![];
    assert!(is_known_safe_command(&argv(&["bash", "-lc", "ls && pwd"]), &none));
    assert!(!is_known_safe_command(&argv(&["bash", "-lc", "(ls)"]), &none));
    assert!(!is_known_safe_command(&argv(&["bash", "-lc", "ls > out.txt"]), &none));
    assert!(!is_known_safe_command(&argv(&["bash", "-lc", "echo $HOME"]), &none));
    assert!(!is_known_safe_command(&argv(&["bash", "-lc", "ls &"]), &none));
    assert!(!is_known_safe_command(&argv(&["bash", "-lc", ""]), &none));
}

#[test]
fn safety_curl_scenarios() {
    let none: Vec<Vec<String>> = vec![];
    assert!(is_known_safe_command(&argv(&["curl", "-o", "f", "https://x/y"]), &none));
    assert!(!is_known_safe_command(&argv(&["curl", "-X", "POST", "https://x"]), &none));
    assert!(!is_known_safe_command(&argv(&["curl", "-H", "Authorization: B", "https://x"]), &none));
    assert!(!is_known_safe_command(&argv(&["curl", "-H", "NoColonHere", "https://x"]), &none));
    assert!(!is_known_safe_command(&argv(&["curl", "-H", " cookie : a", "https://x"]), &none));
    assert!(is_known_safe_command(&argv(&["curl", "-X", "get", "https://x"]), &none));
}

#[test]
fn classifier_gives_same_answer_twice() {
    let trusted = vec![argv(&["make", "*"])];
    let cmd = argv(&["bash", "-lc", "make all | wc -l"]);
    let first = is_known_safe_command(&cmd, &trusted);
    let second = is_known_safe_command(&cmd, &trusted);
    assert_eq!(first, second);
    assert!(first);
}

#[test]
fn classifier_keeps_safe_when_trust_grows() {
    let mut trusted = vec![argv(&["npm", "install"])];
    let cmd = argv(&["bash", "-lc", "npm install && ls"]);
    assert!(is_known_safe_command(&cmd, &trusted));
    trusted.push(argv(&["docker", "*"]));
    assert!(is_known_safe_command(&cmd, &trusted));
    let lone_star = vec![argv(&["*"])];
    assert!(!is_known_safe_command(&argv(&["rm", "-rf", "/"]), &lone_star));
}

#[test]
fn sed_address_forms() {
    assert!(is_valid_sed_n_arg(Some("10p")));
    assert!(is_valid_sed_n_arg(Some("1,5p")));
    assert!(!is_valid_sed_n_arg(Some(",5p")));
    assert!(!is_valid_sed_n_arg(Some("1,p")));
    assert!(!is_valid_sed_n_arg(Some("1,2,3p")));
    assert!(!is_valid_sed_n_arg(Some("p")));
    assert!(!is_valid_sed_n_arg(None));
}

#[test]
fn script_words_and_refusals() {
    let cmds = parse_word_commands("grep -R \"Cargo.toml\" -n || true").unwrap();
    assert_eq!(cmds, vec![argv(&["grep", "-R", "Cargo.toml", "-n"]), argv(&["true"])]);
    let cmds = parse_word_commands("echo 'hi there' ; ls\npwd").unwrap();
    assert_eq!(cmds, vec![argv(&["echo", "hi there"]), argv(&["ls"]), argv(&["pwd"])]);
    assert!(parse_word_commands("ls &&").is_none());
    assert!(parse_word_commands("a'b'").is_none());
    assert!(parse_word_commands("'unterminated").is_none());
    assert!(parse_word_commands("ls | | wc").is_none());
}

#[test]
fn truncation_of_a_hundred_bytes_to_thirty() {
    let s = vec![b'A'; 100];
    let (out, tokens) = truncate_middle(&s, 30);
    assert_eq!(tokens, Some(25));
    let expected = "AA…24 tokens truncated…\nAAA";
    assert_eq!(String::from_utf8(out.clone()).unwrap(), expected);
    assert!(out.len() <= 31);
}

#[test]
fn truncation_keeps_short_input() {
    let s = b"hello".to_vec();
    assert_eq!(truncate_middle(&s, 5), (s.clone(), None));
    assert_eq!(truncate_middle(&[], 0), (vec![], None));
}

#[test]
fn truncation_without_room_gives_bare_marker() {
    let s = vec![b'x'; 10];
    let (out, tokens) = truncate_middle(&s, 0);
    assert_eq!(String::from_utf8(out).unwrap(), "…3 tokens truncated…");
    assert_eq!(tokens, Some(3));
    assert_eq!(String::from_utf8(marker_bytes(1234)).unwrap(), "…1234 tokens truncated…");
}

#[test]
fn truncation_prefers_line_starts_and_char_boundaries() {
    let text = "line one\nline two\nline three\nline four\nline five\nline six\n";
    let (out, tokens) = truncate_middle(text.as_bytes(), 50);
    let out = String::from_utf8(out).unwrap();
    assert_eq!(tokens, Some(15));
    let head = &out[..out.find('…').unwrap()];
    assert!(text.starts_with(head));
    assert!(head.is_empty() || head.ends_with('\n'));
    let tail = &out[out.find("truncated…\n").unwrap() + "truncated…\n".len()..];
    assert!(text.ends_with(tail));
    let wide = "é".repeat(40);
    let (out, _) = truncate_middle(wide.as_bytes(), 40);
    assert!(String::from_utf8(out).is_ok());
}

#[test]
fn parallel_groups_scenario() {
    let items = vec![
        call("read_file", "{}", "1"),
        call("list_files", "{}", "2"),
        call("apply_patch", "{}", "3"),
        call("read_file", "{}", "4"),
    ];
    let groups = identify_parallel_groups(items);
    let sizes: Vec<usize> = groups.iter().map(|g| g.items.len()).collect();
    assert_eq!(sizes, vec![2, 1, 1]);
    let rm = call("shell", r#"{"command":["rm","-rf","/"]}"#, "5");
    assert!(!is_parallel_safe_item(&rm));
    let groups = identify_parallel_groups(vec![call("read_file", "{}", "1"), rm.clone(), call("list_files", "{}", "2")]);
    for g in &groups {
        if g.items.len() >= 2 {
            assert!(g.items.iter().all(is_parallel_safe_item));
        }
        assert!(!(g.items.len() >= 2 && g.items.contains(&rm)));
    }
    let cat = call("shell", r#"{"command":["cat","a"]}"#, "6");
    let groups = identify_parallel_groups(vec![call("read_file", "{}", "1"), cat, user("hi")]);
    let sizes: Vec<usize> = groups.iter().map(|g| g.items.len()).collect();
    assert_eq!(sizes, vec![2, 1]);
}

#[test]
fn parallel_info_counts() {
    let items = vec![call("read_file", "{}", "1"), call("apply_patch", "{}", "2"), call("glob_files", "{}", "3")];
    let info = ParallelExecutionInfo::from_items(&items);
    assert_eq!(info.total_items, 3);
    assert_eq!(info.parallelizable_items, 2);
    assert_eq!(info.parallel_groups, 1);
    let info = ParallelExecutionInfo::from_items(&items[1..2]);
    assert_eq!(info.parallel_groups, 0);
}

#[test]
fn dag_scenarios() {
    let cmds = vec![custom("a", &[]), custom("b", &["a"]), custom("c", &["a"])];
    let waves = resolve_command_dependencies(&cmds);
    let names: Vec<Vec<&str>> = waves.iter().map(|w| w.iter().map(|c| c.name.as_str()).collect()).collect();
    assert_eq!(names, vec![vec!["a"], vec!["b", "c"]]);
    assert!(is_parallel_wave(&waves[1]));
    let mut serial = custom("d", &[]);
    serial.parallel = false;
    assert!(!is_parallel_wave(&[&serial, &cmds[0]]));
    let cyc = vec![custom("a", &["b"]), custom("b", &["a"])];
    let waves = resolve_command_dependencies(&cyc);
    let names: Vec<Vec<&str>> = waves.iter().map(|w| w.iter().map(|c| c.name.as_str()).collect()).collect();
    assert_eq!(names, vec![vec!["a"], vec!["b"]]);
    let mixed = vec![custom("x", &[]), custom("y", &["z"]), custom("z", &["y"])];
    let waves = resolve_command_dependencies(&mixed);
    let names: Vec<Vec<&str>> = waves.iter().map(|w| w.iter().map(|c| c.name.as_str()).collect()).collect();
    assert_eq!(names, vec![vec!["x"], vec!["y"], vec!["z"]]);
    assert!(resolve_command_dependencies(&[]).is_empty());
}

#[test]
fn journal_round_trip() {
    let items = vec![
        user("hi"),
        call("shell", r#"{"command":["ls"]}"#, "c1"),
        ResponseItem::FunctionCallOutput { call_id: "c1".to_string(), content: "ok".to_string(), success: true },
    ];
    let mut rollout = Rollout::new();
    rollout.record_items(items.clone());
    rollout.record_state(SessionStateSnapshot::default());
    rollout.record_items(vec![ResponseItem::Other]);
    assert_eq!(rollout.resume(), items);
}

#[test]
fn fork_keeps_history_before_last_turn() {
    let before = vec![user("hello world"), assistant("FIRST_REPLY"), user("AFTER_COMPACT"), assistant("r2")];
    let mut history = before.clone();
    history.push(user("AFTER_RESUME"));
    history.push(assistant("r3"));
    let forked = fork_items(history.clone(), 1);
    assert_eq!(forked, before);
    let mut next = forked.clone();
    next.push(user("AFTER_FORK"));
    assert_eq!(&next[..before.len()], before.as_slice());
    assert_eq!(fork_items(history.clone(), 0), history);
    assert!(fork_items(history, 9).is_empty());
}

#[test]
fn rate_gate_spacing_and_capacity() {
    let mut gate = RateGate::new(2, 100);
    assert_eq!(gate.try_acquire(0), Admission::Granted);
    assert_eq!(gate.try_acquire(50), Admission::WaitUntil(100));
    assert_eq!(gate.try_acquire(100), Admission::Granted);
    assert_eq!(gate.try_acquire(500), Admission::AllBusy);
    gate.release();
    assert_eq!(gate.try_acquire(500), Admission::Granted);
    let mut single = RateGate::new(1, 0);
    assert_eq!(single.try_acquire(0), Admission::Granted);
    assert_eq!(single.try_acquire(0), Admission::AllBusy);
}

#[test]
fn rate_limit_messages() {
    assert!(is_rate_limit_error("Rate limit exceeded"));
    assert!(is_rate_limit_error("HTTP 429"));
    assert!(is_rate_limit_error("TOO MANY REQUESTS"));
    assert!(is_rate_limit_error("hit the RATE LIMIT"));
    assert!(!is_rate_limit_error("connection reset"));
}

#[test]
fn exec_defaults_and_text() {
    assert_eq!(default_yield_time(), 10_000);
    assert_eq!(max_output_tokens(), 10_000);
    assert!(default_login());
    assert_eq!(default_shell(), "/bin/bash");
    assert_eq!(write_stdin_default_yield_time_ms(), 250);
    assert_eq!(write_stdin_default_max_output_tokens(), 10_000);
    assert_eq!(output_cap_bytes(10_000), 40_000);
    assert_eq!(output_cap_bytes(u64::MAX), usize::MAX);
    let out = ExecCommandOutput {
        wall_time_ms: 1_005,
        exit_status: ExitStatus::Exited(-1),
        original_token_count: Some(42),
        output: "hi".to_string(),
    };
    assert_eq!(
        out.to_text_output(),
        "Wall time: 1.005 seconds\nProcess exited with code -1\nWarning: truncated output (original token count: 42)\nOutput:\nhi"
    );
    let out = ExecCommandOutput {
        wall_time_ms: 250,
        exit_status: ExitStatus::Ongoing(SessionId(7)),
        original_token_count: None,
        output: String::new(),
    };
    assert_eq!(out.to_text_output(), "Wall time: 0.250 seconds\nProcess running with session ID 7\nOutput:\n");
}

#[test]
fn error_message_parsing() {
    assert_eq!(try_parse_error_message(r#"{"error":{"message":"boom"}}"#), "boom");
    assert_eq!(try_parse_error_message(""), "Unknown error");
    assert_eq!(try_parse_error_message("plain"), "plain");
}

#[test]
fn parallel_switch_and_limits() {
    let two = vec![call("read_file", "{}", "1"), call("list_files", "{}", "2")];
    assert!(can_execute_parallel(&two, true, 5));
    assert!(!can_execute_parallel(&two, false, 5));
    assert!(!can_execute_parallel(&two, true, 1));
    assert!(!can_execute_parallel(&two[..1], true, 5));
    let mixed = vec![call("read_file", "{}", "1"), call("apply_patch", "{}", "2")];
    assert!(!can_execute_parallel(&mixed, true, 5));
}

#[test]
fn journal_names_and_transcript() {
    let t = SessionTimestamp { year: 2025, month: 5, day: 7, hour: 17, minute: 4, second: 9, millisecond: 7 };
    assert_eq!(rollout_file_name(t, "abc"), "rollout-2025-05-07T17-04-09-abc.jsonl");
    assert_eq!(rollout_subdirs(t), vec!["sessions", "2025", "05", "07"]);
    assert_eq!(header_timestamp(t), "2025-05-07T17:04:09.007Z");
    let lines = transcript_lines(&[user("hi"), call("shell", "{}", "c"), assistant("yo")]);
    assert_eq!(lines, vec!["User: hi", "Assistant: yo"]);
}

#[test]
fn journal_lines_round_trip() {
    let records = vec!["{\"a\":1}".to_string(), String::new(), "x y".to_string()];
    let text = frame_lines(&records);
    assert_eq!(text, "{\"a\":1}\n\nx y\n");
    assert_eq!(split_lines(&text), records);
    let messy = "foo\nbar\n\r\nbaz\r";
    let expected: Vec<String> = messy.lines().map(|l| l.to_string()).collect();
    assert_eq!(split_lines(messy), expected);
    assert!(split_lines("").is_empty());
}

#[test]
fn batcher_collects_and_releases() {
    let mut b = ParallelBatcher::new();
    assert!(b.is_empty());
    assert!(!b.should_process_batch());
    b.add_item(call("read_file", "{}", "1"));
    assert_eq!(b.len(), 1);
    assert!(!b.is_parallelizable());
    b.add_item(call("list_files", "{}", "2"));
    assert!(b.is_parallelizable());
    b.add_item(user("hi"));
    assert!(!b.is_parallelizable());
    for i in 0..7 {
        b.add_item(call("read_file", "{}", &i.to_string()));
    }
    assert_eq!(b.len(), 10);
    assert!(b.should_process_batch());
    let taken = b.take_items();
    assert_eq!(taken.len(), 10);
    assert!(b.is_empty());
    assert!(should_process(3, 10, Some(100), 100));
    assert!(!should_process(3, 10, Some(99), 100));
    assert!(!should_process(3, 10, None, 100));
    assert!(!should_process(0, 10, Some(500), 100));
}

#[test]
fn policies() {
    match SandboxPolicy::new_workspace_write_policy() {
        SandboxPolicy::WorkspaceWrite { writable_roots, network_access, exclude_tmpdir_env_var, exclude_slash_tmp } => {
            assert!(writable_roots.is_empty());
            assert!(!network_access && !exclude_tmpdir_env_var && !exclude_slash_tmp);
        }
        other => panic!("unexpected policy {other:?}"),
    }
    assert_eq!(AskForApproval::default(), AskForApproval::OnRequest);
    assert!(is_auto_approved(AskForApproval::Never, false));
    assert!(!is_auto_approved(AskForApproval::UnlessTrusted, false));
    assert!(is_auto_approved(AskForApproval::OnRequest, true));
}

#[test]
fn journal_line_kinds() {
    assert_eq!(classify_line(r#"{"record_type":"state"}"#), LineKind::State);
    assert_eq!(classify_line(r#"{"type":"message","role":"user","content":"hi"}"#), LineKind::Item);
    assert_eq!(classify_line(r#"{"record_type":"other"}"#), LineKind::Item);
    assert_eq!(classify_line("   "), LineKind::Skip);
    assert_eq!(classify_line("not json"), LineKind::Skip);
    assert_eq!(kind_of(Some(Some("state".to_string()))), LineKind::State);
    assert_eq!(kind_of(None), LineKind::Skip);
}

#[test]
fn collection_steps() {
    let (mut st, a) = collect_start(SessionId(3), 0, 100);
    assert_eq!(a, CollectAction::Recv { timeout_ms: 100 });
    let a = collect_step(&mut st, CollectEvent::Chunk(b"ab".to_vec()), 10);
    assert_eq!(a, CollectAction::Recv { timeout_ms: 90 });
    assert_eq!(collect_step(&mut st, CollectEvent::Lagged, 20), CollectAction::Recv { timeout_ms: 80 });
    assert_eq!(collect_step(&mut st, CollectEvent::Exited(Some(0)), 30), CollectAction::Drain { timeout_ms: 1 });
    assert_eq!(collect_step(&mut st, CollectEvent::Chunk(b"c".to_vec()), 40), CollectAction::Drain { timeout_ms: 1 });
    assert_eq!(collect_step(&mut st, CollectEvent::TimedOut, 41), CollectAction::Finish(ExitStatus::Exited(0)));
    assert_eq!(st.collected, b"abc".to_vec());
    let (mut st, _) = collect_start(SessionId(4), 0, 50);
    assert_eq!(collect_step(&mut st, CollectEvent::Chunk(b"x".to_vec()), 60), CollectAction::Finish(ExitStatus::Ongoing(SessionId(4))));
    let (mut st, _) = collect_start(SessionId(5), 0, 50);
    assert_eq!(collect_step(&mut st, CollectEvent::Closed, 5), CollectAction::Finish(ExitStatus::Ongoing(SessionId(5))));
    let (_, a) = collect_start(SessionId(6), 7, 0);
    assert_eq!(a, CollectAction::Finish(ExitStatus::Ongoing(SessionId(6))));
}

#[test]
fn unicode_header_names() {
    assert!(is_dangerous_header("\u{a0}Authorization: x"));
    assert!(is_dangerous_header("to\u{212a}en: x"));
    assert!(is_dangerous_header("  COOKIE\t: a"));
    assert!(!is_dangerous_header("Accept: */*"));
    assert!(is_credential_header_name("token"));
    assert!(!is_credential_header_name("Token"));
    let none: Vec<Vec<String>> = vec![];
    assert!(is_known_safe_command(&argv(&["curl", "-X", "head", "https://x"]), &none));
    assert!(!is_known_safe_command(&argv(&["curl", "-X", "put", "https://x"]), &none));
}

#[test]
fn group_results() {
    let items = vec![call("read_file", "{}", "1"), user("x"), call("glob_files", "{}", "2")];
    assert_eq!(tool_names(&items), vec!["read_file", "glob_files"]);
    assert_eq!(tally(&[true, false, true]), (2, 1));
    assert_eq!(tally(&[]), (0, 0));
    let mut r = ParallelExecutionResult::new();
    r.record_success();
    r.record_failure();
    r.record_success();
    assert_eq!((r.successful, r.failed), (2, 1));
}

#[test]
fn journal_body_lines() {
    assert_eq!(body_line(LineKind::Skip, None), None);
    assert_eq!(body_line(LineKind::State, None), Some(RolloutLine::State(SessionStateSnapshot::default())));
    assert_eq!(body_line(LineKind::Item, None), None);
    assert_eq!(body_line(LineKind::Item, Some(user("a"))), Some(RolloutLine::Item(user("a"))));
}

fn server(name: &str, enabled: bool, connected: bool) -> McpServerInfo {
    McpServerInfo { name: name.to_string(), url_or_cmd: format!("run-{name}"), enabled, connected, tool_count: 3 }
}

#[test]
fn mcp_popup_selection() {
    let mut p = McpPopup::new(vec![server("a", true, true), server("b", false, false), server("c", true, false)]);
    assert_eq!(p.selected_server().unwrap().name, "a");
    p.move_up();
    assert_eq!(p.selected_server().unwrap().name, "c");
    p.move_down();
    assert_eq!(p.selected_server().unwrap().name, "a");
    p.move_down();
    assert_eq!(p.toggle_selected(), Some(("b".to_string(), true)));
    assert_eq!(p.calculate_required_height(), 3);
    let rows = p.to_display_rows();
    assert_eq!(rows[0], DisplayRow { name: "[ON]  a".to_string(), description: Some("3 tools".to_string()) });
    assert_eq!(rows[1].name, "[...] b");
    assert_eq!(rows[2], DisplayRow { name: "[...] c".to_string(), description: Some("run-c".to_string()) });
    p.update_servers(vec![server("z", true, true)]);
    assert_eq!(p.selected_server().unwrap().name, "z");
    let mut empty = McpPopup::new(vec![]);
    empty.move_down();
    assert!(empty.selected_server().is_none());
    assert_eq!(empty.toggle_selected(), None);
    assert_eq!(empty.calculate_required_height(), 1);
    let many: Vec<McpServerInfo> = (0..12).map(|i| server(&i.to_string(), true, true)).collect();
    assert_eq!(McpPopup::new(many).calculate_required_height(), 8);
}
