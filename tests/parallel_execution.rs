use codex_core::custom_command::{CustomCommand, CustomCommandType};
use codex_core::dependencies::{is_custom_command_parallel, resolve_command_dependencies};
use codex_core::models::ResponseItem;
use codex_core::parallel::{can_execute_parallel, is_safe_for_parallel, is_safe_shell_command};

fn command(name: &str, description: &str, content: &str, parallel: bool, deps: &[&str]) -> CustomCommand {
    CustomCommand {
        name: name.to_string(),
        description: description.to_string(),
        command_type: CustomCommandType::Shell,
        content: content.to_string(),
        parallel,
        depends_on: deps.iter().map(|d| d.to_string()).collect(),
        accepts_args: false,
        arg_placeholder: None,
        force_high_reasoning: false,
    }
}

#[test]
fn test_safe_for_parallel_detection() {
    // Test safe operations
    assert!(is_safe_for_parallel("read_file"));
    assert!(is_safe_for_parallel("list_files"));
    assert!(is_safe_for_parallel("search_files"));
    assert!(is_safe_for_parallel("glob_files"));

    // Test MCP operations
    assert!(is_safe_for_parallel("mcp__tool_read"));
    assert!(is_safe_for_parallel("mcp__tool_get"));
    assert!(is_safe_for_parallel("mcp__tool_list"));
    assert!(is_safe_for_parallel("mcp__tool_search"));
    assert!(is_safe_for_parallel("mcp__tool_status"));

    // Test unsafe operations
    assert!(!is_safe_for_parallel("shell"));
    assert!(!is_safe_for_parallel("container.exec"));
    assert!(!is_safe_for_parallel("apply_patch"));
    assert!(!is_safe_for_parallel("update_plan"));
}

#[test]
fn test_is_safe_shell_command() {
    // Safe read-only shell commands
    let args = r#"{"command":["ls","-la"]}"#.to_string();
    assert!(is_safe_shell_command(&args));

    let args = r#"{"command":["cat","file.txt"]}"#.to_string();
    assert!(is_safe_shell_command(&args));

    // Unsafe shell command (rm)
    let args = r#"{"command":["rm","-rf","/tmp/x"]}"#.to_string();
    assert!(!is_safe_shell_command(&args));

    // Missing/invalid structure
    assert!(!is_safe_shell_command("{}"));
    assert!(!is_safe_shell_command("not json"));
}

#[test]
fn test_dependency_resolution() {
    let commands = vec![
        command("build", "Build the project", "cargo build", false, &[]),
        command("test", "Run tests", "cargo test", true, &["build"]),
        command("lint", "Run linter", "cargo clippy", true, &["build"]),
    ];

    let groups = resolve_command_dependencies(&commands);

    // First group should contain only "build"
    assert_eq!(groups.len(), 2);
    assert_eq!(groups[0].len(), 1);
    assert_eq!(groups[0][0].name, "build");

    // Second group should contain "test" and "lint" (can run in parallel)
    assert_eq!(groups[1].len(), 2);
    let names: Vec<String> = groups[1].iter().map(|c| c.name.clone()).collect();
    assert!(names.contains(&"test".to_string()));
    assert!(names.contains(&"lint".to_string()));
}

#[test]
fn test_custom_command_parallel() {
    let parallel_cmd = command("search", "Search files", "grep pattern", true, &[]);
    let sequential_cmd = command("write", "Write file", "echo test > file.txt", false, &[]);

    assert!(is_custom_command_parallel(&parallel_cmd));
    assert!(!is_custom_command_parallel(&sequential_cmd));
}

#[test]
fn test_circular_dependency_handling() {
    let commands = vec![
        command("a", "Command A", "echo a", false, &["b"]),
        command("b", "Command B", "echo b", false, &["a"]),
    ];

    let groups = resolve_command_dependencies(&commands);

    // Circular dependencies should result in sequential execution
    assert_eq!(groups.len(), 2);
    assert_eq!(groups[0].len(), 1);
    assert_eq!(groups[1].len(), 1);
}

#[test]
fn test_parallel_group_identification() {
    // Test with multiple read operations that can be parallelized
    let items = vec![
        ResponseItem::FunctionCall {
            id: None,
            name: "read_file".to_string(),
            arguments: r#"{"path":"file1.txt"}"#.to_string(),
            call_id: "1".to_string(),
        },
        ResponseItem::FunctionCall {
            id: None,
            name: "list_files".to_string(),
            arguments: r#"{"path":"/"}"#.to_string(),
            call_id: "2".to_string(),
        },
    ];

    // parallel execution on, five permits: the defaults of the rate limiter
    assert!(can_execute_parallel(&items, true, 5));
}
