use codex_core::parse_command::parse_command;
use codex_core::summary::ParsedCommand;

fn vec_str(args: &[&str]) -> Vec<String> {
    args.iter().map(|s| s.to_string()).collect()
}

fn assert_parsed(args: &[String], expected: Vec<ParsedCommand>) {
    let out = parse_command(args);
    assert_eq!(out, expected);
}

#[test]
fn git_status_is_unknown() {
    assert_parsed(
        &vec_str(&["git", "status"]),
        vec![ParsedCommand::Unknown {
            cmd: "git status".to_string(),
        }],
    );
}

#[test]
fn summaries_of_common_commands() {
    assert_parsed(
        &vec_str(&["bash", "-lc", "cat foo.txt"]),
        vec![ParsedCommand::Read { cmd: "cat foo.txt".to_string(), name: "foo.txt".to_string() }],
    );
    assert_parsed(
        &vec_str(&["cat", "my file.txt"]),
        vec![ParsedCommand::Read { cmd: "cat 'my file.txt'".to_string(), name: "my file.txt".to_string() }],
    );
    assert_parsed(
        &vec_str(&["rg", "-n", "foo", "webview/src"]),
        vec![ParsedCommand::Search {
            cmd: "rg -n foo webview/src".to_string(),
            query: Some("foo".to_string()),
            path: Some("webview".to_string()),
        }],
    );
    assert_parsed(
        &vec_str(&["ls", "-I", "*.test.js", "packages/app/node_modules/"]),
        vec![ParsedCommand::ListFiles {
            cmd: "ls -I '*.test.js' packages/app/node_modules/".to_string(),
            path: Some("app".to_string()),
        }],
    );
    assert_parsed(
        &vec_str(&["bash", "-lc", "cargo fmt -- --check"]),
        vec![ParsedCommand::Format {
            cmd: "cargo fmt -- --check".to_string(),
            tool: Some("cargo fmt".to_string()),
            targets: None,
        }],
    );
    assert_parsed(
        &vec_str(&["npm", "run", "Lint"]),
        vec![ParsedCommand::Lint {
            cmd: "npm run Lint".to_string(),
            tool: Some("npm-script:Lint".to_string()),
            targets: None,
        }],
    );
    assert_parsed(
        &vec_str(&["bash", "-lc", "head -n 40 src/main.rs | wc -l"]),
        vec![ParsedCommand::Read { cmd: "head -n 40 src/main.rs".to_string(), name: "main.rs".to_string() }],
    );
    assert_parsed(
        &vec_str(&["echo", "start", "&&", "cargo", "test"]),
        vec![ParsedCommand::Test { cmd: "cargo test".to_string() }],
    );
    assert_parsed(
        &vec_str(&["yes", "|", "true"]),
        vec![ParsedCommand::Noop { cmd: "true".to_string() }],
    );
}

#[test]
fn script_summaries_are_simplified() {
    assert_parsed(
        &vec_str(&["bash", "-lc", "cd foo && cargo test"]),
        vec![ParsedCommand::Test { cmd: "cargo test".to_string() }],
    );
    assert_parsed(
        &vec_str(&["bash", "-lc", "echo hi && ls"]),
        vec![ParsedCommand::ListFiles { cmd: "ls".to_string(), path: None }],
    );
    assert_parsed(
        &vec_str(&["bash", "-lc", "ls > out.txt"]),
        vec![ParsedCommand::Unknown { cmd: "ls > out.txt".to_string() }],
    );
    assert_parsed(
        &vec_str(&["bash", "-lc", "wc -l"]),
        vec![ParsedCommand::Unknown { cmd: "wc -l".to_string() }],
    );
}
