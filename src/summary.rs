//! Short human-readable summaries of shell commands: reads, listings,
//! searches, formatters, tests and linters.
use vstd::prelude::*;
use vstd::string::*;
use crate::safety::{is_sed_print_range, is_valid_sed_n_arg};
use crate::summary_args::{
    before_connector, collect_non_flag_targets, collect_non_flag_targets_with_flags,
    copy_range, drop_flags, drop_flags_exec, fd_query_and_path, find_query_and_path, is_flag,
    is_flag_exec, non_flag_targets, non_flag_targets_with, opt_argv, opt_str,
    parse_fd_query_and_path, parse_find_query_and_path, short_display_path, short_path,
    skip_flag_values, skip_flag_values_exec, trim_at_connector, ValueFlags,
};
use crate::text::{
    argv_view, all_digits, ascii_lower, has_char, has_prefix, is_all_digits, starts_with, str_eq, substring,
    to_ascii_lower,
};

verus! {

/// What a command does, for display.
#[derive(Debug, Clone, PartialEq, Eq)]
pub enum ParsedCommand {
    Read { cmd: String, name: String },
    ListFiles { cmd: String, path: Option<String> },
    Search { cmd: String, query: Option<String>, path: Option<String> },
    Format { cmd: String, tool: Option<String>, targets: Option<Vec<String>> },
    Test { cmd: String },
    Lint { cmd: String, tool: Option<String>, targets: Option<Vec<String>> },
    Noop { cmd: String },
    Unknown { cmd: String },
}

/// A summary as character sequences.
pub enum Summary {
    Read { cmd: Seq<char>, name: Seq<char> },
    ListFiles { cmd: Seq<char>, path: Option<Seq<char>> },
    Search { cmd: Seq<char>, query: Option<Seq<char>>, path: Option<Seq<char>> },
    Format { cmd: Seq<char>, tool: Option<Seq<char>>, targets: Option<Seq<Seq<char>>> },
    Test { cmd: Seq<char> },
    Lint { cmd: Seq<char>, tool: Option<Seq<char>>, targets: Option<Seq<Seq<char>>> },
    Noop { cmd: Seq<char> },
    Unknown { cmd: Seq<char> },
}

impl ParsedCommand {
    pub open spec fn view(&self) -> Summary {
        match self {
            ParsedCommand::Read { cmd, name } => Summary::Read { cmd: cmd@, name: name@ },
            ParsedCommand::ListFiles { cmd, path } => Summary::ListFiles {
                cmd: cmd@,
                path: opt_str(*path),
            },
            ParsedCommand::Search { cmd, query, path } => Summary::Search {
                cmd: cmd@,
                query: opt_str(*query),
                path: opt_str(*path),
            },
            ParsedCommand::Format { cmd, tool, targets } => Summary::Format {
                cmd: cmd@,
                tool: opt_str(*tool),
                targets: opt_argv(*targets),
            },
            ParsedCommand::Test { cmd } => Summary::Test { cmd: cmd@ },
            ParsedCommand::Lint { cmd, tool, targets } => Summary::Lint {
                cmd: cmd@,
                tool: opt_str(*tool),
                targets: opt_argv(*targets),
            },
            ParsedCommand::Noop { cmd } => Summary::Noop { cmd: cmd@ },
            ParsedCommand::Unknown { cmd } => Summary::Unknown { cmd: cmd@ },
        }
    }
}

// ---------------------------------------------------------------------------
// shlex

/// The words of a string under POSIX shell quoting rules, when it splits.
pub uninterp spec fn shlex_split_of(s: Seq<char>) -> Option<Seq<Seq<char>>>;

/// Relies on `shlex::split`: the words of `s`, or `None` when its quoting is
/// erroneous.
#[verifier::external_body]
pub(crate) fn shlex_split(s: &str) -> (r: Option<Vec<String>>)
    ensures
        match r {
            Some(v) => shlex_split_of(s@) == Some(argv_view(v@)),
            None => shlex_split_of(s@) is None,
        },
{
    shlex::split(s)
}

/// The words quoted and joined with spaces into one shell line.
pub uninterp spec fn shlex_join_of(words: Seq<Seq<char>>) -> Seq<char>;

pub open spec fn has_nul(words: Seq<Seq<char>>) -> bool {
    exists|i: int| 0 <= i < words.len() && has_char(#[trigger] words[i], '\0')
}

/// Relies on `shlex::try_join`: the quoted shell line, which fails only on a
/// word that holds a NUL character.
#[verifier::external_body]
fn shlex_try_join(words: &[String]) -> (r: Option<String>)
    ensures
        match r {
            Some(s) => s@ == shlex_join_of(argv_view(words@)) && !has_nul(argv_view(words@)),
            None => has_nul(argv_view(words@)),
        },
{
    shlex::try_join(words.iter().map(|s| s.as_str())).ok()
}

/// The shell line shown for a command.
pub open spec fn joined(words: Seq<Seq<char>>) -> Seq<char> {
    if has_nul(words) {
        "<command included NUL byte>"@
    } else {
        shlex_join_of(words)
    }
}

/// The command as one shell line, or a note when a word holds a NUL.
pub fn shlex_join(tokens: &[String]) -> (r: String)
    ensures
        r@ == joined(argv_view(tokens@)),
{
    match shlex_try_join(tokens) {
        Some(s) => s,
        None => String::from_str("<command included NUL byte>"),
    }
}

// ---------------------------------------------------------------------------
// Helpers on argument lists

pub open spec fn first_non_flag(s: Seq<Seq<char>>) -> Option<Seq<char>>
    decreases s.len(),
{
    if s.len() == 0 {
        None
    } else if !is_flag(s[0]) {
        Some(s[0])
    } else {
        first_non_flag(s.drop_first())
    }
}

fn first_non_flag_exec(s: &[String]) -> (r: Option<String>)
    ensures
        opt_str(r) == first_non_flag(argv_view(s@)),
{
    let ghost a = argv_view(s@);
    assert(a.subrange(0, a.len() as int) =~= a);
    let mut i: usize = 0;
    while i < s.len()
        invariant
            a == argv_view(s@),
            i <= s@.len(),
            first_non_flag(a.subrange(i as int, a.len() as int)) == first_non_flag(a),
        decreases s.len() - i,
    {
        let ghost rest = a.subrange(i as int, a.len() as int);
        assert(rest[0] == s@[i as int]@);
        if !is_flag_exec(s[i].as_str()) {
            return Some(s[i].clone());
        }
        assert(rest.drop_first() =~= a.subrange(i + 1, a.len() as int));
        i = i + 1;
    }
    None
}

pub open spec fn opt_short(p: Option<Seq<char>>) -> Option<Seq<char>> {
    match p {
        Some(x) => Some(short_path(x)),
        None => None,
    }
}

fn opt_short_exec(p: Option<String>) -> (r: Option<String>)
    ensures
        opt_str(r) == opt_short(opt_str(p)),
{
    match p {
        Some(x) => Some(short_display_path(x.as_str())),
        None => None,
    }
}

// ---------------------------------------------------------------------------
// Formatters, linters and test runners

/// Summaries of formatters, linters and test runners.
pub open spec fn tool_summary(m: Seq<Seq<char>>) -> Option<Summary> {
    let h = m[0];
    let t = m.drop_first();
    let sub = if t.len() > 0 {
        t[0]
    } else {
        Seq::empty()
    };
    let c = joined(m);
    if h == "true"@ && t.len() == 0 {
        Some(Summary::Noop { cmd: c })
    } else if h == "cargo"@ && t.len() > 0 && sub == "fmt"@ {
        Some(
            Summary::Format {
                cmd: c,
                tool: Some("cargo fmt"@),
                targets: non_flag_targets(t.drop_first()),
            },
        )
    } else if h == "cargo"@ && t.len() > 0 && sub == "clippy"@ {
        Some(
            Summary::Lint {
                cmd: c,
                tool: Some("cargo clippy"@),
                targets: non_flag_targets(t.drop_first()),
            },
        )
    } else if h == "cargo"@ && t.len() > 0 && sub == "test"@ {
        Some(Summary::Test { cmd: c })
    } else if h == "rustfmt"@ {
        Some(Summary::Format { cmd: c, tool: Some("rustfmt"@), targets: non_flag_targets(t) })
    } else if h == "go"@ && t.len() > 0 && sub == "fmt"@ {
        Some(
            Summary::Format {
                cmd: c,
                tool: Some("go fmt"@),
                targets: non_flag_targets(t.drop_first()),
            },
        )
    } else if h == "go"@ && t.len() > 0 && sub == "test"@ {
        Some(Summary::Test { cmd: c })
    } else if h == "pytest"@ {
        Some(Summary::Test { cmd: c })
    } else if h == "eslint"@ {
        Some(
            Summary::Lint {
                cmd: c,
                tool: Some("eslint"@),
                targets: non_flag_targets_with(t, ValueFlags::Eslint),
            },
        )
    } else if h == "prettier"@ {
        Some(Summary::Format { cmd: c, tool: Some("prettier"@), targets: non_flag_targets(t) })
    } else if h == "black"@ {
        Some(Summary::Format { cmd: c, tool: Some("black"@), targets: non_flag_targets(t) })
    } else if h == "ruff"@ && t.len() > 0 && sub == "check"@ {
        Some(
            Summary::Lint { cmd: c, tool: Some("ruff"@), targets: non_flag_targets(t.drop_first()) },
        )
    } else if h == "ruff"@ && t.len() > 0 && sub == "format"@ {
        Some(
            Summary::Format {
                cmd: c,
                tool: Some("ruff"@),
                targets: non_flag_targets(t.drop_first()),
            },
        )
    } else if h == "jest"@ || h == "vitest"@ {
        Some(Summary::Test { cmd: c })
    } else if h == "npx"@ && t.len() > 0 && sub == "eslint"@ {
        Some(
            Summary::Lint {
                cmd: c,
                tool: Some("eslint"@),
                targets: non_flag_targets_with(t.drop_first(), ValueFlags::Eslint),
            },
        )
    } else if h == "npx"@ && t.len() > 0 && sub == "prettier"@ {
        Some(
            Summary::Format {
                cmd: c,
                tool: Some("prettier"@),
                targets: non_flag_targets(t.drop_first()),
            },
        )
    } else {
        None
    }
}

fn tool_summary_exec(m: &[String]) -> (r: Option<ParsedCommand>)
    requires
        m@.len() > 0,
    ensures
        match r {
            Some(p) => tool_summary(argv_view(m@)) == Some(p.view()),
            None => tool_summary(argv_view(m@)) is None,
        },
{
    let ghost a = argv_view(m@);
    let h = m[0].as_str();
    let n = m.len();
    let t = copy_range(m, 1, n);
    assert(argv_view(t@) =~= a.drop_first());
    let has_sub = n > 1;
    let sub: &str = if has_sub {
        m[1].as_str()
    } else {
        ""
    };
    proof {
        if has_sub {
            assert(a.drop_first()[0] == m@[1]@);
        } else {
            reveal_strlit("");
        }
    }
    let rest = if has_sub {
        copy_range(m, 2, n)
    } else {
        Vec::new()
    };
    assert(has_sub ==> argv_view(rest@) =~= a.drop_first().drop_first());
    if str_eq(h, "true") && n == 1 {
        return Some(ParsedCommand::Noop { cmd: shlex_join(m) });
    }
    if str_eq(h, "cargo") && has_sub && str_eq(sub, "fmt") {
        return Some(
            ParsedCommand::Format {
                cmd: shlex_join(m),
                tool: Some(String::from_str("cargo fmt")),
                targets: collect_non_flag_targets(rest.as_slice()),
            },
        );
    }
    if str_eq(h, "cargo") && has_sub && str_eq(sub, "clippy") {
        return Some(
            ParsedCommand::Lint {
                cmd: shlex_join(m),
                tool: Some(String::from_str("cargo clippy")),
                targets: collect_non_flag_targets(rest.as_slice()),
            },
        );
    }
    if str_eq(h, "cargo") && has_sub && str_eq(sub, "test") {
        return Some(ParsedCommand::Test { cmd: shlex_join(m) });
    }
    if str_eq(h, "rustfmt") {
        return Some(
            ParsedCommand::Format {
                cmd: shlex_join(m),
                tool: Some(String::from_str("rustfmt")),
                targets: collect_non_flag_targets(t.as_slice()),
            },
        );
    }
    if str_eq(h, "go") && has_sub && str_eq(sub, "fmt") {
        return Some(
            ParsedCommand::Format {
                cmd: shlex_join(m),
                tool: Some(String::from_str("go fmt")),
                targets: collect_non_flag_targets(rest.as_slice()),
            },
        );
    }
    if str_eq(h, "go") && has_sub && str_eq(sub, "test") {
        return Some(ParsedCommand::Test { cmd: shlex_join(m) });
    }
    if str_eq(h, "pytest") {
        return Some(ParsedCommand::Test { cmd: shlex_join(m) });
    }
    if str_eq(h, "eslint") {
        return Some(
            ParsedCommand::Lint {
                cmd: shlex_join(m),
                tool: Some(String::from_str("eslint")),
                targets: collect_non_flag_targets_with_flags(t.as_slice(), ValueFlags::Eslint),
            },
        );
    }
    if str_eq(h, "prettier") {
        return Some(
            ParsedCommand::Format {
                cmd: shlex_join(m),
                tool: Some(String::from_str("prettier")),
                targets: collect_non_flag_targets(t.as_slice()),
            },
        );
    }
    if str_eq(h, "black") {
        return Some(
            ParsedCommand::Format {
                cmd: shlex_join(m),
                tool: Some(String::from_str("black")),
                targets: collect_non_flag_targets(t.as_slice()),
            },
        );
    }
    if str_eq(h, "ruff") && has_sub && str_eq(sub, "check") {
        return Some(
            ParsedCommand::Lint {
                cmd: shlex_join(m),
                tool: Some(String::from_str("ruff")),
                targets: collect_non_flag_targets(rest.as_slice()),
            },
        );
    }
    if str_eq(h, "ruff") && has_sub && str_eq(sub, "format") {
        return Some(
            ParsedCommand::Format {
                cmd: shlex_join(m),
                tool: Some(String::from_str("ruff")),
                targets: collect_non_flag_targets(rest.as_slice()),
            },
        );
    }
    if str_eq(h, "jest") || str_eq(h, "vitest") {
        return Some(ParsedCommand::Test { cmd: shlex_join(m) });
    }
    if str_eq(h, "npx") && has_sub && str_eq(sub, "eslint") {
        return Some(
            ParsedCommand::Lint {
                cmd: shlex_join(m),
                tool: Some(String::from_str("eslint")),
                targets: collect_non_flag_targets_with_flags(rest.as_slice(), ValueFlags::Eslint),
            },
        );
    }
    if str_eq(h, "npx") && has_sub && str_eq(sub, "prettier") {
        return Some(
            ParsedCommand::Format {
                cmd: shlex_join(m),
                tool: Some(String::from_str("prettier")),
                targets: collect_non_flag_targets(rest.as_slice()),
            },
        );
    }
    None
}

// ---------------------------------------------------------------------------
// npm, pnpm and yarn scripts

pub open spec fn is_test_script(l: Seq<char>) -> bool {
    l == "test"@ || l == "unit"@ || l == "jest"@ || l == "vitest"@
}

pub open spec fn is_lint_script(l: Seq<char>) -> bool {
    l == "lint"@ || l == "eslint"@
}

pub open spec fn is_format_script(l: Seq<char>) -> bool {
    l == "format"@ || l == "fmt"@ || l == "prettier"@
}

/// The script an npm-like invocation runs: the name after `run`, or `test`
/// for `npm t` and `npm|pnpm|yarn test`.
pub open spec fn npm_script(tool: Seq<char>, tail: Seq<Seq<char>>) -> Option<Seq<char>> {
    let r = if tool == "pnpm"@ && tail.len() > 0 && tail[0] == "-r"@ {
        tail.drop_first()
    } else {
        tail
    };
    if r.len() > 0 && r[0] == "run"@ {
        if r.len() > 1 {
            Some(r[1])
        } else {
            None
        }
    } else if r.len() > 0 && ((tool == "npm"@ && r[0] == "t"@) || ((tool == "npm"@ || tool
        == "pnpm"@ || tool == "yarn"@) && r[0] == "test"@)) {
        Some("test"@)
    } else {
        None
    }
}

/// Test, lint and format scripts of npm, pnpm and yarn, by script name.
pub open spec fn npm_summary(tool: Seq<char>, tail: Seq<Seq<char>>, full: Seq<Seq<char>>) -> Option<
    Summary,
> {
    match npm_script(tool, tail) {
        Some(name) => {
            let l = ascii_lower(name);
            let label = tool + "-script:"@ + name;
            if is_test_script(l) {
                Some(Summary::Test { cmd: joined(full) })
            } else if is_lint_script(l) {
                Some(Summary::Lint { cmd: joined(full), tool: Some(label), targets: None })
            } else if is_format_script(l) {
                Some(Summary::Format { cmd: joined(full), tool: Some(label), targets: None })
            } else {
                None
            }
        },
        None => None,
    }
}

fn npm_script_exec(tool: &str, tail: &[String]) -> (r: Option<String>)
    ensures
        opt_str(r) == npm_script(tool@, argv_view(tail@)),
{
    let ghost t = argv_view(tail@);
    let skip_r = str_eq(tool, "pnpm") && tail.len() > 0 && str_eq(tail[0].as_str(), "-r");
    let start: usize = if skip_r {
        1
    } else {
        0
    };
    let r = copy_range(tail, start, tail.len());
    let ghost rv = argv_view(r@);
    assert(skip_r ==> rv =~= t.drop_first());
    assert(!skip_r ==> rv =~= t);
    if r.len() > 0 && str_eq(r[0].as_str(), "run") {
        assert(rv[0] == r@[0]@);
        if r.len() > 1 {
            assert(rv[1] == r@[1]@);
            return Some(r[1].clone());
        }
        return None;
    }
    if r.len() > 0 {
        assert(rv[0] == r@[0]@);
        let first = r[0].as_str();
        if (str_eq(tool, "npm") && str_eq(first, "t")) || ((str_eq(tool, "npm") || str_eq(tool, "pnpm")
            || str_eq(tool, "yarn")) && str_eq(first, "test")) {
            return Some(String::from_str("test"));
        }
    }
    None
}

/// Summarizes an npm, pnpm or yarn script run by the script's name.
pub fn classify_npm_like(tool: &str, tail: &[String], full_cmd: &[String]) -> (r: Option<
    ParsedCommand,
>)
    ensures
        match r {
            Some(p) => npm_summary(tool@, argv_view(tail@), argv_view(full_cmd@)) == Some(p.view()),
            None => npm_summary(tool@, argv_view(tail@), argv_view(full_cmd@)) is None,
        },
{
    match npm_script_exec(tool, tail) {
        Some(name) => {
            let l = to_ascii_lower(name.as_str());
            let ls = l.as_str();
            let mut label = String::from_str(tool);
            label.append("-script:");
            label.append(name.as_str());
            if str_eq(ls, "test") || str_eq(ls, "unit") || str_eq(ls, "jest") || str_eq(ls, "vitest") {
                Some(ParsedCommand::Test { cmd: shlex_join(full_cmd) })
            } else if str_eq(ls, "lint") || str_eq(ls, "eslint") {
                Some(ParsedCommand::Lint { cmd: shlex_join(full_cmd), tool: Some(label), targets: None })
            } else if str_eq(ls, "format") || str_eq(ls, "fmt") || str_eq(ls, "prettier") {
                Some(
                    ParsedCommand::Format {
                        cmd: shlex_join(full_cmd),
                        tool: Some(label),
                        targets: None,
                    },
                )
            } else {
                None
            }
        },
        None => None,
    }
}

// ---------------------------------------------------------------------------
// Listings and searches

pub open spec fn has_word(a: Seq<Seq<char>>, w: Seq<char>) -> bool {
    exists|i: int| 0 <= i < a.len() && a[i] == w
}

/// Summaries of `ls`, `rg`, `fd`, `find` and `grep`.
pub open spec fn search_summary(m: Seq<Seq<char>>) -> Option<Summary> {
    let h = m[0];
    let t = m.drop_first();
    let c = joined(m);
    if h == "ls"@ {
        Some(
            Summary::ListFiles {
                cmd: c,
                path: opt_short(first_non_flag(skip_flag_values(t, ValueFlags::Ls))),
            },
        )
    } else if h == "rg"@ {
        let a = before_connector(t);
        let nf = drop_flags(a);
        if has_word(a, "--files"@) {
            Some(
                Summary::Search {
                    cmd: c,
                    query: None,
                    path: if nf.len() > 0 {
                        Some(short_path(nf[0]))
                    } else {
                        None
                    },
                },
            )
        } else {
            Some(
                Summary::Search {
                    cmd: c,
                    query: if nf.len() > 0 {
                        Some(nf[0])
                    } else {
                        None
                    },
                    path: if nf.len() > 1 {
                        Some(short_path(nf[1]))
                    } else {
                        None
                    },
                },
            )
        }
    } else if h == "fd"@ {
        Some(
            Summary::Search {
                cmd: c,
                query: fd_query_and_path(t).0,
                path: fd_query_and_path(t).1,
            },
        )
    } else if h == "find"@ {
        Some(
            Summary::Search {
                cmd: c,
                query: find_query_and_path(t).0,
                path: find_query_and_path(t).1,
            },
        )
    } else if h == "grep"@ {
        let nf = drop_flags(before_connector(t));
        Some(
            Summary::Search {
                cmd: c,
                query: if nf.len() > 0 {
                    Some(nf[0])
                } else {
                    None
                },
                path: if nf.len() > 1 {
                    Some(short_path(nf[1]))
                } else {
                    None
                },
            },
        )
    } else {
        None
    }
}

fn has_word_exec(a: &[String], w: &str) -> (r: bool)
    ensures
        r == has_word(argv_view(a@), w@),
{
    let mut i: usize = 0;
    while i < a.len()
        invariant
            i <= a@.len(),
            forall|j: int| 0 <= j < i ==> a@[j]@ != w@,
        decreases a.len() - i,
    {
        if str_eq(a[i].as_str(), w) {
            assert(argv_view(a@)[i as int] == w@);
            return true;
        }
        i = i + 1;
    }
    assert forall|j: int| 0 <= j < a@.len() implies argv_view(a@)[j] != w@ by {
        assert(argv_view(a@)[j] == a@[j]@);
    }
    false
}

/// Query and path operands: the first operand, and the second shortened.
fn query_and_path(nf: &Vec<String>) -> (r: (Option<String>, Option<String>))
    ensures
        opt_str(r.0) == (if nf@.len() > 0 {
            Some(argv_view(nf@)[0])
        } else {
            None::<Seq<char>>
        }),
        opt_str(r.1) == (if nf@.len() > 1 {
            Some(short_path(argv_view(nf@)[1]))
        } else {
            None::<Seq<char>>
        }),
{
    let q = if nf.len() > 0 {
        Some(nf[0].clone())
    } else {
        None
    };
    let p = if nf.len() > 1 {
        Some(short_display_path(nf[1].as_str()))
    } else {
        None
    };
    (q, p)
}

fn search_summary_exec(m: &[String]) -> (r: Option<ParsedCommand>)
    requires
        m@.len() > 0,
    ensures
        match r {
            Some(p) => search_summary(argv_view(m@)) == Some(p.view()),
            None => search_summary(argv_view(m@)) is None,
        },
{
    let ghost a = argv_view(m@);
    let h = m[0].as_str();
    let t = copy_range(m, 1, m.len());
    assert(argv_view(t@) =~= a.drop_first());
    if str_eq(h, "ls") {
        let kept = skip_flag_values_exec(t.as_slice(), ValueFlags::Ls);
        let p = first_non_flag_exec(kept.as_slice());
        return Some(ParsedCommand::ListFiles { cmd: shlex_join(m), path: opt_short_exec(p) });
    }
    if str_eq(h, "rg") {
        let args = trim_at_connector(t.as_slice());
        let nf = drop_flags_exec(args.as_slice());
        if has_word_exec(args.as_slice(), "--files") {
            let p = if nf.len() > 0 {
                Some(short_display_path(nf[0].as_str()))
            } else {
                None
            };
            return Some(ParsedCommand::Search { cmd: shlex_join(m), query: None, path: p });
        }
        let (q, p) = query_and_path(&nf);
        return Some(ParsedCommand::Search { cmd: shlex_join(m), query: q, path: p });
    }
    if str_eq(h, "fd") {
        let (q, p) = parse_fd_query_and_path(t.as_slice());
        return Some(ParsedCommand::Search { cmd: shlex_join(m), query: q, path: p });
    }
    if str_eq(h, "find") {
        let (q, p) = parse_find_query_and_path(t.as_slice());
        return Some(ParsedCommand::Search { cmd: shlex_join(m), query: q, path: p });
    }
    if str_eq(h, "grep") {
        let args = trim_at_connector(t.as_slice());
        let nf = drop_flags_exec(args.as_slice());
        let (q, p) = query_and_path(&nf);
        return Some(ParsedCommand::Search { cmd: shlex_join(m), query: q, path: p });
    }
    None
}

// ---------------------------------------------------------------------------
// Reads

/// A `tail -n` count: digits, optionally after one `+`.
pub open spec fn is_tail_count(s: Seq<char>) -> bool {
    let v = if has_prefix(s, "+"@) {
        s.drop_first()
    } else {
        s
    };
    v.len() > 0 && all_digits(v)
}

/// A `head -n` count: digits (none at all included).
pub open spec fn is_head_count(s: Seq<char>) -> bool {
    all_digits(s)
}

pub open spec fn is_count(is_tail: bool, s: Seq<char>) -> bool {
    if is_tail {
        is_tail_count(s)
    } else {
        is_head_count(s)
    }
}

/// The arguments start with `-n N` or `-nN` for a valid count `N`.
pub open spec fn count_ok(is_tail: bool, t: Seq<Seq<char>>) -> bool {
    if t.len() > 0 && t[0] == "-n"@ {
        t.len() > 1 && is_count(is_tail, t[1])
    } else if t.len() > 0 && has_prefix(t[0], "-n"@) {
        is_count(is_tail, t[0].subrange(2, t[0].len() as int))
    } else {
        false
    }
}

/// The file operand of `head`/`tail`: the first non-option after a leading
/// `-n N`.
pub open spec fn count_operand(is_tail: bool, t: Seq<Seq<char>>) -> Option<Seq<char>> {
    let start = if t.len() > 1 && t[0] == "-n"@ && is_count(is_tail, t[1]) {
        2int
    } else {
        0int
    };
    first_non_flag(t.subrange(start, t.len() as int))
}

/// Summaries of `cat`, `head`, `tail`, `nl` and `sed -n`.
pub open spec fn read_summary(m: Seq<Seq<char>>) -> Option<Summary> {
    let h = m[0];
    let t = m.drop_first();
    let c = joined(m);
    if h == "cat"@ {
        let eff = if t.len() > 0 && t[0] == "--"@ {
            t.drop_first()
        } else {
            t
        };
        if eff.len() == 1 {
            Some(Summary::Read { cmd: c, name: short_path(eff[0]) })
        } else {
            Some(Summary::Unknown { cmd: c })
        }
    } else if h == "head"@ || h == "tail"@ {
        let is_tail = h == "tail"@;
        if count_ok(is_tail, t) && count_operand(is_tail, t) is Some {
            Some(Summary::Read { cmd: c, name: short_path(count_operand(is_tail, t).unwrap()) })
        } else {
            Some(Summary::Unknown { cmd: c })
        }
    } else if h == "nl"@ {
        match first_non_flag(skip_flag_values(t, ValueFlags::Nl)) {
            Some(p) => Some(Summary::Read { cmd: c, name: short_path(p) }),
            None => Some(Summary::Unknown { cmd: c }),
        }
    } else if h == "sed"@ && t.len() >= 3 && t[0] == "-n"@ && is_sed_print_range(t[1]) {
        Some(Summary::Read { cmd: c, name: short_path(t[2]) })
    } else {
        None
    }
}

fn is_count_exec(is_tail: bool, s: &str) -> (r: bool)
    ensures
        r == is_count(is_tail, s@),
{
    if is_tail {
        if starts_with(s, "+") {
            proof {
                reveal_strlit("+");
            }
            let v = substring(s, 1, s.unicode_len());
            assert(v@ =~= s@.drop_first());
            v.as_str().unicode_len() > 0 && is_all_digits(v.as_str())
        } else {
            s.unicode_len() > 0 && is_all_digits(s)
        }
    } else {
        is_all_digits(s)
    }
}

fn count_ok_exec(is_tail: bool, t: &[String]) -> (r: bool)
    ensures
        r == count_ok(is_tail, argv_view(t@)),
{
    let ghost a = argv_view(t@);
    if t.len() == 0 {
        return false;
    }
    assert(a[0] == t@[0]@);
    let first = t[0].as_str();
    if str_eq(first, "-n") {
        if t.len() > 1 {
            assert(a[1] == t@[1]@);
            is_count_exec(is_tail, t[1].as_str())
        } else {
            false
        }
    } else if starts_with(first, "-n") {
        proof {
            reveal_strlit("-n");
        }
        let v = substring(first, 2, first.unicode_len());
        is_count_exec(is_tail, v.as_str())
    } else {
        false
    }
}

fn count_operand_exec(is_tail: bool, t: &[String]) -> (r: Option<String>)
    ensures
        opt_str(r) == count_operand(is_tail, argv_view(t@)),
{
    let ghost a = argv_view(t@);
    let skip2 = t.len() > 1 && str_eq(t[0].as_str(), "-n") && is_count_exec(is_tail, t[1].as_str());
    assert(t@.len() > 1 ==> a[0] == t@[0]@ && a[1] == t@[1]@);
    let start: usize = if skip2 {
        2
    } else {
        0
    };
    let rest = copy_range(t, start, t.len());
    first_non_flag_exec(rest.as_slice())
}

fn read_summary_exec(m: &[String]) -> (r: Option<ParsedCommand>)
    requires
        m@.len() > 0,
    ensures
        match r {
            Some(p) => read_summary(argv_view(m@)) == Some(p.view()),
            None => read_summary(argv_view(m@)) is None,
        },
{
    let ghost a = argv_view(m@);
    let h = m[0].as_str();
    let t = copy_range(m, 1, m.len());
    let ghost tv = argv_view(t@);
    assert(tv =~= a.drop_first());
    if str_eq(h, "cat") {
        let dashes = t.len() > 0 && str_eq(t[0].as_str(), "--");
        assert(t@.len() > 0 ==> tv[0] == t@[0]@);
        let eff = copy_range(t.as_slice(), if dashes {
            1
        } else {
            0
        }, t.len());
        assert(dashes ==> argv_view(eff@) =~= tv.drop_first());
        assert(!dashes ==> argv_view(eff@) =~= tv);
        if eff.len() == 1 {
            assert(argv_view(eff@)[0] == eff@[0]@);
            return Some(
                ParsedCommand::Read {
                    cmd: shlex_join(m),
                    name: short_display_path(eff[0].as_str()),
                },
            );
        }
        return Some(ParsedCommand::Unknown { cmd: shlex_join(m) });
    }
    if str_eq(h, "head") || str_eq(h, "tail") {
        let is_tail = str_eq(h, "tail");
        if count_ok_exec(is_tail, t.as_slice()) {
            match count_operand_exec(is_tail, t.as_slice()) {
                Some(p) => {
                    return Some(
                        ParsedCommand::Read {
                            cmd: shlex_join(m),
                            name: short_display_path(p.as_str()),
                        },
                    );
                },
                None => {},
            }
        }
        return Some(ParsedCommand::Unknown { cmd: shlex_join(m) });
    }
    if str_eq(h, "nl") {
        let kept = skip_flag_values_exec(t.as_slice(), ValueFlags::Nl);
        match first_non_flag_exec(kept.as_slice()) {
            Some(p) => {
                return Some(
                    ParsedCommand::Read { cmd: shlex_join(m), name: short_display_path(p.as_str()) },
                );
            },
            None => {
                return Some(ParsedCommand::Unknown { cmd: shlex_join(m) });
            },
        }
    }
    if str_eq(h, "sed") && t.len() >= 3 {
        assert(tv[0] == t@[0]@ && tv[1] == t@[1]@ && tv[2] == t@[2]@);
        if str_eq(t[0].as_str(), "-n") && is_valid_sed_n_arg(Some(t[1].as_str())) {
            return Some(
                ParsedCommand::Read { cmd: shlex_join(m), name: short_display_path(t[2].as_str()) },
            );
        }
    }
    None
}

// ---------------------------------------------------------------------------
// One command

pub open spec fn is_npm_like(h: Seq<char>) -> bool {
    h == "pnpm"@ || h == "npm"@ || h == "yarn"@
}

/// The summary of one command.
pub open spec fn summary(m: Seq<Seq<char>>) -> Summary {
    if m.len() == 0 {
        Summary::Unknown { cmd: joined(m) }
    } else {
        match tool_summary(m) {
            Some(x) => x,
            None => if is_npm_like(m[0]) {
                match npm_summary(m[0], m.drop_first(), m) {
                    Some(x) => x,
                    None => Summary::Unknown { cmd: joined(m) },
                }
            } else {
                match search_summary(m) {
                    Some(x) => x,
                    None => match read_summary(m) {
                        Some(x) => x,
                        None => Summary::Unknown { cmd: joined(m) },
                    },
                }
            },
        }
    }
}

/// Summarizes one command given as its words.
pub fn summarize_main_tokens(main_cmd: &[String]) -> (r: ParsedCommand)
    ensures
        r.view() == summary(argv_view(main_cmd@)),
{
    if main_cmd.len() == 0 {
        return ParsedCommand::Unknown { cmd: shlex_join(main_cmd) };
    }
    if let Some(p) = tool_summary_exec(main_cmd) {
        return p;
    }
    let h = main_cmd[0].as_str();
    if str_eq(h, "pnpm") || str_eq(h, "npm") || str_eq(h, "yarn") {
        let tail = copy_range(main_cmd, 1, main_cmd.len());
        assert(argv_view(tail@) =~= argv_view(main_cmd@).drop_first());
        return match classify_npm_like(h, tail.as_slice(), main_cmd) {
            Some(p) => p,
            None => ParsedCommand::Unknown { cmd: shlex_join(main_cmd) },
        };
    }
    if let Some(p) = search_summary_exec(main_cmd) {
        return p;
    }
    if let Some(p) = read_summary_exec(main_cmd) {
        return p;
    }
    ParsedCommand::Unknown { cmd: shlex_join(main_cmd) }
}

} // verus!
