//! Summaries of whole command lines: `bash -lc` scripts and connector
//! sequences are split into commands, formatting helpers are dropped, each
//! command is summarized, and a few noisy patterns are simplified away.
use vstd::prelude::*;
use vstd::string::*;
use crate::safety::is_valid_sed_n_arg;
use crate::safety::is_sed_print_range;
use crate::script::{parse_word_commands, word_commands};
use crate::text::commands_view;
use crate::summary::{
    has_word, joined, shlex_join, shlex_split, shlex_split_of, summarize_main_tokens, summary, ParsedCommand,
    Summary,
};
use crate::text::argv_view;
use crate::summary_args::{copy_range, is_connector, is_connector_exec, is_flag, is_flag_exec, opt_argv, opt_str};
use crate::text::str_eq;

verus! {

// ---------------------------------------------------------------------------
// Splitting a command line

/// Drops a leading `yes |` or `no |`, and splits the script of `bash -c` or
/// `bash -lc` into words where it splits.
pub open spec fn normalized(cmd: Seq<Seq<char>>) -> Seq<Seq<char>> {
    if cmd.len() >= 2 && (cmd[0] == "yes"@ || cmd[0] == "y"@ || cmd[0] == "no"@ || cmd[0] == "n"@)
        && cmd[1] == "|"@ {
        cmd.subrange(2, cmd.len() as int)
    } else if cmd.len() == 3 && cmd[0] == "bash"@ && (cmd[1] == "-c"@ || cmd[1] == "-lc"@) {
        match shlex_split_of(cmd[2]) {
            Some(v) => v,
            None => cmd,
        }
    } else {
        cmd
    }
}

fn normalize_tokens(cmd: &[String]) -> (r: Vec<String>)
    ensures
        argv_view(r@) == normalized(argv_view(cmd@)),
{
    let ghost a = argv_view(cmd@);
    let n = cmd.len();
    if n >= 2 {
        assert(a[0] == cmd@[0]@ && a[1] == cmd@[1]@);
        let f = cmd[0].as_str();
        if (str_eq(f, "yes") || str_eq(f, "y") || str_eq(f, "no") || str_eq(f, "n")) && str_eq(
            cmd[1].as_str(),
            "|",
        ) {
            return copy_range(cmd, 2, n);
        }
    }
    if n == 3 {
        assert(a[2] == cmd@[2]@);
        if str_eq(cmd[0].as_str(), "bash") && (str_eq(cmd[1].as_str(), "-c") || str_eq(
            cmd[1].as_str(),
            "-lc",
        )) {
            if let Some(v) = shlex_split(cmd[2].as_str()) {
                return v;
            }
        }
    }
    let all = copy_range(cmd, 0, n);
    assert(argv_view(cmd@).subrange(0, n as int) =~= argv_view(cmd@));
    all
}

pub open spec fn has_connector(t: Seq<Seq<char>>) -> bool {
    exists|i: int| 0 <= i < t.len() && is_connector(#[trigger] t[i])
}

fn contains_connectors(tokens: &[String]) -> (r: bool)
    ensures
        r == has_connector(argv_view(tokens@)),
{
    let mut i: usize = 0;
    while i < tokens.len()
        invariant
            i <= tokens@.len(),
            forall|j: int| 0 <= j < i ==> !is_connector(#[trigger] argv_view(tokens@)[j]),
        decreases tokens.len() - i,
    {
        if is_connector_exec(tokens[i].as_str()) {
            assert(is_connector(argv_view(tokens@)[i as int]));
            return true;
        }
        i = i + 1;
    }
    false
}

/// Finished segments and the open one, after reading `t`.
pub open spec fn split_fold(t: Seq<Seq<char>>) -> (Seq<Seq<Seq<char>>>, Seq<Seq<char>>)
    decreases t.len(),
{
    if t.len() == 0 {
        (Seq::empty(), Seq::empty())
    } else {
        let (o, c) = split_fold(t.drop_last());
        if is_connector(t.last()) {
            (
                if c.len() > 0 {
                    o.push(c)
                } else {
                    o
                },
                Seq::empty(),
            )
        } else {
            (o, c.push(t.last()))
        }
    }
}

/// The non-empty runs of words between connectors.
pub open spec fn segments(t: Seq<Seq<char>>) -> Seq<Seq<Seq<char>>> {
    let (o, c) = split_fold(t);
    if c.len() > 0 {
        o.push(c)
    } else {
        o
    }
}

fn split_on_connectors(tokens: &[String]) -> (r: Vec<Vec<String>>)
    ensures
        commands_view(r@) == segments(argv_view(tokens@)),
{
    let ghost a = argv_view(tokens@);
    let mut out: Vec<Vec<String>> = Vec::new();
    let mut cur: Vec<String> = Vec::new();
    let mut i: usize = 0;
    assert(commands_view(out@) =~= Seq::<Seq<Seq<char>>>::empty());
    assert(argv_view(cur@) =~= Seq::<Seq<char>>::empty());
    while i < tokens.len()
        invariant
            a == argv_view(tokens@),
            i <= tokens@.len(),
            (commands_view(out@), argv_view(cur@)) == split_fold(a.subrange(0, i as int)),
        decreases tokens.len() - i,
    {
        assert(a.subrange(0, i + 1).drop_last() =~= a.subrange(0, i as int));
        assert(a.subrange(0, i + 1).last() == tokens@[i as int]@);
        let ghost o0 = out@;
        let ghost c0 = cur@;
        if is_connector_exec(tokens[i].as_str()) {
            if cur.len() > 0 {
                let mut taken: Vec<String> = Vec::new();
                std::mem::swap(&mut cur, &mut taken);
                out.push(taken);
                assert(commands_view(out@) =~= commands_view(o0).push(argv_view(c0)));
            }
            assert(argv_view(cur@) =~= Seq::<Seq<char>>::empty());
        } else {
            cur.push(tokens[i].clone());
            assert(argv_view(cur@) =~= argv_view(c0).push(tokens@[i as int]@));
        }
        i = i + 1;
    }
    assert(a.subrange(0, tokens@.len() as int) =~= a);
    if cur.len() > 0 {
        let ghost o0 = out@;
        let ghost c0 = cur@;
        out.push(cur);
        assert(commands_view(out@) =~= commands_view(o0).push(argv_view(c0)));
    }
    out
}

// ---------------------------------------------------------------------------
// Formatting helpers

/// Helpers that only reshape the output of a pipeline.
pub open spec fn is_small_formatting(t: Seq<Seq<char>>) -> bool {
    if t.len() == 0 {
        false
    } else {
        let h = t[0];
        if h == "wc"@ || h == "tr"@ || h == "cut"@ || h == "sort"@ || h == "uniq"@ || h == "xargs"@
            || h == "tee"@ || h == "column"@ || h == "awk"@ || h == "yes"@ || h == "printf"@ {
            true
        } else if h == "head"@ || h == "tail"@ {
            t.len() < 3
        } else if h == "sed"@ {
            t.len() < 4 || !(t[1] == "-n"@ && is_sed_print_range(t[2]))
        } else {
            false
        }
    }
}

/// Whether `tokens` is a formatting helper of a pipeline, such as `wc -l`
/// or `head -n 40` without a file.
pub fn is_small_formatting_command(tokens: &[String]) -> (r: bool)
    ensures
        r == is_small_formatting(argv_view(tokens@)),
{
    let ghost a = argv_view(tokens@);
    if tokens.len() == 0 {
        return false;
    }
    assert(a[0] == tokens@[0]@);
    let h = tokens[0].as_str();
    if str_eq(h, "wc") || str_eq(h, "tr") || str_eq(h, "cut") || str_eq(h, "sort") || str_eq(h, "uniq")
        || str_eq(h, "xargs") || str_eq(h, "tee") || str_eq(h, "column") || str_eq(h, "awk")
        || str_eq(h, "yes") || str_eq(h, "printf") {
        true
    } else if str_eq(h, "head") || str_eq(h, "tail") {
        tokens.len() < 3
    } else if str_eq(h, "sed") {
        if tokens.len() < 4 {
            true
        } else {
            assert(a[1] == tokens@[1]@ && a[2] == tokens@[2]@);
            !(str_eq(tokens[1].as_str(), "-n") && is_valid_sed_n_arg(Some(tokens[2].as_str())))
        }
    } else {
        false
    }
}

pub open spec fn drop_small(cs: Seq<Seq<Seq<char>>>) -> Seq<Seq<Seq<char>>>
    decreases cs.len(),
{
    if cs.len() == 0 {
        cs
    } else if is_small_formatting(cs.last()) {
        drop_small(cs.drop_last())
    } else {
        drop_small(cs.drop_last()).push(cs.last())
    }
}

fn drop_small_formatting_commands(commands: Vec<Vec<String>>) -> (r: Vec<Vec<String>>)
    ensures
        commands_view(r@) == drop_small(commands_view(commands@)),
{
    let ghost cv = commands_view(commands@);
    let mut out: Vec<Vec<String>> = Vec::new();
    let mut rest = commands;
    let ghost mut k: int = 0;
    assert(commands_view(out@) =~= Seq::<Seq<Seq<char>>>::empty());
    while rest.len() > 0
        invariant
            0 <= k <= cv.len(),
            commands_view(rest@) == cv.subrange(k, cv.len() as int),
            commands_view(out@) == drop_small(cv.subrange(0, k)),
        decreases rest.len(),
    {
        let ghost r0 = rest@;
        assert(commands_view(r0).len() == r0.len());
        assert(commands_view(r0)[0] == argv_view(r0[0]@));
        let c = rest.remove(0);
        proof {
            assert(commands_view(rest@) =~= commands_view(r0).drop_first());
            assert(commands_view(rest@) =~= cv.subrange(k + 1, cv.len() as int));
            assert(cv.subrange(0, k + 1).drop_last() =~= cv.subrange(0, k));
            assert(cv[k] == argv_view(c@));
        }
        if !is_small_formatting_command(c.as_slice()) {
            let ghost o0 = out@;
            out.push(c);
            assert(commands_view(out@) =~= commands_view(o0).push(cv[k]));
        }
        proof {
            k = k + 1;
        }
    }
    assert(cv.subrange(0, k) =~= cv);
    out
}

// ---------------------------------------------------------------------------
// Simplifications

pub open spec fn first_word_is(cmd: Seq<char>, w: Seq<char>) -> bool {
    match shlex_split_of(cmd) {
        Some(t) => t.len() > 0 && t[0] == w,
        None => false,
    }
}

pub open spec fn is_unknown_starting(s: Summary, w: Seq<char>) -> bool {
    match s {
        Summary::Unknown { cmd } => first_word_is(cmd, w),
        _ => false,
    }
}

pub open spec fn is_true_noop(s: Summary) -> bool {
    match s {
        Summary::Noop { cmd } => cmd == "true"@,
        _ => false,
    }
}

/// `nl` with options only.
pub open spec fn is_bare_nl(s: Summary) -> bool {
    match s {
        Summary::Unknown { cmd } => match shlex_split_of(cmd) {
            Some(t) => t.len() > 0 && t[0] == "nl"@ && forall|i: int|
                1 <= i < t.len() ==> is_flag(#[trigger] t[i]),
            None => false,
        },
        _ => false,
    }
}

/// Summaries that a simplification removes.
#[derive(Clone, Copy)]
pub enum Removable {
    /// an unknown command starting with `cd`
    Cd,
    /// `true`
    TrueNoop,
    /// `nl` with options only
    BareNl,
}

pub open spec fn is_removable(k: Removable, s: Summary) -> bool {
    match k {
        Removable::Cd => is_unknown_starting(s, "cd"@),
        Removable::TrueNoop => is_true_noop(s),
        Removable::BareNl => is_bare_nl(s),
    }
}

/// The index of the first summary of kind `k` at or after `i`.
pub open spec fn first_index_from(cs: Seq<Summary>, k: Removable, i: int) -> Option<int>
    decreases cs.len() - i,
{
    if i < 0 || i >= cs.len() {
        None
    } else if is_removable(k, cs[i]) {
        Some(i)
    } else {
        first_index_from(cs, k, i + 1)
    }
}

pub open spec fn first_index(cs: Seq<Summary>, k: Removable) -> Option<int> {
    first_index_from(cs, k, 0)
}

pub open spec fn without(cs: Seq<Summary>, i: int) -> Seq<Summary> {
    cs.subrange(0, i) + cs.subrange(i + 1, cs.len() as int)
}

pub open spec fn test_after(cs: Seq<Summary>, i: int) -> bool {
    exists|j: int| i < j < cs.len() && (#[trigger] cs[j]) is Test
}

/// One simplification, if any applies: a leading `echo` goes; the first
/// `cd` goes when a test runs after it; a `true` (as in `|| true`) goes; a
/// bare `nl` goes.
pub open spec fn simplify_once(cs: Seq<Summary>) -> Option<Seq<Summary>> {
    if cs.len() <= 1 {
        None
    } else if is_unknown_starting(cs[0], "echo"@) {
        Some(cs.drop_first())
    } else if first_index(cs, Removable::Cd) is Some && test_after(
        cs,
        first_index(cs, Removable::Cd).unwrap(),
    ) {
        Some(without(cs, first_index(cs, Removable::Cd).unwrap()))
    } else if first_index(cs, Removable::TrueNoop) is Some {
        Some(without(cs, first_index(cs, Removable::TrueNoop).unwrap()))
    } else if first_index(cs, Removable::BareNl) is Some {
        Some(without(cs, first_index(cs, Removable::BareNl).unwrap()))
    } else {
        None
    }
}

pub open spec fn summaries(v: Seq<ParsedCommand>) -> Seq<Summary> {
    v.map_values(|p: ParsedCommand| p.view())
}

fn unknown_starting_exec(pc: &ParsedCommand, w: &str) -> (r: bool)
    ensures
        r == is_unknown_starting(pc.view(), w@),
{
    match pc {
        ParsedCommand::Unknown { cmd } => match shlex_split(cmd.as_str()) {
            Some(t) => {
                if t.len() > 0 {
                    assert(argv_view(t@)[0] == t@[0]@);
                    str_eq(t[0].as_str(), w)
                } else {
                    false
                }
            },
            None => false,
        },
        _ => false,
    }
}

/// Every word after the first is an option.
fn flags_after_first(t: &Vec<String>) -> (r: bool)
    ensures
        r == forall|j: int| 1 <= j < t@.len() ==> is_flag(#[trigger] argv_view(t@)[j]),
{
    let mut i: usize = 1;
    while i < t.len()
        invariant
            1 <= i,
            i <= t@.len() || t@.len() == 0,
            forall|j: int| 1 <= j < i && j < t@.len() ==> is_flag(#[trigger] argv_view(t@)[j]),
        decreases t.len() - i,
    {
        if !is_flag_exec(t[i].as_str()) {
            assert(!is_flag(argv_view(t@)[i as int]));
            return false;
        }
        i = i + 1;
    }
    true
}

fn is_removable_exec(k: Removable, pc: &ParsedCommand) -> (r: bool)
    ensures
        r == is_removable(k, pc.view()),
{
    match k {
        Removable::Cd => unknown_starting_exec(pc, "cd"),
        Removable::TrueNoop => match pc {
            ParsedCommand::Noop { cmd } => str_eq(cmd.as_str(), "true"),
            _ => false,
        },
        Removable::BareNl => match pc {
            ParsedCommand::Unknown { cmd } => match shlex_split(cmd.as_str()) {
                Some(t) => {
                    if t.len() == 0 {
                        return false;
                    }
                    assert(argv_view(t@)[0] == t@[0]@);
                    if !str_eq(t[0].as_str(), "nl") {
                        return false;
                    }
                    flags_after_first(&t)
                },
                None => false,
            },
            _ => false,
        },
    }
}

fn first_index_exec(cs: &Vec<ParsedCommand>, k: Removable) -> (r: Option<usize>)
    ensures
        match r {
            Some(i) => i < cs@.len() && first_index(summaries(cs@), k) == Some(i as int),
            None => first_index(summaries(cs@), k) is None,
        },
{
    let ghost sv = summaries(cs@);
    let mut i: usize = 0;
    while i < cs.len()
        invariant
            sv == summaries(cs@),
            i <= cs@.len(),
            first_index_from(sv, k, i as int) == first_index(sv, k),
        decreases cs.len() - i,
    {
        if is_removable_exec(k, &cs[i]) {
            return Some(i);
        }
        i = i + 1;
    }
    None
}

fn has_test_after(cs: &Vec<ParsedCommand>, i: usize) -> (r: bool)
    ensures
        r == test_after(summaries(cs@), i as int),
{
    let ghost sv = summaries(cs@);
    if i >= cs.len() {
        return false;
    }
    let mut j: usize = i + 1;
    while j < cs.len()
        invariant
            sv == summaries(cs@),
            i < j <= cs@.len(),
            forall|k: int| i < k < j ==> !((#[trigger] sv[k]) is Test),
        decreases cs.len() - j,
    {
        let t = match &cs[j] {
            ParsedCommand::Test { .. } => true,
            _ => false,
        };
        if t {
            assert(sv[j as int] is Test);
            return true;
        }
        j = j + 1;
    }
    false
}

/// Applies one simplification in place; says whether one applied.
#[verifier::rlimit(60)]
pub fn simplify_once_exec(commands: &mut Vec<ParsedCommand>) -> (changed: bool)
    ensures
        changed == simplify_once(summaries(old(commands)@)) is Some,
        changed ==> simplify_once(summaries(old(commands)@)) == Some(summaries(final(commands)@)),
        !changed ==> final(commands)@ == old(commands)@,
{
    let ghost sv = summaries(commands@);
    if commands.len() <= 1 {
        return false;
    }
    if unknown_starting_exec(&commands[0], "echo") {
        commands.remove(0);
        assert(summaries(commands@) =~= sv.drop_first());
        return true;
    }
    if let Some(i) = first_index_exec(commands, Removable::Cd) {
        if has_test_after(commands, i) {
            commands.remove(i);
            assert(summaries(commands@) =~= without(sv, i as int));
            return true;
        }
    }
    if let Some(i) = first_index_exec(commands, Removable::TrueNoop) {
        commands.remove(i);
        assert(summaries(commands@) =~= without(sv, i as int));
        return true;
    }
    if let Some(i) = first_index_exec(commands, Removable::BareNl) {
        commands.remove(i);
        assert(summaries(commands@) =~= without(sv, i as int));
        return true;
    }
    false
}

proof fn lemma_first_index_bounds(cs: Seq<Summary>, k: Removable, i: int)
    requires
        0 <= i,
    ensures
        first_index_from(cs, k, i) is Some ==> i <= first_index_from(cs, k, i).unwrap() < cs.len(),
    decreases cs.len() - i,
{
    if i < cs.len() && !is_removable(k, cs[i]) {
        lemma_first_index_bounds(cs, k, i + 1);
    }
}

proof fn lemma_simplify_shrinks(cs: Seq<Summary>)
    ensures
        simplify_once(cs) is Some ==> simplify_once(cs).unwrap().len() < cs.len(),
{
    lemma_first_index_bounds(cs, Removable::Cd, 0);
    lemma_first_index_bounds(cs, Removable::TrueNoop, 0);
    lemma_first_index_bounds(cs, Removable::BareNl, 0);
}

/// Simplifications applied until none applies.
pub open spec fn simplify_all(cs: Seq<Summary>) -> Seq<Summary>
    decreases cs.len(),
    via simplify_all_decreases
{
    match simplify_once(cs) {
        Some(n) => simplify_all(n),
        None => cs,
    }
}

#[via_fn]
proof fn simplify_all_decreases(cs: Seq<Summary>) {
    lemma_simplify_shrinks(cs);
}

fn simplify_all_exec(commands: &mut Vec<ParsedCommand>)
    ensures
        summaries(final(commands)@) == simplify_all(summaries(old(commands)@)),
{
    let ghost goal = simplify_all(summaries(commands@));
    loop
        invariant
            simplify_all(summaries(commands@)) == goal,
            goal == simplify_all(summaries(old(commands)@)),
        decreases commands@.len(),
    {
        let ghost before = summaries(commands@);
        proof {
            lemma_simplify_shrinks(before);
        }
        if !simplify_once_exec(commands) {
            assert(simplify_all(before) == before);
            return;
        }
        assert(simplify_all(before) == simplify_all(summaries(commands@)));
        assert(summaries(commands@).len() == commands@.len());
    }
}

// ---------------------------------------------------------------------------
// bash -lc scripts

/// `sed -n` appears among the words.
pub open spec fn has_sed_n(t: Seq<Seq<char>>) -> bool {
    exists|i: int| 0 <= i < t.len() - 1 && t[i] == "sed"@ && #[trigger] t[i + 1] == "-n"@
}

/// Where a script reduces to one command, the summary shows the script or
/// its re-quoted words instead of the command alone.
pub open spec fn adjust_single(pc: Summary, script: Seq<char>, words: Seq<Seq<char>>, had: bool) -> Summary {
    match pc {
        Summary::Read { cmd, name } => if had {
            if has_word(words, "|"@) && has_sed_n(words) {
                Summary::Read { cmd: script, name }
            } else {
                Summary::Read { cmd, name }
            }
        } else {
            Summary::Read { cmd: joined(words), name }
        },
        Summary::ListFiles { cmd, path } => if had {
            Summary::ListFiles { cmd, path }
        } else {
            Summary::ListFiles { cmd: joined(words), path }
        },
        Summary::Search { cmd, query, path } => if had {
            Summary::Search { cmd, query, path }
        } else {
            Summary::Search { cmd: joined(words), query, path }
        },
        Summary::Unknown { .. } => Summary::Unknown { cmd: script },
        Summary::Noop { .. } => Summary::Noop { cmd: script },
        _ => pc,
    }
}

pub open spec fn drop_noops(cs: Seq<Summary>) -> Seq<Summary>
    decreases cs.len(),
{
    if cs.len() == 0 {
        cs
    } else if cs.last() is Noop {
        drop_noops(cs.drop_last())
    } else {
        drop_noops(cs.drop_last()).push(cs.last())
    }
}

pub open spec fn summarize_all(cs: Seq<Seq<Seq<char>>>) -> Seq<Summary> {
    cs.map_values(|c: Seq<Seq<char>>| summary(c))
}

/// Summaries of `bash -lc SCRIPT`; `None` for any other command.
pub open spec fn bash_lc_summaries(argv: Seq<Seq<char>>) -> Option<Seq<Summary>> {
    if !(argv.len() == 3 && argv[0] == "bash"@ && argv[1] == "-lc"@) {
        None
    } else {
        let script = argv[2];
        match word_commands(script) {
            Some(all) => if all.len() == 0 {
                Some(seq![Summary::Unknown { cmd: script }])
            } else {
                let words = match shlex_split_of(script) {
                    Some(v) => v,
                    None => argv,
                };
                let filtered = drop_small(all);
                if filtered.len() == 0 {
                    Some(seq![Summary::Unknown { cmd: script }])
                } else {
                    let cs0 = summarize_all(filtered);
                    let cs1 = simplify_all(
                        if cs0.len() > 1 {
                            drop_noops(cs0)
                        } else {
                            cs0
                        },
                    );
                    if cs1.len() == 1 {
                        let had = all.len() > 1 || has_connector(words);
                        Some(seq![adjust_single(cs1[0], script, words, had)])
                    } else {
                        Some(cs1)
                    }
                }
            },
            None => Some(seq![Summary::Unknown { cmd: script }]),
        }
    }
}

fn has_sed_n_exec(t: &Vec<String>) -> (r: bool)
    ensures
        r == has_sed_n(argv_view(t@)),
{
    let ghost a = argv_view(t@);
    if t.len() < 2 {
        return false;
    }
    let mut i: usize = 0;
    while i + 1 < t.len()
        invariant
            a == argv_view(t@),
            t@.len() >= 2,
            i + 1 <= t@.len(),
            forall|j: int| 0 <= j < i ==> !(a[j] == "sed"@ && #[trigger] a[j + 1] == "-n"@),
        decreases t.len() - i,
    {
        if str_eq(t[i].as_str(), "sed") && str_eq(t[i + 1].as_str(), "-n") {
            assert(a[i as int] == "sed"@ && a[i + 1] == "-n"@);
            return true;
        }
        i = i + 1;
    }
    false
}

fn has_pipe_exec(t: &Vec<String>) -> (r: bool)
    ensures
        r == has_word(argv_view(t@), "|"@),
{
    let mut i: usize = 0;
    while i < t.len()
        invariant
            i <= t@.len(),
            forall|j: int| 0 <= j < i ==> t@[j]@ != "|"@,
        decreases t.len() - i,
    {
        if str_eq(t[i].as_str(), "|") {
            assert(argv_view(t@)[i as int] == "|"@);
            return true;
        }
        i = i + 1;
    }
    assert forall|j: int| 0 <= j < t@.len() implies argv_view(t@)[j] != "|"@ by {
        assert(argv_view(t@)[j] == t@[j]@);
    }
    false
}

fn adjust_single_exec(pc: ParsedCommand, script: &str, words: &Vec<String>, had: bool) -> (r: ParsedCommand)
    ensures
        r.view() == adjust_single(pc.view(), script@, argv_view(words@), had),
{
    match pc {
        ParsedCommand::Read { cmd, name } => {
            if had {
                if has_pipe_exec(words) && has_sed_n_exec(words) {
                    ParsedCommand::Read { cmd: String::from_str(script), name }
                } else {
                    ParsedCommand::Read { cmd, name }
                }
            } else {
                ParsedCommand::Read { cmd: shlex_join(words.as_slice()), name }
            }
        },
        ParsedCommand::ListFiles { cmd, path } => {
            if had {
                ParsedCommand::ListFiles { cmd, path }
            } else {
                ParsedCommand::ListFiles { cmd: shlex_join(words.as_slice()), path }
            }
        },
        ParsedCommand::Search { cmd, query, path } => {
            if had {
                ParsedCommand::Search { cmd, query, path }
            } else {
                ParsedCommand::Search { cmd: shlex_join(words.as_slice()), query, path }
            }
        },
        ParsedCommand::Unknown { .. } => ParsedCommand::Unknown { cmd: String::from_str(script) },
        ParsedCommand::Noop { .. } => ParsedCommand::Noop { cmd: String::from_str(script) },
        other => other,
    }
}

fn summarize_each(cs: Vec<Vec<String>>) -> (r: Vec<ParsedCommand>)
    ensures
        summaries(r@) == summarize_all(commands_view(cs@)),
{
    let mut out: Vec<ParsedCommand> = Vec::new();
    let mut i: usize = 0;
    while i < cs.len()
        invariant
            i <= cs@.len(),
            summaries(out@) == summarize_all(commands_view(cs@)).subrange(0, i as int),
        decreases cs.len() - i,
    {
        let p = summarize_main_tokens(cs[i].as_slice());
        let ghost o0 = out@;
        out.push(p);
        assert(commands_view(cs@)[i as int] == argv_view(cs@[i as int]@));
        assert(summaries(out@) =~= summaries(o0).push(p.view()));
        assert(summarize_all(commands_view(cs@))[i as int] == p.view());
        assert(summaries(out@) =~= summarize_all(commands_view(cs@)).subrange(0, i + 1));
        i = i + 1;
    }
    assert(summarize_all(commands_view(cs@)).subrange(0, cs@.len() as int) =~= summarize_all(
        commands_view(cs@),
    ));
    out
}

fn drop_noops_exec(cs: Vec<ParsedCommand>) -> (r: Vec<ParsedCommand>)
    ensures
        summaries(r@) == drop_noops(summaries(cs@)),
{
    let ghost sv = summaries(cs@);
    let mut out: Vec<ParsedCommand> = Vec::new();
    let mut rest = cs;
    let ghost mut k: int = 0;
    assert(summaries(out@) =~= Seq::<Summary>::empty());
    while rest.len() > 0
        invariant
            0 <= k <= sv.len(),
            summaries(rest@) == sv.subrange(k, sv.len() as int),
            summaries(out@) == drop_noops(sv.subrange(0, k)),
        decreases rest.len(),
    {
        let ghost r0 = rest@;
        assert(summaries(r0).len() == r0.len());
        assert(sv[k] == summaries(r0)[0]);
        assert(summaries(r0)[0] == r0[0].view());
        let c = rest.remove(0);
        proof {
            assert(summaries(rest@) =~= summaries(r0).drop_first());
            assert(sv.subrange(0, k + 1).drop_last() =~= sv.subrange(0, k));
            assert(sv[k] == c.view());
        }
        let noop = match &c {
            ParsedCommand::Noop { .. } => true,
            _ => false,
        };
        if !noop {
            let ghost o0 = out@;
            out.push(c);
            assert(summaries(out@) =~= summaries(o0).push(sv[k]));
        }
        proof {
            k = k + 1;
        }
    }
    assert(sv.subrange(0, k) =~= sv);
    out
}

fn unknown_script(script: &str) -> (r: Vec<ParsedCommand>)
    ensures
        summaries(r@) == seq![Summary::Unknown { cmd: script@ }],
{
    let mut v: Vec<ParsedCommand> = Vec::new();
    v.push(ParsedCommand::Unknown { cmd: String::from_str(script) });
    assert(summaries(v@) =~= seq![Summary::Unknown { cmd: script@ }]);
    v
}

fn parse_bash_lc_commands(argv: &[String]) -> (r: Option<Vec<ParsedCommand>>)
    ensures
        match r {
            Some(v) => bash_lc_summaries(argv_view(argv@)) == Some(summaries(v@)),
            None => bash_lc_summaries(argv_view(argv@)) is None,
        },
{
    let ghost a = argv_view(argv@);
    if argv.len() != 3 {
        return None;
    }
    assert(a[0] == argv@[0]@ && a[1] == argv@[1]@ && a[2] == argv@[2]@);
    if !str_eq(argv[0].as_str(), "bash") || !str_eq(argv[1].as_str(), "-lc") {
        return None;
    }
    let script = argv[2].as_str();
    let all = match parse_word_commands(script) {
        Some(v) => v,
        None => return Some(unknown_script(script)),
    };
    if all.len() == 0 {
        return Some(unknown_script(script));
    }
    let words = match shlex_split(script) {
        Some(v) => v,
        None => {
            let w = copy_range(argv, 0, 3);
            assert(a.subrange(0, 3) =~= a);
            w
        },
    };
    let multiple = all.len() > 1;
    let filtered = drop_small_formatting_commands(all);
    if filtered.len() == 0 {
        return Some(unknown_script(script));
    }
    let cs0 = summarize_each(filtered);
    let mut cs1 = if cs0.len() > 1 {
        drop_noops_exec(cs0)
    } else {
        cs0
    };
    simplify_all_exec(&mut cs1);
    if cs1.len() == 1 {
        let had = multiple || contains_connectors(words.as_slice());
        let only = cs1.remove(0);
        let adjusted = adjust_single_exec(only, script, &words, had);
        let mut out: Vec<ParsedCommand> = Vec::new();
        out.push(adjusted);
        assert(summaries(out@) =~= seq![adjusted.view()]);
        return Some(out);
    }
    Some(cs1)
}

// ---------------------------------------------------------------------------
// Whole command lines

/// Summaries of a command line, before adjacent duplicates are merged.
pub open spec fn parse_impl(command: Seq<Seq<char>>) -> Seq<Summary> {
    match bash_lc_summaries(command) {
        Some(v) => v,
        None => {
            let n = normalized(command);
            let parts = if has_connector(n) {
                segments(n)
            } else {
                seq![n]
            };
            simplify_all(summarize_all(parts))
        },
    }
}

/// Summarizes a command line into its commands, in execution order.
pub fn parse_command_impl(command: &[String]) -> (r: Vec<ParsedCommand>)
    ensures
        summaries(r@) == parse_impl(argv_view(command@)),
{
    if let Some(v) = parse_bash_lc_commands(command) {
        return v;
    }
    let normalized = normalize_tokens(command);
    let parts = if contains_connectors(normalized.as_slice()) {
        split_on_connectors(normalized.as_slice())
    } else {
        let mut one: Vec<Vec<String>> = Vec::new();
        let ghost nv = argv_view(normalized@);
        one.push(normalized);
        assert(commands_view(one@) =~= seq![nv]);
        one
    };
    let mut commands = summarize_each(parts);
    simplify_all_exec(&mut commands);
    commands
}

/// Adjacent equal summaries merged into one.
pub open spec fn dedup(cs: Seq<Summary>) -> Seq<Summary>
    decreases cs.len(),
{
    if cs.len() == 0 {
        cs
    } else {
        let d = dedup(cs.drop_last());
        if d.len() > 0 && d.last() == cs.last() {
            d
        } else {
            d.push(cs.last())
        }
    }
}

fn opt_str_eq(a: &Option<String>, b: &Option<String>) -> (r: bool)
    ensures
        r == (opt_str(*a) == opt_str(*b)),
{
    match (a, b) {
        (Some(x), Some(y)) => str_eq(x.as_str(), y.as_str()),
        (None, None) => true,
        _ => false,
    }
}

fn words_eq(a: &Vec<String>, b: &Vec<String>) -> (r: bool)
    ensures
        r == (argv_view(a@) == argv_view(b@)),
{
    if a.len() != b.len() {
        assert(argv_view(a@).len() != argv_view(b@).len());
        return false;
    }
    let mut i: usize = 0;
    while i < a.len()
        invariant
            a@.len() == b@.len(),
            i <= a@.len(),
            forall|j: int| 0 <= j < i ==> a@[j]@ == b@[j]@,
        decreases a.len() - i,
    {
        if !str_eq(a[i].as_str(), b[i].as_str()) {
            assert(argv_view(a@)[i as int] != argv_view(b@)[i as int]);
            return false;
        }
        i = i + 1;
    }
    assert(argv_view(a@) =~= argv_view(b@));
    true
}

fn opt_words_eq(a: &Option<Vec<String>>, b: &Option<Vec<String>>) -> (r: bool)
    ensures
        r == (opt_argv(*a) == opt_argv(*b)),
{
    match (a, b) {
        (Some(x), Some(y)) => words_eq(x, y),
        (None, None) => true,
        _ => false,
    }
}

/// Whether two summaries are equal.
pub fn same_summary(a: &ParsedCommand, b: &ParsedCommand) -> (r: bool)
    ensures
        r == (a.view() == b.view()),
{
    match (a, b) {
        (ParsedCommand::Read { cmd: c1, name: n1 }, ParsedCommand::Read { cmd: c2, name: n2 }) => str_eq(
            c1.as_str(),
            c2.as_str(),
        ) && str_eq(n1.as_str(), n2.as_str()),
        (
            ParsedCommand::ListFiles { cmd: c1, path: p1 },
            ParsedCommand::ListFiles { cmd: c2, path: p2 },
        ) => str_eq(c1.as_str(), c2.as_str()) && opt_str_eq(p1, p2),
        (
            ParsedCommand::Search { cmd: c1, query: q1, path: p1 },
            ParsedCommand::Search { cmd: c2, query: q2, path: p2 },
        ) => str_eq(c1.as_str(), c2.as_str()) && opt_str_eq(q1, q2) && opt_str_eq(p1, p2),
        (
            ParsedCommand::Format { cmd: c1, tool: t1, targets: g1 },
            ParsedCommand::Format { cmd: c2, tool: t2, targets: g2 },
        ) => str_eq(c1.as_str(), c2.as_str()) && opt_str_eq(t1, t2) && opt_words_eq(g1, g2),
        (ParsedCommand::Test { cmd: c1 }, ParsedCommand::Test { cmd: c2 }) => str_eq(
            c1.as_str(),
            c2.as_str(),
        ),
        (
            ParsedCommand::Lint { cmd: c1, tool: t1, targets: g1 },
            ParsedCommand::Lint { cmd: c2, tool: t2, targets: g2 },
        ) => str_eq(c1.as_str(), c2.as_str()) && opt_str_eq(t1, t2) && opt_words_eq(g1, g2),
        (ParsedCommand::Noop { cmd: c1 }, ParsedCommand::Noop { cmd: c2 }) => str_eq(
            c1.as_str(),
            c2.as_str(),
        ),
        (ParsedCommand::Unknown { cmd: c1 }, ParsedCommand::Unknown { cmd: c2 }) => str_eq(
            c1.as_str(),
            c2.as_str(),
        ),
        _ => false,
    }
}

/// Summarizes a command line into the commands it runs, in execution order,
/// for display; adjacent equal summaries appear once.
pub fn parse_command(command: &[String]) -> (r: Vec<ParsedCommand>)
    ensures
        summaries(r@) == dedup(parse_impl(argv_view(command@))),
{
    let parsed = parse_command_impl(command);
    let ghost sv = summaries(parsed@);
    let mut out: Vec<ParsedCommand> = Vec::new();
    let mut rest = parsed;
    let ghost mut k: int = 0;
    assert(summaries(out@) =~= Seq::<Summary>::empty());
    while rest.len() > 0
        invariant
            0 <= k <= sv.len(),
            summaries(rest@) == sv.subrange(k, sv.len() as int),
            summaries(out@) == dedup(sv.subrange(0, k)),
        decreases rest.len(),
    {
        let ghost r0 = rest@;
        assert(summaries(r0).len() == r0.len());
        assert(sv[k] == summaries(r0)[0]);
        assert(summaries(r0)[0] == r0[0].view());
        let c = rest.remove(0);
        proof {
            assert(summaries(rest@) =~= summaries(r0).drop_first());
            assert(sv.subrange(0, k + 1).drop_last() =~= sv.subrange(0, k));
            assert(sv[k] == c.view());
        }
        let dup = out.len() > 0 && same_summary(&out[out.len() - 1], &c);
        assert(out@.len() > 0 ==> summaries(out@).last() == out@[out@.len() - 1].view());
        if !dup {
            let ghost o0 = out@;
            out.push(c);
            assert(summaries(out@) =~= summaries(o0).push(sv[k]));
        }
        proof {
            k = k + 1;
        }
    }
    assert(sv.subrange(0, k) =~= sv);
    out
}

} // verus!
