//! Argument helpers for command summaries: positional operands, display
//! paths, and the query and path of search commands.
use vstd::prelude::*;
use vstd::string::*;
use crate::text::{argv_view, has_char, has_prefix, push_char, starts_with, str_eq, substring};

verus! {

pub open spec fn is_flag(a: Seq<char>) -> bool {
    has_prefix(a, "-"@)
}

pub fn is_flag_exec(a: &str) -> (r: bool)
    ensures
        r == is_flag(a@),
{
    starts_with(a, "-")
}

/// Commands whose options may take a separate value.
#[derive(Clone, Copy)]
pub enum ValueFlags {
    Ls,
    Fd,
    Nl,
    Eslint,
}

/// `a` is an option of `set` that takes the next argument as its value.
pub open spec fn takes_value(set: ValueFlags, a: Seq<char>) -> bool {
    match set {
        ValueFlags::Ls => a == "-I"@ || a == "-w"@ || a == "--block-size"@ || a == "--format"@ || a
            == "--time-style"@ || a == "--color"@ || a == "--quoting-style"@,
        ValueFlags::Fd => a == "-t"@ || a == "--type"@ || a == "-e"@ || a == "--extension"@ || a
            == "-E"@ || a == "--exclude"@ || a == "--search-path"@,
        ValueFlags::Nl => a == "-s"@ || a == "-w"@ || a == "-v"@ || a == "-i"@ || a == "-b"@,
        ValueFlags::Eslint => a == "-c"@ || a == "--config"@ || a == "--parser"@ || a
            == "--parser-options"@ || a == "--rulesdir"@ || a == "--plugin"@ || a
            == "--max-warnings"@ || a == "--format"@,
    }
}

fn takes_value_exec(set: ValueFlags, a: &str) -> (r: bool)
    ensures
        r == takes_value(set, a@),
{
    match set {
        ValueFlags::Ls => str_eq(a, "-I") || str_eq(a, "-w") || str_eq(a, "--block-size") || str_eq(
            a,
            "--format",
        ) || str_eq(a, "--time-style") || str_eq(a, "--color") || str_eq(a, "--quoting-style"),
        ValueFlags::Fd => str_eq(a, "-t") || str_eq(a, "--type") || str_eq(a, "-e") || str_eq(
            a,
            "--extension",
        ) || str_eq(a, "-E") || str_eq(a, "--exclude") || str_eq(a, "--search-path"),
        ValueFlags::Nl => str_eq(a, "-s") || str_eq(a, "-w") || str_eq(a, "-v") || str_eq(a, "-i")
            || str_eq(a, "-b"),
        ValueFlags::Eslint => str_eq(a, "-c") || str_eq(a, "--config") || str_eq(a, "--parser")
            || str_eq(a, "--parser-options") || str_eq(a, "--rulesdir") || str_eq(a, "--plugin")
            || str_eq(a, "--max-warnings") || str_eq(a, "--format"),
    }
}

/// The arguments from `i` on that are not option values: values of options
/// in `set` and `--opt=value` arguments are left out; after `--` everything
/// is kept.
pub open spec fn skip_from(args: Seq<Seq<char>>, set: ValueFlags, i: int, skip: bool) -> Seq<
    Seq<char>,
>
    decreases args.len() - i,
{
    if i < 0 || i >= args.len() {
        Seq::empty()
    } else if skip {
        skip_from(args, set, i + 1, false)
    } else if args[i] == "--"@ {
        args.subrange(i + 1, args.len() as int)
    } else if has_prefix(args[i], "--"@) && has_char(args[i], '=') {
        skip_from(args, set, i + 1, false)
    } else if takes_value(set, args[i]) {
        skip_from(args, set, i + 1, i + 1 < args.len())
    } else {
        seq![args[i]] + skip_from(args, set, i + 1, false)
    }
}

pub open spec fn skip_flag_values(args: Seq<Seq<char>>, set: ValueFlags) -> Seq<Seq<char>> {
    skip_from(args, set, 0, false)
}

/// Copies `args[from..to]`.
pub fn copy_range(args: &[String], from: usize, to: usize) -> (r: Vec<String>)
    requires
        from <= to <= args@.len(),
    ensures
        argv_view(r@) == argv_view(args@).subrange(from as int, to as int),
{
    let mut out: Vec<String> = Vec::new();
    let mut i: usize = from;
    while i < to
        invariant
            from <= i <= to <= args@.len(),
            argv_view(out@) == argv_view(args@).subrange(from as int, i as int),
        decreases to - i,
    {
        let ghost before = out@;
        out.push(args[i].clone());
        assert(argv_view(out@) =~= argv_view(before).push(args@[i as int]@));
        assert(argv_view(args@).subrange(from as int, i + 1) =~= argv_view(args@).subrange(
            from as int,
            i as int,
        ).push(args@[i as int]@));
        i = i + 1;
    }
    out
}

/// The arguments that are not values of options in `set`.
pub fn skip_flag_values_exec(args: &[String], set: ValueFlags) -> (r: Vec<String>)
    ensures
        argv_view(r@) == skip_flag_values(argv_view(args@), set),
{
    let ghost a = argv_view(args@);
    let mut out: Vec<String> = Vec::new();
    let mut skip = false;
    let mut i: usize = 0;
    while i < args.len()
        invariant
            a == argv_view(args@),
            i <= args@.len(),
            argv_view(out@) + skip_from(a, set, i as int, skip) == skip_flag_values(a, set),
        decreases args.len() - i,
    {
        let ghost before = out@;
        let arg = args[i].as_str();
        if skip {
            skip = false;
        } else if str_eq(arg, "--") {
            let rest = copy_range(args, i + 1, args.len());
            let mut j: usize = 0;
            let ghost mid = out@;
            while j < rest.len()
                invariant
                    j <= rest@.len(),
                    argv_view(out@) == argv_view(mid) + argv_view(rest@).subrange(0, j as int),
                decreases rest.len() - j,
            {
                let ghost b2 = out@;
                out.push(rest[j].clone());
                assert(argv_view(out@) =~= argv_view(b2).push(rest@[j as int]@));
                assert(argv_view(rest@).subrange(0, j + 1) =~= argv_view(rest@).subrange(0, j as int).push(
                    rest@[j as int]@,
                ));
                j = j + 1;
            }
            assert(argv_view(rest@).subrange(0, rest@.len() as int) =~= argv_view(rest@));
            assert(skip_from(a, set, i as int, false) == a.subrange(i + 1, a.len() as int));
            return out;
        } else if starts_with(arg, "--") && crate::text::find_char(arg, '=').is_some() {
        } else if takes_value_exec(set, arg) {
            skip = i + 1 < args.len();
        } else {
            out.push(args[i].clone());
            assert(argv_view(out@) =~= argv_view(before).push(a[i as int]));
            assert(argv_view(before) + (seq![a[i as int]] + skip_from(a, set, i + 1, false)) =~= argv_view(
                out@,
            ) + skip_from(a, set, i + 1, false));
        }
        i = i + 1;
    }
    assert(argv_view(out@) + Seq::<Seq<char>>::empty() =~= argv_view(out@));
    out
}

/// Options of build and lint tools that take the next argument as a value.
pub open spec fn is_tool_value_option(a: Seq<char>) -> bool {
    a == "-p"@ || a == "--package"@ || a == "--features"@ || a == "-C"@ || a == "--config"@ || a
        == "--config-path"@ || a == "--out-dir"@ || a == "-o"@ || a == "--run"@ || a
        == "--max-warnings"@ || a == "--format"@
}

fn is_tool_value_option_exec(a: &str) -> (r: bool)
    ensures
        r == is_tool_value_option(a@),
{
    str_eq(a, "-p") || str_eq(a, "--package") || str_eq(a, "--features") || str_eq(a, "-C") || str_eq(
        a,
        "--config",
    ) || str_eq(a, "--config-path") || str_eq(a, "--out-dir") || str_eq(a, "-o") || str_eq(a, "--run")
        || str_eq(a, "--max-warnings") || str_eq(a, "--format")
}

/// Operands from `i` on, up to `--`, leaving out options and the values of
/// the options that take one.
pub open spec fn targets_from(args: Seq<Seq<char>>, i: int, skip: bool) -> Seq<Seq<char>>
    decreases args.len() - i,
{
    if i < 0 || i >= args.len() {
        Seq::empty()
    } else if args[i] == "--"@ {
        Seq::empty()
    } else if skip {
        targets_from(args, i + 1, false)
    } else if is_tool_value_option(args[i]) {
        targets_from(args, i + 1, i + 1 < args.len())
    } else if is_flag(args[i]) {
        targets_from(args, i + 1, false)
    } else {
        seq![args[i]] + targets_from(args, i + 1, false)
    }
}

pub open spec fn none_if_empty(s: Seq<Seq<char>>) -> Option<Seq<Seq<char>>> {
    if s.len() == 0 {
        None
    } else {
        Some(s)
    }
}

pub open spec fn non_flag_targets(args: Seq<Seq<char>>) -> Option<Seq<Seq<char>>> {
    none_if_empty(targets_from(args, 0, false))
}

pub open spec fn opt_argv(v: Option<Vec<String>>) -> Option<Seq<Seq<char>>> {
    match v {
        Some(x) => Some(argv_view(x@)),
        None => None,
    }
}

/// The operands of a build or lint tool's arguments, if any.
pub fn collect_non_flag_targets(args: &[String]) -> (r: Option<Vec<String>>)
    ensures
        opt_argv(r) == non_flag_targets(argv_view(args@)),
{
    let ghost a = argv_view(args@);
    let mut out: Vec<String> = Vec::new();
    let mut skip = false;
    let mut i: usize = 0;
    while i < args.len()
        invariant
            a == argv_view(args@),
            i <= args@.len(),
            argv_view(out@) + targets_from(a, i as int, skip) == targets_from(a, 0, false),
        ensures
            argv_view(out@) == targets_from(a, 0, false),
        decreases args.len() - i,
    {
        let ghost before = out@;
        let arg = args[i].as_str();
        if str_eq(arg, "--") {
            assert(targets_from(a, i as int, skip) =~= Seq::<Seq<char>>::empty());
            assert(argv_view(out@) + Seq::<Seq<char>>::empty() =~= argv_view(out@));
            break;
        }
        if skip {
            skip = false;
        } else if is_tool_value_option_exec(arg) {
            skip = i + 1 < args.len();
        } else if is_flag_exec(arg) {
        } else {
            out.push(args[i].clone());
            assert(argv_view(out@) =~= argv_view(before).push(a[i as int]));
            assert(argv_view(before) + (seq![a[i as int]] + targets_from(a, i + 1, false)) =~= argv_view(
                out@,
            ) + targets_from(a, i + 1, false));
        }
        i = i + 1;
        if i == args.len() {
            assert(argv_view(out@) + Seq::<Seq<char>>::empty() =~= argv_view(out@));
        }
    }
    if out.len() == 0 {
        None
    } else {
        Some(out)
    }
}

/// The arguments that are not options.
pub open spec fn drop_flags(s: Seq<Seq<char>>) -> Seq<Seq<char>>
    decreases s.len(),
{
    if s.len() == 0 {
        Seq::empty()
    } else if is_flag(s.last()) {
        drop_flags(s.drop_last())
    } else {
        drop_flags(s.drop_last()).push(s.last())
    }
}

/// Keeps the arguments that are not options.
pub fn drop_flags_exec(v: &[String]) -> (r: Vec<String>)
    ensures
        argv_view(r@) == drop_flags(argv_view(v@)),
{
    let mut out: Vec<String> = Vec::new();
    let mut i: usize = 0;
    while i < v.len()
        invariant
            i <= v@.len(),
            argv_view(out@) == drop_flags(argv_view(v@).subrange(0, i as int)),
        decreases v.len() - i,
    {
        let ghost before = out@;
        assert(argv_view(v@).subrange(0, i + 1).drop_last() =~= argv_view(v@).subrange(0, i as int));
        if !is_flag_exec(v[i].as_str()) {
            out.push(v[i].clone());
            assert(argv_view(out@) =~= argv_view(before).push(v@[i as int]@));
        }
        i = i + 1;
    }
    assert(argv_view(v@).subrange(0, v@.len() as int) =~= argv_view(v@));
    out
}

pub open spec fn non_flag_targets_with(args: Seq<Seq<char>>, set: ValueFlags) -> Option<
    Seq<Seq<char>>,
> {
    none_if_empty(drop_flags(skip_flag_values(args, set)))
}

/// The operands of a tool whose options in `set` take values.
pub fn collect_non_flag_targets_with_flags(args: &[String], set: ValueFlags) -> (r: Option<
    Vec<String>,
>)
    ensures
        opt_argv(r) == non_flag_targets_with(argv_view(args@), set),
{
    let kept = skip_flag_values_exec(args, set);
    let targets = drop_flags_exec(kept.as_slice());
    if targets.len() == 0 {
        None
    } else {
        Some(targets)
    }
}

/// Looks like a path rather than a search pattern.
pub open spec fn is_pathish(s: Seq<char>) -> bool {
    s == "."@ || s == ".."@ || has_prefix(s, "./"@) || has_prefix(s, "../"@) || has_char(s, '/')
        || has_char(s, '\\')
}

pub fn is_pathish_exec(s: &str) -> (r: bool)
    ensures
        r == is_pathish(s@),
{
    str_eq(s, ".") || str_eq(s, "..") || starts_with(s, "./") || starts_with(s, "../")
        || crate::text::find_char(s, '/').is_some() || crate::text::find_char(s, '\\').is_some()
}

/// Backslashes as slashes.
pub open spec fn forward_slashes(s: Seq<char>) -> Seq<char> {
    s.map_values(|c: char| if c == '\\' { '/' } else { c })
}

/// `s` without trailing slashes.
pub open spec fn strip_trailing_slashes(s: Seq<char>) -> Seq<char>
    decreases s.len(),
{
    if s.len() > 0 && s.last() == '/' {
        strip_trailing_slashes(s.drop_last())
    } else {
        s
    }
}

/// Path components that say little about where a file is.
pub open spec fn is_boring_component(p: Seq<char>) -> bool {
    p.len() == 0 || p == "build"@ || p == "dist"@ || p == "node_modules"@ || p == "src"@
}

/// The last slash before index `end`.
pub open spec fn last_slash_before(s: Seq<char>, end: int) -> Option<int>
    decreases end,
{
    if end <= 0 {
        None
    } else if s[end - 1] == '/' {
        Some(end - 1)
    } else {
        last_slash_before(s, end - 1)
    }
}

/// The last telling component of `t[..end]`, looking from the end.
pub open spec fn telling_component(t: Seq<char>, end: int) -> Option<Seq<char>>
    decreases end,
{
    if end < 0 || end > t.len() {
        None
    } else {
        match last_slash_before(t, end) {
            None => if is_boring_component(t.subrange(0, end)) {
                None
            } else {
                Some(t.subrange(0, end))
            },
            Some(j) => if j < end && !is_boring_component(t.subrange(j + 1, end)) {
                Some(t.subrange(j + 1, end))
            } else if 0 <= j < end {
                telling_component(t, j)
            } else {
                None
            },
        }
    }
}

/// A path shortened for display: its last component that is not empty,
/// `build`, `dist`, `node_modules` or `src`; the whole path (slashes
/// normalized, trailing ones removed) when there is none.
pub open spec fn short_path(p: Seq<char>) -> Seq<char> {
    let t = strip_trailing_slashes(forward_slashes(p));
    match telling_component(t, t.len() as int) {
        Some(c) => c,
        None => t,
    }
}

proof fn lemma_last_slash_bounds(s: Seq<char>, end: int)
    requires
        end <= s.len(),
    ensures
        match last_slash_before(s, end) {
            Some(j) => 0 <= j < end && s[j] == '/',
            None => true,
        },
    decreases end,
{
    if end > 0 && s[end - 1] != '/' {
        lemma_last_slash_bounds(s, end - 1);
    }
}

fn is_boring_component_exec(p: &str) -> (r: bool)
    ensures
        r == is_boring_component(p@),
{
    p.unicode_len() == 0 || str_eq(p, "build") || str_eq(p, "dist") || str_eq(p, "node_modules")
        || str_eq(p, "src")
}

/// Shortens a path for display.
pub fn short_display_path(path: &str) -> (r: String)
    ensures
        r@ == short_path(path@),
{
    let n = path.unicode_len();
    let mut norm = String::new();
    let mut i: usize = 0;
    while i < n
        invariant
            n == path@.len(),
            i <= n,
            norm@ == forward_slashes(path@.subrange(0, i as int)),
        decreases n - i,
    {
        let c = path.get_char(i);
        push_char(&mut norm, if c == '\\' { '/' } else { c });
        assert(forward_slashes(path@.subrange(0, i + 1)) =~= forward_slashes(
            path@.subrange(0, i as int),
        ).push(if c == '\\' { '/' } else { c }));
        i = i + 1;
    }
    assert(path@.subrange(0, n as int) =~= path@);
    let ns = norm.as_str();
    let mut len = ns.unicode_len();
    assert(ns@.subrange(0, len as int) =~= ns@);
    while len > 0 && ns.get_char(len - 1) == '/'
        invariant
            len <= ns@.len(),
            strip_trailing_slashes(ns@.subrange(0, len as int)) == strip_trailing_slashes(ns@),
        decreases len,
    {
        assert(ns@.subrange(0, len as int).drop_last() =~= ns@.subrange(0, len - 1));
        len = len - 1;
    }
    assert(strip_trailing_slashes(ns@.subrange(0, len as int)) == ns@.subrange(0, len as int));
    let trimmed = substring(ns, 0, len);
    let t = trimmed.as_str();
    let ghost tv = t@;
    assert(norm@ == forward_slashes(path@));
    let mut end = t.unicode_len();
    loop
        invariant
            t@ == tv,
            trimmed@ == tv,
            tv == strip_trailing_slashes(forward_slashes(path@)),
            end <= tv.len(),
            telling_component(tv, end as int) == telling_component(tv, tv.len() as int),
        decreases end,
    {
        let mut j = end;
        while j > 0 && t.get_char(j - 1) != '/'
            invariant
                j <= end <= tv.len(),
                t@ == tv,
                last_slash_before(tv, j as int) == last_slash_before(tv, end as int),
            decreases j,
        {
            j = j - 1;
        }
        proof {
            lemma_last_slash_bounds(tv, end as int);
        }
        assert(j == 0 ==> last_slash_before(tv, end as int) is None);
        assert(j > 0 ==> last_slash_before(tv, end as int) == Some(j - 1));
        if j == 0 {
            let whole = substring(t, 0, end);
            if is_boring_component_exec(whole.as_str()) {
                return trimmed;
            }
            return whole;
        }
        let comp = substring(t, j, end);
        if !is_boring_component_exec(comp.as_str()) {
            return comp;
        }
        end = j - 1;
    }
}

/// The arguments before the first `|`, `&&`, `||` or `;`.
pub open spec fn is_connector(t: Seq<char>) -> bool {
    t == "|"@ || t == "&&"@ || t == "||"@ || t == ";"@
}

pub fn is_connector_exec(t: &str) -> (r: bool)
    ensures
        r == is_connector(t@),
{
    str_eq(t, "|") || str_eq(t, "&&") || str_eq(t, "||") || str_eq(t, ";")
}

pub open spec fn before_connector(t: Seq<Seq<char>>) -> Seq<Seq<char>>
    decreases t.len(),
{
    if t.len() == 0 {
        t
    } else if exists|i: int| 0 <= i < t.len() - 1 && is_connector(#[trigger] t[i]) {
        before_connector(t.drop_last())
    } else if is_connector(t.last()) {
        t.drop_last()
    } else {
        t
    }
}

/// The arguments before the first connector.
pub fn trim_at_connector(tokens: &[String]) -> (r: Vec<String>)
    ensures
        argv_view(r@) == before_connector(argv_view(tokens@)),
{
    let ghost a = argv_view(tokens@);
    let mut i: usize = 0;
    while i < tokens.len() && !is_connector_exec(tokens[i].as_str())
        invariant
            i <= tokens@.len(),
            a == argv_view(tokens@),
            forall|j: int| 0 <= j < i ==> !is_connector(#[trigger] a[j]),
        decreases tokens.len() - i,
    {
        i = i + 1;
    }
    proof {
        lemma_before_connector(a, i as int);
    }
    copy_range(tokens, 0, i)
}

proof fn lemma_before_connector(a: Seq<Seq<char>>, i: int)
    requires
        0 <= i <= a.len(),
        forall|j: int| 0 <= j < i ==> !is_connector(#[trigger] a[j]),
        i < a.len() ==> is_connector(a[i]),
    ensures
        before_connector(a) == a.subrange(0, i),
    decreases a.len(),
{
    if a.len() == 0 {
    } else if exists|k: int| 0 <= k < a.len() - 1 && is_connector(#[trigger] a[k]) {
        assert(i < a.len() - 1) by {
            let k = choose|k: int| 0 <= k < a.len() - 1 && is_connector(#[trigger] a[k]);
            if i >= a.len() - 1 {
                assert(!is_connector(a[k]));
            }
        }
        let d = a.drop_last();
        assert forall|j: int| 0 <= j < i implies !is_connector(#[trigger] d[j]) by {
            assert(d[j] == a[j]);
        }
        assert(d[i] == a[i]);
        lemma_before_connector(d, i);
        assert(d.subrange(0, i) =~= a.subrange(0, i));
    } else if is_connector(a.last()) {
        assert(i == a.len() - 1);
        assert(a.drop_last() =~= a.subrange(0, i));
    } else {
        assert(i == a.len());
        assert(a =~= a.subrange(0, i));
    }
}

pub open spec fn opt_str(v: Option<String>) -> Option<Seq<char>> {
    match v {
        Some(x) => Some(x@),
        None => None,
    }
}

/// Query and path of an `fd` invocation: with one operand, a path-like
/// operand is the path and anything else the query; with two or more, the
/// first is the query and the second the path.
pub open spec fn fd_query_and_path(tail: Seq<Seq<char>>) -> (Option<Seq<char>>, Option<Seq<char>>) {
    let ops = drop_flags(skip_flag_values(before_connector(tail), ValueFlags::Fd));
    if ops.len() == 1 {
        if is_pathish(ops[0]) {
            (None, Some(short_path(ops[0])))
        } else {
            (Some(ops[0]), None)
        }
    } else if ops.len() >= 2 {
        (Some(ops[0]), Some(short_path(ops[1])))
    } else {
        (None, None)
    }
}

pub fn parse_fd_query_and_path(tail: &[String]) -> (r: (Option<String>, Option<String>))
    ensures
        (opt_str(r.0), opt_str(r.1)) == fd_query_and_path(argv_view(tail@)),
{
    let trimmed = trim_at_connector(tail);
    let kept = skip_flag_values_exec(trimmed.as_slice(), ValueFlags::Fd);
    let ops = drop_flags_exec(kept.as_slice());
    if ops.len() == 1 {
        assert(argv_view(ops@)[0] == ops@[0]@);
        if is_pathish_exec(ops[0].as_str()) {
            (None, Some(short_display_path(ops[0].as_str())))
        } else {
            (Some(ops[0].clone()), None)
        }
    } else if ops.len() >= 2 {
        assert(argv_view(ops@)[0] == ops@[0]@);
        assert(argv_view(ops@)[1] == ops@[1]@);
        (Some(ops[0].clone()), Some(short_display_path(ops[1].as_str())))
    } else {
        (None, None)
    }
}

/// The first argument from `i` on that is neither an option nor one of
/// `!`, `(`, `)`.
pub open spec fn find_root_from(a: Seq<Seq<char>>, i: int) -> Option<Seq<char>>
    decreases a.len() - i,
{
    if i < 0 || i >= a.len() {
        None
    } else if !is_flag(a[i]) && a[i] != "!"@ && a[i] != "("@ && a[i] != ")"@ {
        Some(a[i])
    } else {
        find_root_from(a, i + 1)
    }
}

pub open spec fn is_find_pattern_option(a: Seq<char>) -> bool {
    a == "-name"@ || a == "-iname"@ || a == "-path"@ || a == "-regex"@
}

/// The value of the first name or path pattern option from `i` on.
pub open spec fn find_pattern_from(a: Seq<Seq<char>>, i: int) -> Option<Seq<char>>
    decreases a.len() - i,
{
    if i < 0 || i >= a.len() {
        None
    } else if is_find_pattern_option(a[i]) {
        if i + 1 < a.len() {
            Some(a[i + 1])
        } else {
            None
        }
    } else {
        find_pattern_from(a, i + 1)
    }
}

/// Query (a name or path pattern) and root path of a `find` invocation.
pub open spec fn find_query_and_path(tail: Seq<Seq<char>>) -> (Option<Seq<char>>, Option<Seq<char>>) {
    let a = before_connector(tail);
    (
        find_pattern_from(a, 0),
        match find_root_from(a, 0) {
            Some(p) => Some(short_path(p)),
            None => None,
        },
    )
}

pub fn parse_find_query_and_path(tail: &[String]) -> (r: (Option<String>, Option<String>))
    ensures
        (opt_str(r.0), opt_str(r.1)) == find_query_and_path(argv_view(tail@)),
{
    let args = trim_at_connector(tail);
    let ghost a = argv_view(args@);
    let mut path: Option<String> = None;
    let mut i: usize = 0;
    while i < args.len()
        invariant_except_break
            path is None,
        invariant
            a == argv_view(args@),
            i <= args@.len(),
            find_root_from(a, i as int) == find_root_from(a, 0),
        ensures
            opt_str(path) == match find_root_from(a, 0) {
                Some(p) => Some(short_path(p)),
                None => None,
            },
        decreases args.len() - i,
    {
        let x = args[i].as_str();
        if !is_flag_exec(x) && !str_eq(x, "!") && !str_eq(x, "(") && !str_eq(x, ")") {
            path = Some(short_display_path(x));
            break;
        }
        i = i + 1;
    }
    let mut query: Option<String> = None;
    let mut k: usize = 0;
    while k < args.len()
        invariant_except_break
            query is None,
        invariant
            a == argv_view(args@),
            k <= args@.len(),
            find_pattern_from(a, k as int) == find_pattern_from(a, 0),
        ensures
            opt_str(query) == find_pattern_from(a, 0),
        decreases args.len() - k,
    {
        let x = args[k].as_str();
        if str_eq(x, "-name") || str_eq(x, "-iname") || str_eq(x, "-path") || str_eq(x, "-regex") {
            if k + 1 < args.len() {
                query = Some(args[k + 1].clone());
                assert(a[k + 1] == args@[k + 1]@);
            }
            break;
        }
        k = k + 1;
    }
    (query, path)
}

} // verus!
