//! Which tool calls may run concurrently, and how a list of calls splits
//! into groups that run together.
use vstd::prelude::*;
use crate::models::ResponseItem;
use crate::text::{contains, has_infix, has_prefix, starts_with, str_eq};

verus! {

/// Tools that only read, by name.
pub open spec fn is_parallel_tool_name(n: Seq<char>) -> bool {
    n == "read_file"@ || n == "list_files"@ || n == "search_files"@ || n == "glob_files"@ || (
    has_prefix(n, "mcp__"@) && (has_infix(n, "_read"@) || has_infix(n, "_get"@) || has_infix(
        n,
        "_list"@,
    ) || has_infix(n, "_search"@) || has_infix(n, "_status"@)))
}

/// Whether the tool named `function_name` only reads and may run alongside
/// other such tools. The shell tool is judged by its arguments instead.
pub fn is_safe_for_parallel(function_name: &str) -> (r: bool)
    ensures
        r == is_parallel_tool_name(function_name@),
{
    let n = function_name;
    str_eq(n, "read_file") || str_eq(n, "list_files") || str_eq(n, "search_files") || str_eq(
        n,
        "glob_files",
    ) || (starts_with(n, "mcp__") && (contains(n, "_read") || contains(n, "_get") || contains(
        n,
        "_list",
    ) || contains(n, "_search") || contains(n, "_status")))
}

/// The first word of the `command` array of a JSON object text, when the
/// text parses and that word is a string.
pub uninterp spec fn json_command_head(arguments: Seq<char>) -> Option<Seq<char>>;

/// Relies on `serde_json::from_str` into a `serde_json::Value` and its
/// accessors: the first element of the `command` array, when it is a string.
#[verifier::external_body]
fn command_head(arguments: &str) -> (r: Option<String>)
    ensures
        match r {
            Some(h) => json_command_head(arguments@) == Some(h@),
            None => json_command_head(arguments@) is None,
        },
{
    let v: serde_json::Value = serde_json::from_str(arguments).ok()?;
    v.get("command")?.as_array()?.first()?.as_str().map(|s| s.to_string())
}

/// Programs that only read.
pub open spec fn is_read_only_program(h: Seq<char>) -> bool {
    h == "cat"@ || h == "ls"@ || h == "grep"@ || h == "head"@ || h == "tail"@ || h == "wc"@ || h
        == "find"@ || h == "pwd"@ || h == "echo"@
}

pub open spec fn shell_head_safe(head: Option<Seq<char>>) -> bool {
    match head {
        Some(h) => is_read_only_program(h),
        None => false,
    }
}

/// Whether a shell call whose command starts with `head` only reads.
pub fn is_safe_shell_head(head: Option<&str>) -> (r: bool)
    ensures
        r == match head {
            Some(h) => is_read_only_program(h@),
            None => false,
        },
{
    match head {
        Some(h) => str_eq(h, "cat") || str_eq(h, "ls") || str_eq(h, "grep") || str_eq(h, "head")
            || str_eq(h, "tail") || str_eq(h, "wc") || str_eq(h, "find") || str_eq(h, "pwd")
            || str_eq(h, "echo"),
        None => false,
    }
}

/// Whether shell arguments of the form `{"command": [program, ...]}` name a
/// program that only reads.
pub fn is_safe_shell_command(arguments: &str) -> (r: bool)
    ensures
        r == shell_head_safe(json_command_head(arguments@)),
{
    match command_head(arguments) {
        Some(h) => is_safe_shell_head(Some(h.as_str())),
        None => false,
    }
}

/// A tool call that may run concurrently with other such calls.
pub open spec fn parallel_safe(item: ResponseItem) -> bool {
    match item {
        ResponseItem::FunctionCall { name, arguments, .. } => if name@ == "shell"@ {
            shell_head_safe(json_command_head(arguments@))
        } else {
            is_parallel_tool_name(name@)
        },
        _ => false,
    }
}

/// Whether `item` may run concurrently with other such calls.
pub fn is_parallel_safe_item(item: &ResponseItem) -> (r: bool)
    ensures
        r == parallel_safe(*item),
{
    match item {
        ResponseItem::FunctionCall { name, arguments, .. } => {
            if str_eq(name.as_str(), "shell") {
                is_safe_shell_command(arguments.as_str())
            } else {
                is_safe_for_parallel(name.as_str())
            }
        },
        _ => false,
    }
}

pub open spec fn all_parallel_safe(items: Seq<ResponseItem>) -> bool {
    forall|i: int| 0 <= i < items.len() ==> parallel_safe(#[trigger] items[i])
}

/// A call may join a group when the group is empty, or when it and every
/// member may run concurrently.
pub open spec fn can_join(item: ResponseItem, group: Seq<ResponseItem>) -> bool {
    group.len() == 0 || (parallel_safe(item) && all_parallel_safe(group))
}

/// Whether `item` may join `group`.
pub fn can_execute_in_parallel(item: &ResponseItem, group: &[ResponseItem]) -> (r: bool)
    ensures
        r == can_join(*item, group@),
{
    if group.len() == 0 {
        return true;
    }
    if !is_parallel_safe_item(item) {
        return false;
    }
    let mut i: usize = 0;
    while i < group.len()
        invariant
            i <= group@.len(),
            forall|j: int| 0 <= j < i ==> parallel_safe(#[trigger] group@[j]),
        decreases group.len() - i,
    {
        if !is_parallel_safe_item(&group[i]) {
            return false;
        }
        i = i + 1;
    }
    true
}

/// Items that run together: one item alone, or a run of calls that may run
/// concurrently.
#[derive(Debug)]
pub struct ParallelToolGroup {
    pub items: Vec<ResponseItem>,
}

pub open spec fn flush(groups: Seq<Seq<ResponseItem>>, cur: Seq<ResponseItem>) -> Seq<
    Seq<ResponseItem>,
> {
    if cur.len() > 0 {
        groups.push(cur)
    } else {
        groups
    }
}

/// One item added to the finished groups and the open group.
pub open spec fn group_step(
    acc: (Seq<Seq<ResponseItem>>, Seq<ResponseItem>),
    item: ResponseItem,
) -> (Seq<Seq<ResponseItem>>, Seq<ResponseItem>) {
    let (g, cur) = acc;
    if item is FunctionCall {
        if can_join(item, cur) {
            (g, cur.push(item))
        } else {
            (flush(g, cur), seq![item])
        }
    } else {
        (flush(g, cur).push(seq![item]), Seq::empty())
    }
}

pub open spec fn group_fold(items: Seq<ResponseItem>) -> (Seq<Seq<ResponseItem>>, Seq<ResponseItem>)
    decreases items.len(),
{
    if items.len() == 0 {
        (Seq::empty(), Seq::empty())
    } else {
        group_step(group_fold(items.drop_last()), items.last())
    }
}

/// The groups of `items`, in order: calls join the open group while they and
/// its members may all run concurrently; anything else closes it.
pub open spec fn parallel_groups(items: Seq<ResponseItem>) -> Seq<Seq<ResponseItem>> {
    flush(group_fold(items).0, group_fold(items).1)
}

pub open spec fn groups_view(g: Seq<ParallelToolGroup>) -> Seq<Seq<ResponseItem>> {
    g.map_values(|x: ParallelToolGroup| x.items@)
}

fn flush_exec(groups: &mut Vec<ParallelToolGroup>, cur: &mut Vec<ResponseItem>)
    ensures
        groups_view(final(groups)@) == flush(groups_view(old(groups)@), old(cur)@),
        final(cur)@ == Seq::<ResponseItem>::empty(),
{
    if cur.len() > 0 {
        let mut taken: Vec<ResponseItem> = Vec::new();
        std::mem::swap(cur, &mut taken);
        let ghost before = groups@;
        groups.push(ParallelToolGroup { items: taken });
        assert(groups_view(groups@) =~= groups_view(before).push(taken@));
    }
}

/// Splits `items` into groups that run one after another.
pub fn identify_parallel_groups(items: Vec<ResponseItem>) -> (r: Vec<ParallelToolGroup>)
    ensures
        groups_view(r@) == parallel_groups(items@),
{
    let ghost all = items@;
    let mut rest = items;
    let mut groups: Vec<ParallelToolGroup> = Vec::new();
    let mut current: Vec<ResponseItem> = Vec::new();
    let ghost mut k: int = 0;
    assert(groups_view(groups@) =~= Seq::<Seq<ResponseItem>>::empty());
    while rest.len() > 0
        invariant
            0 <= k <= all.len(),
            rest@ == all.subrange(k, all.len() as int),
            (groups_view(groups@), current@) == group_fold(all.subrange(0, k)),
        decreases rest.len(),
    {
        let item = rest.remove(0);
        proof {
            assert(all.subrange(0, k + 1).drop_last() =~= all.subrange(0, k));
            assert(all.subrange(0, k + 1).last() == item);
        }
        let is_call = match &item {
            ResponseItem::FunctionCall { .. } => true,
            _ => false,
        };
        if is_call {
            if can_execute_in_parallel(&item, current.as_slice()) {
                current.push(item);
            } else {
                flush_exec(&mut groups, &mut current);
                current.push(item);
                assert(current@ =~= seq![item]);
            }
        } else {
            flush_exec(&mut groups, &mut current);
            let mut one: Vec<ResponseItem> = Vec::new();
            one.push(item);
            let ghost before = groups@;
            groups.push(ParallelToolGroup { items: one });
            assert(groups_view(groups@) =~= groups_view(before).push(seq![item]));
        }
        proof {
            k = k + 1;
        }
        assert(rest@ =~= all.subrange(k, all.len() as int));
    }
    assert(all.subrange(0, k) =~= all);
    flush_exec(&mut groups, &mut current);
    groups
}

proof fn lemma_fold_safe(items: Seq<ResponseItem>)
    ensures
        group_fold(items).1.len() >= 2 ==> all_parallel_safe(group_fold(items).1),
        forall|k: int|
            0 <= k < group_fold(items).0.len() && (#[trigger] group_fold(items).0[k]).len() >= 2
                ==> all_parallel_safe(group_fold(items).0[k]),
    decreases items.len(),
{
    if items.len() > 0 {
        lemma_fold_safe(items.drop_last());
        let (g, cur) = group_fold(items.drop_last());
        let item = items.last();
        let (g2, cur2) = group_fold(items);
        if item is FunctionCall && can_join(item, cur) {
            assert forall|i: int| cur2.len() >= 2 && 0 <= i < cur2.len() implies parallel_safe(
                #[trigger] cur2[i],
            ) by {
                if i < cur.len() {
                    assert(cur2[i] == cur[i]);
                }
            }
        }
        assert forall|k: int| 0 <= k < g2.len() && (#[trigger] g2[k]).len() >= 2 implies all_parallel_safe(
            g2[k],
        ) by {
            if k < g.len() {
                assert(g2[k] == g[k]);
            }
        }
    }
}

/// Every group of two or more items holds only calls that may run
/// concurrently.
pub proof fn lemma_parallel_groups_safe(items: Seq<ResponseItem>)
    ensures
        forall|k: int|
            0 <= k < parallel_groups(items).len() && (#[trigger] parallel_groups(items)[k]).len()
                >= 2 ==> all_parallel_safe(parallel_groups(items)[k]),
{
    lemma_fold_safe(items);
}

/// Whether `items` may run as one parallel group: parallel execution is
/// switched on with more than one permit, there are at least two items and
/// no more than the permits, and every item may run concurrently.
pub open spec fn parallel_allowed(items: Seq<ResponseItem>, enabled: bool, max_concurrent: nat) -> bool {
    enabled && max_concurrent > 1 && 1 < items.len() <= max_concurrent && all_parallel_safe(items)
}

pub fn can_execute_parallel(items: &[ResponseItem], parallel_enabled: bool, max_concurrent_calls: usize) -> (r: bool)
    ensures
        r == parallel_allowed(items@, parallel_enabled, max_concurrent_calls as nat),
{
    if !parallel_enabled || max_concurrent_calls <= 1 {
        return false;
    }
    if items.len() <= 1 || items.len() > max_concurrent_calls {
        return false;
    }
    let mut i: usize = 0;
    while i < items.len()
        invariant
            i <= items@.len(),
            forall|j: int| 0 <= j < i ==> parallel_safe(#[trigger] items@[j]),
        decreases items.len() - i,
    {
        if !is_parallel_safe_item(&items[i]) {
            return false;
        }
        i = i + 1;
    }
    true
}

/// The names of the tool calls among `items`, in order.
pub open spec fn call_names(items: Seq<ResponseItem>) -> Seq<Seq<char>>
    decreases items.len(),
{
    if items.len() == 0 {
        Seq::empty()
    } else {
        match items.last() {
            ResponseItem::FunctionCall { name, .. } => call_names(items.drop_last()).push(name@),
            _ => call_names(items.drop_last()),
        }
    }
}

/// The tool names announced when a group starts.
pub fn tool_names(items: &[ResponseItem]) -> (r: Vec<String>)
    ensures
        crate::text::argv_view(r@) == call_names(items@),
{
    let mut out: Vec<String> = Vec::new();
    let mut i: usize = 0;
    while i < items.len()
        invariant
            i <= items@.len(),
            crate::text::argv_view(out@) == call_names(items@.subrange(0, i as int)),
        decreases items.len() - i,
    {
        assert(items@.subrange(0, i + 1).drop_last() =~= items@.subrange(0, i as int));
        let ghost before = out@;
        match &items[i] {
            ResponseItem::FunctionCall { name, .. } => {
                let n = name.clone();
                out.push(n);
                assert(crate::text::argv_view(out@) =~= crate::text::argv_view(before).push(n@));
            },
            _ => {},
        }
        i = i + 1;
    }
    assert(items@.subrange(0, items@.len() as int) =~= items@);
    out
}

/// The number of `true` entries.
pub open spec fn count_true(s: Seq<bool>) -> nat
    decreases s.len(),
{
    if s.len() == 0 {
        0
    } else {
        count_true(s.drop_last()) + if s.last() {
            1nat
        } else {
            0nat
        }
    }
}

proof fn lemma_count_true_bound(s: Seq<bool>)
    ensures
        count_true(s) <= s.len(),
    decreases s.len(),
{
    if s.len() > 0 {
        lemma_count_true_bound(s.drop_last());
    }
}

/// Successes and failures of a group, from whether each call succeeded.
pub fn tally(outcomes: &[bool]) -> (r: (usize, usize))
    ensures
        r.0 == count_true(outcomes@),
        r.0 + r.1 == outcomes@.len(),
{
    let mut ok: usize = 0;
    let mut i: usize = 0;
    while i < outcomes.len()
        invariant
            i <= outcomes@.len(),
            ok == count_true(outcomes@.subrange(0, i as int)),
        decreases outcomes.len() - i,
    {
        proof {
            assert(outcomes@.subrange(0, i + 1).drop_last() =~= outcomes@.subrange(0, i as int));
            lemma_count_true_bound(outcomes@.subrange(0, i as int));
        }
        if outcomes[i] {
            ok = ok + 1;
        }
        i = i + 1;
    }
    assert(outcomes@.subrange(0, outcomes@.len() as int) =~= outcomes@);
    proof {
        lemma_count_true_bound(outcomes@);
    }
    (ok, outcomes.len() - ok)
}

/// Running counts of a group's results.
#[derive(Debug)]
pub struct ParallelExecutionResult {
    pub successful: usize,
    pub failed: usize,
    pub total_duration_ms: u64,
}

impl ParallelExecutionResult {
    pub fn new() -> (r: Self)
        ensures
            r.successful == 0 && r.failed == 0 && r.total_duration_ms == 0,
    {
        ParallelExecutionResult { successful: 0, failed: 0, total_duration_ms: 0 }
    }

    pub fn record_success(&mut self)
        requires
            old(self).successful < usize::MAX,
        ensures
            final(self).successful == old(self).successful + 1,
            final(self).failed == old(self).failed,
            final(self).total_duration_ms == old(self).total_duration_ms,
    {
        self.successful = self.successful + 1;
    }

    pub fn record_failure(&mut self)
        requires
            old(self).failed < usize::MAX,
        ensures
            final(self).failed == old(self).failed + 1,
            final(self).successful == old(self).successful,
            final(self).total_duration_ms == old(self).total_duration_ms,
    {
        self.failed = self.failed + 1;
    }
}

proof fn lemma_fold_nonempty(items: Seq<ResponseItem>)
    ensures
        forall|k: int|
            0 <= k < group_fold(items).0.len() ==> (#[trigger] group_fold(items).0[k]).len() > 0,
    decreases items.len(),
{
    if items.len() > 0 {
        lemma_fold_nonempty(items.drop_last());
        let (g, cur) = group_fold(items.drop_last());
        let g2 = group_fold(items).0;
        assert forall|k: int| 0 <= k < g2.len() implies (#[trigger] g2[k]).len() > 0 by {
            if k < g.len() {
                assert(g2[k] == g[k]);
            }
        }
    }
}

/// A call that may not run concurrently, such as `shell` with `rm`, always
/// forms a group of its own.
pub proof fn lemma_unsafe_call_alone(items: Seq<ResponseItem>, x: ResponseItem)
    requires
        !parallel_safe(x),
    ensures
        forall|k: int, i: int|
            0 <= k < parallel_groups(items).len() && 0 <= i < parallel_groups(items)[k].len()
                && #[trigger] parallel_groups(items)[k][i] == x ==> parallel_groups(items)[k] == seq![x],
{
    lemma_fold_safe(items);
    lemma_fold_nonempty(items);
    let gs = parallel_groups(items);
    assert forall|k: int, i: int|
        0 <= k < gs.len() && 0 <= i < gs[k].len() && #[trigger] gs[k][i] == x implies gs[k] == seq![x] by {
        let (g, cur) = group_fold(items);
        if k < g.len() {
            assert(gs[k] == g[k]);
        }
        if gs[k].len() >= 2 {
            assert(all_parallel_safe(gs[k]));
            assert(parallel_safe(gs[k][i]));
        }
        assert(gs[k].len() == 1);
        assert(gs[k] =~= seq![x]);
    }
}

/// Counts of a list of items for the frontend.
#[derive(Debug)]
pub struct ParallelExecutionInfo {
    pub total_items: usize,
    pub parallel_groups: usize,
    pub parallelizable_items: usize,
}

pub open spec fn count_parallel_safe(items: Seq<ResponseItem>) -> nat
    decreases items.len(),
{
    if items.len() == 0 {
        0
    } else {
        count_parallel_safe(items.drop_last()) + if parallel_safe(items.last()) {
            1nat
        } else {
            0nat
        }
    }
}

proof fn lemma_count_bound(items: Seq<ResponseItem>)
    ensures
        count_parallel_safe(items) <= items.len(),
    decreases items.len(),
{
    if items.len() > 0 {
        lemma_count_bound(items.drop_last());
    }
}

impl ParallelExecutionInfo {
    /// Counts the items, and the calls among them that may run concurrently;
    /// those form one group when there are at least two.
    pub fn from_items(items: &[ResponseItem]) -> (r: Self)
        ensures
            r.total_items == items@.len(),
            r.parallelizable_items == count_parallel_safe(items@),
            r.parallel_groups == if count_parallel_safe(items@) > 1 {
                1usize
            } else {
                0usize
            },
    {
        let mut n: usize = 0;
        let mut i: usize = 0;
        while i < items.len()
            invariant
                i <= items@.len(),
                n == count_parallel_safe(items@.subrange(0, i as int)),
            decreases items.len() - i,
        {
            proof {
                assert(items@.subrange(0, i + 1).drop_last() =~= items@.subrange(0, i as int));
                lemma_count_bound(items@.subrange(0, i as int));
            }
            if is_parallel_safe_item(&items[i]) {
                n = n + 1;
            }
            i = i + 1;
        }
        assert(items@.subrange(0, items@.len() as int) =~= items@);
        ParallelExecutionInfo {
            total_items: items.len(),
            parallel_groups: if n > 1 {
                1
            } else {
                0
            },
            parallelizable_items: n,
        }
    }
}

} // verus!
