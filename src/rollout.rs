//! The journal of a session as the sequence of its body lines, and the
//! histories that resume and fork rebuild from it. Turning lines into bytes
//! and back is left to the caller.
use vstd::prelude::*;
use crate::models::ResponseItem;
use crate::exec_command::{decimal_chars, push_decimal};
use crate::text::str_eq;

verus! {

/// Session state recorded alongside the items.
#[derive(Debug, Clone, Copy, PartialEq, Eq, Default)]
pub struct SessionStateSnapshot {}

/// One body line of a journal, after the header.
#[derive(Debug, Clone, PartialEq, Eq)]
pub enum RolloutLine {
    Item(ResponseItem),
    State(SessionStateSnapshot),
}

/// Items worth keeping: every variant but the unknown one.
pub open spec fn is_persisted(item: ResponseItem) -> bool {
    !(item is Other)
}

/// The items of `items` that are kept, in order.
pub open spec fn persisted(items: Seq<ResponseItem>) -> Seq<ResponseItem>
    decreases items.len(),
{
    if items.len() == 0 {
        items
    } else if is_persisted(items.last()) {
        persisted(items.drop_last()).push(items.last())
    } else {
        persisted(items.drop_last())
    }
}

/// The items that resuming from `lines` yields, in file order.
pub open spec fn resumed(lines: Seq<RolloutLine>) -> Seq<ResponseItem>
    decreases lines.len(),
{
    if lines.len() == 0 {
        Seq::empty()
    } else {
        match lines.last() {
            RolloutLine::Item(i) => if is_persisted(i) {
                resumed(lines.drop_last()).push(i)
            } else {
                resumed(lines.drop_last())
            },
            RolloutLine::State(_) => resumed(lines.drop_last()),
        }
    }
}

pub open spec fn item_lines(items: Seq<ResponseItem>) -> Seq<RolloutLine> {
    items.map_values(|i: ResponseItem| RolloutLine::Item(i))
}

/// The body of a session journal, in the order written.
pub struct Rollout {
    lines: Vec<RolloutLine>,
}

impl Rollout {
    pub closed spec fn lines(&self) -> Seq<RolloutLine> {
        self.lines@
    }

    /// An empty journal body.
    pub fn new() -> (r: Self)
        ensures
            r.lines() == Seq::<RolloutLine>::empty(),
    {
        Rollout { lines: Vec::new() }
    }

    /// A journal body read back from a file.
    pub fn from_lines(lines: Vec<RolloutLine>) -> (r: Self)
        ensures
            r.lines() == lines@,
    {
        Rollout { lines }
    }

    /// Appends the items that are kept, one line each, in order.
    pub fn record_items(&mut self, items: Vec<ResponseItem>)
        ensures
            final(self).lines() == old(self).lines() + item_lines(persisted(items@)),
    {
        let ghost all = items@;
        let ghost start = self.lines@;
        let mut rest = items;
        let ghost mut k: int = 0;
        assert(item_lines(persisted(all.subrange(0, 0))) =~= Seq::<RolloutLine>::empty());
        assert(start + Seq::<RolloutLine>::empty() =~= start);
        while rest.len() > 0
            invariant
                0 <= k <= all.len(),
                rest@ == all.subrange(k, all.len() as int),
                self.lines@ == start + item_lines(persisted(all.subrange(0, k))),
            decreases rest.len(),
        {
            let item = rest.remove(0);
            proof {
                assert(all.subrange(0, k + 1).drop_last() =~= all.subrange(0, k));
                assert(all.subrange(0, k + 1).last() == item);
            }
            let keep = match &item {
                ResponseItem::Other => false,
                _ => true,
            };
            let ghost before = self.lines@;
            if keep {
                self.lines.push(RolloutLine::Item(item));
                assert(item_lines(persisted(all.subrange(0, k + 1))) =~= item_lines(
                    persisted(all.subrange(0, k)),
                ).push(RolloutLine::Item(item)));
                assert(self.lines@ =~= start + item_lines(persisted(all.subrange(0, k + 1))));
            }
            proof {
                k = k + 1;
            }
            assert(rest@ =~= all.subrange(k, all.len() as int));
        }
        assert(all.subrange(0, k) =~= all);
    }

    /// Appends a state line.
    pub fn record_state(&mut self, state: SessionStateSnapshot)
        ensures
            final(self).lines() == old(self).lines().push(RolloutLine::State(state)),
    {
        self.lines.push(RolloutLine::State(state));
    }

    /// The items of the journal in file order, state lines and unknown items
    /// skipped.
    pub fn resume(self) -> (r: Vec<ResponseItem>)
        ensures
            r@ == resumed(self.lines()),
    {
        let ghost all = self.lines@;
        let mut rest = self.lines;
        let mut out: Vec<ResponseItem> = Vec::new();
        let ghost mut k: int = 0;
        while rest.len() > 0
            invariant
                0 <= k <= all.len(),
                rest@ == all.subrange(k, all.len() as int),
                out@ == resumed(all.subrange(0, k)),
            decreases rest.len(),
        {
            let line = rest.remove(0);
            proof {
                assert(all.subrange(0, k + 1).drop_last() =~= all.subrange(0, k));
                assert(all.subrange(0, k + 1).last() == line);
            }
            match line {
                RolloutLine::Item(item) => {
                    let keep = match &item {
                        ResponseItem::Other => false,
                        _ => true,
                    };
                    if keep {
                        out.push(item);
                    }
                },
                RolloutLine::State(_) => {},
            }
            proof {
                k = k + 1;
            }
            assert(rest@ =~= all.subrange(k, all.len() as int));
        }
        assert(all.subrange(0, k) =~= all);
        out
    }
}

proof fn lemma_resumed_append_items(lines: Seq<RolloutLine>, items: Seq<ResponseItem>)
    requires
        forall|i: int| 0 <= i < items.len() ==> is_persisted(#[trigger] items[i]),
    ensures
        resumed(lines + item_lines(items)) == resumed(lines) + items,
    decreases items.len(),
{
    if items.len() == 0 {
        assert(lines + item_lines(items) =~= lines);
        assert(resumed(lines) + items =~= resumed(lines));
    } else {
        let init = items.drop_last();
        lemma_resumed_append_items(lines, init);
        assert((lines + item_lines(items)).drop_last() =~= lines + item_lines(init));
        assert(resumed(lines) + items =~= (resumed(lines) + init).push(items.last()));
    }
}

proof fn lemma_persisted_all_kept(items: Seq<ResponseItem>)
    ensures
        forall|i: int|
            0 <= i < persisted(items).len() ==> is_persisted(#[trigger] persisted(items)[i]),
    decreases items.len(),
{
    if items.len() > 0 {
        lemma_persisted_all_kept(items.drop_last());
        let p = persisted(items.drop_last());
        assert forall|i: int| 0 <= i < persisted(items).len() implies is_persisted(
            #[trigger] persisted(items)[i],
        ) by {
            if i < p.len() {
                assert(persisted(items)[i] == p[i]);
            }
        }
    }
}

/// Resuming after a batch of items was recorded yields what it yielded
/// before, followed by the batch's kept items in order.
pub proof fn lemma_resume_after_record_items(lines: Seq<RolloutLine>, items: Seq<ResponseItem>)
    ensures
        resumed(lines + item_lines(persisted(items))) == resumed(lines) + persisted(items),
{
    lemma_persisted_all_kept(items);
    lemma_resumed_append_items(lines, persisted(items));
}

/// One call made on a journal: a batch of items, or a state record.
pub enum JournalOp {
    Items(Seq<ResponseItem>),
    State(SessionStateSnapshot),
}

/// The body lines written by a sequence of calls.
pub open spec fn lines_written(ops: Seq<JournalOp>) -> Seq<RolloutLine>
    decreases ops.len(),
{
    if ops.len() == 0 {
        Seq::empty()
    } else {
        match ops.last() {
            JournalOp::Items(b) => lines_written(ops.drop_last()) + item_lines(persisted(b)),
            JournalOp::State(st) => lines_written(ops.drop_last()).push(RolloutLine::State(st)),
        }
    }
}

/// The kept items of all batches of `ops`, in the order recorded.
pub open spec fn items_recorded(ops: Seq<JournalOp>) -> Seq<ResponseItem>
    decreases ops.len(),
{
    if ops.len() == 0 {
        Seq::empty()
    } else {
        match ops.last() {
            JournalOp::Items(b) => items_recorded(ops.drop_last()) + persisted(b),
            JournalOp::State(_) => items_recorded(ops.drop_last()),
        }
    }
}

/// Resuming a journal gives back every item recorded in it, in the order
/// recorded, unknown items left out, whatever state records came between.
pub proof fn lemma_resume_returns_recorded(ops: Seq<JournalOp>)
    ensures
        resumed(lines_written(ops)) == items_recorded(ops),
    decreases ops.len(),
{
    if ops.len() > 0 {
        lemma_resume_returns_recorded(ops.drop_last());
        match ops.last() {
            JournalOp::Items(b) => lemma_resume_after_record_items(lines_written(ops.drop_last()), b),
            JournalOp::State(st) => lemma_resume_after_record_state(lines_written(ops.drop_last()), st),
        }
    }
}

/// Recording state does not change what resuming yields.
pub proof fn lemma_resume_after_record_state(lines: Seq<RolloutLine>, s: SessionStateSnapshot)
    ensures
        resumed(lines.push(RolloutLine::State(s))) == resumed(lines),
{
    assert(lines.push(RolloutLine::State(s)).drop_last() =~= lines);
}

// ---------------------------------------------------------------------------
// Forking

pub open spec fn is_user_message(item: ResponseItem) -> bool {
    match item {
        ResponseItem::Message { role, .. } => role@ == "user"@,
        _ => false,
    }
}

/// The number of user messages in `items`.
pub open spec fn user_count(items: Seq<ResponseItem>) -> nat
    decreases items.len(),
{
    if items.len() == 0 {
        0
    } else {
        user_count(items.drop_last()) + if is_user_message(items.last()) {
            1nat
        } else {
            0nat
        }
    }
}

/// The history without its last `n` user messages and everything after
/// them; empty when there are fewer than `n`.
pub open spec fn fork_history(items: Seq<ResponseItem>, n: nat) -> Seq<ResponseItem>
    decreases items.len(),
{
    if n == 0 || items.len() == 0 {
        if n == 0 {
            items
        } else {
            Seq::empty()
        }
    } else if is_user_message(items.last()) {
        fork_history(items.drop_last(), (n - 1) as nat)
    } else {
        fork_history(items.drop_last(), n)
    }
}

fn is_user_message_exec(item: &ResponseItem) -> (r: bool)
    ensures
        r == is_user_message(*item),
{
    match item {
        ResponseItem::Message { role, .. } => str_eq(role.as_str(), "user"),
        _ => false,
    }
}

/// Drops the last `drop_last_n` user messages and everything after them.
pub fn fork_items(items: Vec<ResponseItem>, drop_last_n: usize) -> (r: Vec<ResponseItem>)
    ensures
        r@ == fork_history(items@, drop_last_n as nat),
{
    let mut items = items;
    let mut n = drop_last_n;
    let ghost goal = fork_history(items@, drop_last_n as nat);
    while n > 0 && items.len() > 0
        invariant
            fork_history(items@, n as nat) == goal,
        decreases items.len(),
    {
        let last = items.pop();
        match last {
            Some(it) => {
                if is_user_message_exec(&it) {
                    n = n - 1;
                }
            },
            None => {},
        }
    }
    if n > 0 {
        return Vec::new();
    }
    items
}

/// A fork keeps a prefix of the history.
pub proof fn lemma_fork_is_prefix(items: Seq<ResponseItem>, n: nat)
    ensures
        fork_history(items, n).len() <= items.len(),
        fork_history(items, n) == items.subrange(0, fork_history(items, n).len() as int),
    decreases items.len(),
{
    if n == 0 {
        assert(items.subrange(0, items.len() as int) =~= items);
    } else if items.len() == 0 {
    } else {
        let m: nat = if is_user_message(items.last()) {
            (n - 1) as nat
        } else {
            n
        };
        lemma_fork_is_prefix(items.drop_last(), m);
        let f = fork_history(items.drop_last(), m);
        assert(items.drop_last().subrange(0, f.len() as int) =~= items.subrange(0, f.len() as int));
    }
}

/// Forking `n` turns back from a history `p + t`, where `t` starts with a
/// user message and holds `n` of them, gives back `p`.
pub proof fn lemma_fork_drops_turns(p: Seq<ResponseItem>, t: Seq<ResponseItem>, n: nat)
    requires
        t.len() > 0,
        is_user_message(t[0]),
        user_count(t) == n,
    ensures
        fork_history(p + t, n) == p,
    decreases t.len(),
{
    let h = p + t;
    assert(h.drop_last() =~= p + t.drop_last());
    if t.len() == 1 {
        assert(t.drop_last() =~= Seq::<ResponseItem>::empty());
        assert(h.last() == t[0]);
        assert(user_count(t) == 1) by {
            assert(user_count(t.drop_last()) == 0);
        }
        assert(p + t.drop_last() =~= p);
        assert(fork_history(p, 0) == p);
    } else {
        let t2 = t.drop_last();
        assert(t2[0] == t[0]);
        if is_user_message(t.last()) {
            assert(n >= 1);
            lemma_fork_drops_turns(p, t2, (n - 1) as nat);
        } else {
            lemma_fork_drops_turns(p, t2, n);
        }
    }
}

/// The model-visible input after a fork extends the input of any earlier
/// request whose history `p` the fork goes back to: with `t` the turns
/// since, starting with a user message, forking as many turns as `t` holds
/// and adding a message gives `p` followed by that message.
pub proof fn lemma_fork_extends_earlier_input(
    p: Seq<ResponseItem>,
    t: Seq<ResponseItem>,
    next: ResponseItem,
)
    requires
        t.len() > 0,
        is_user_message(t[0]),
    ensures
        fork_history(p + t, user_count(t)).push(next).subrange(0, p.len() as int) == p,
{
    lemma_fork_drops_turns(p, t, user_count(t));
    assert(p.push(next).subrange(0, p.len() as int) =~= p);
}

// ---------------------------------------------------------------------------
// File names

/// A UTC wall-clock time to the millisecond.
#[derive(Debug, Clone, Copy, PartialEq, Eq)]
pub struct SessionTimestamp {
    pub year: u16,
    pub month: u8,
    pub day: u8,
    pub hour: u8,
    pub minute: u8,
    pub second: u8,
    pub millisecond: u16,
}

/// `n` in decimal, padded with zeros on the left to `width` digits.
pub open spec fn padded(n: nat, width: nat) -> Seq<char> {
    let d = decimal_chars(n);
    if d.len() >= width {
        d
    } else {
        Seq::new((width - d.len()) as nat, |i: int| '0') + d
    }
}

proof fn lemma_decimal_len(n: nat)
    ensures
        decimal_chars(n).len() >= 1,
        n < 10 ==> decimal_chars(n).len() == 1,
        10 <= n < 100 ==> decimal_chars(n).len() == 2,
        100 <= n < 1000 ==> decimal_chars(n).len() == 3,
        1000 <= n < 10000 ==> decimal_chars(n).len() == 4,
    decreases n,
{
    if n >= 10 {
        lemma_decimal_len(n / 10);
    }
}

fn push_padded(out: &mut String, n: u16, width: usize)
    requires
        1 <= width <= 4,
    ensures
        final(out)@ == old(out)@ + padded(n as nat, width as nat),
{
    proof {
        lemma_decimal_len(n as nat);
    }
    let digits: usize = if n < 10 {
        1
    } else if n < 100 {
        2
    } else if n < 1000 {
        3
    } else if n < 10000 {
        4
    } else {
        5
    };
    assert(digits == decimal_chars(n as nat).len()) by {
        lemma_decimal_len(n as nat);
        if n >= 10000 {
            lemma_decimal_len((n / 10) as nat);
            lemma_decimal_len((n / 100) as nat);
            lemma_decimal_len((n / 1000) as nat);
            lemma_decimal_len((n / 10000) as nat);
        }
    }
    let ghost start = out@;
    let mut k: usize = digits;
    while k < width
        invariant
            digits <= k <= width || (digits > width && k == digits),
            digits == decimal_chars(n as nat).len(),
            out@ == start + Seq::new((k - digits) as nat, |i: int| '0'),
        decreases width - k,
    {
        crate::text::push_char(out, '0');
        assert(start + Seq::new((k + 1 - digits) as nat, |i: int| '0') =~= (start + Seq::new(
            (k - digits) as nat,
            |i: int| '0',
        )).push('0'));
        k = k + 1;
    }
    let ghost zeros = out@;
    push_decimal(out, n as u64);
    assert(out@ =~= start + padded(n as nat, width as nat));
}

/// `YYYY-MM-DDThh-mm-ss`, as in journal file names.
pub open spec fn file_stamp(t: SessionTimestamp) -> Seq<char> {
    padded(t.year as nat, 4) + "-"@ + padded(t.month as nat, 2) + "-"@ + padded(t.day as nat, 2)
        + "T"@ + padded(t.hour as nat, 2) + "-"@ + padded(t.minute as nat, 2) + "-"@ + padded(
        t.second as nat,
        2,
    )
}

/// The journal file name of a session: `rollout-<stamp>-<id>.jsonl`.
pub fn rollout_file_name(t: SessionTimestamp, session_id: &str) -> (r: String)
    ensures
        r@ == "rollout-"@ + file_stamp(t) + "-"@ + session_id@ + ".jsonl"@,
{
    let mut out = String::from_str("rollout-");
    let ghost p0 = out@;
    push_padded(&mut out, t.year, 4);
    out.append("-");
    push_padded(&mut out, t.month as u16, 2);
    out.append("-");
    push_padded(&mut out, t.day as u16, 2);
    out.append("T");
    push_padded(&mut out, t.hour as u16, 2);
    out.append("-");
    push_padded(&mut out, t.minute as u16, 2);
    out.append("-");
    push_padded(&mut out, t.second as u16, 2);
    assert(out@ =~= p0 + file_stamp(t));
    out.append("-");
    out.append(session_id);
    out.append(".jsonl");
    out
}

/// The directories of a session's journal under the home directory:
/// `sessions`, the year, and the zero-padded month and day.
pub fn rollout_subdirs(t: SessionTimestamp) -> (r: Vec<String>)
    ensures
        crate::text::argv_view(r@) == seq![
            "sessions"@,
            padded(t.year as nat, 4),
            padded(t.month as nat, 2),
            padded(t.day as nat, 2),
        ],
{
    let mut v: Vec<String> = Vec::new();
    v.push(String::from_str("sessions"));
    let mut y = String::new();
    push_padded(&mut y, t.year, 4);
    v.push(y);
    let mut m = String::new();
    push_padded(&mut m, t.month as u16, 2);
    v.push(m);
    let mut d = String::new();
    push_padded(&mut d, t.day as u16, 2);
    v.push(d);
    assert(crate::text::argv_view(v@) =~= seq![
        "sessions"@,
        padded(t.year as nat, 4),
        padded(t.month as nat, 2),
        padded(t.day as nat, 2),
    ]);
    v
}

/// `YYYY-MM-DDThh:mm:ss.mmmZ`, as in the journal header.
pub open spec fn header_stamp(t: SessionTimestamp) -> Seq<char> {
    padded(t.year as nat, 4) + "-"@ + padded(t.month as nat, 2) + "-"@ + padded(t.day as nat, 2)
        + "T"@ + padded(t.hour as nat, 2) + ":"@ + padded(t.minute as nat, 2) + ":"@ + padded(
        t.second as nat,
        2,
    ) + "."@ + padded(t.millisecond as nat, 3) + "Z"@
}

/// The timestamp written in a journal header.
pub fn header_timestamp(t: SessionTimestamp) -> (r: String)
    ensures
        r@ == header_stamp(t),
{
    let mut out = String::new();
    push_padded(&mut out, t.year, 4);
    out.append("-");
    push_padded(&mut out, t.month as u16, 2);
    out.append("-");
    push_padded(&mut out, t.day as u16, 2);
    out.append("T");
    push_padded(&mut out, t.hour as u16, 2);
    out.append(":");
    push_padded(&mut out, t.minute as u16, 2);
    out.append(":");
    push_padded(&mut out, t.second as u16, 2);
    out.append(".");
    push_padded(&mut out, t.millisecond, 3);
    out.append("Z");
    assert(out@ =~= header_stamp(t));
    out
}

// ---------------------------------------------------------------------------
// Transcript

/// The lines of a plain transcript: `User: ...` and `Assistant: ...` for
/// each user and assistant message, in order.
pub open spec fn transcript(items: Seq<ResponseItem>) -> Seq<Seq<char>>
    decreases items.len(),
{
    if items.len() == 0 {
        Seq::empty()
    } else {
        let rest = transcript(items.drop_last());
        match items.last() {
            ResponseItem::Message { role, content } => if role@ == "user"@ {
                rest.push("User: "@ + content@)
            } else if role@ == "assistant"@ {
                rest.push("Assistant: "@ + content@)
            } else {
                rest
            },
            _ => rest,
        }
    }
}

/// The plain transcript of a conversation.
pub fn transcript_lines(items: &[ResponseItem]) -> (r: Vec<String>)
    ensures
        crate::text::argv_view(r@) == transcript(items@),
{
    let mut out: Vec<String> = Vec::new();
    let mut i: usize = 0;
    while i < items.len()
        invariant
            i <= items@.len(),
            crate::text::argv_view(out@) == transcript(items@.subrange(0, i as int)),
        decreases items.len() - i,
    {
        assert(items@.subrange(0, i + 1).drop_last() =~= items@.subrange(0, i as int));
        let ghost before = out@;
        match &items[i] {
            ResponseItem::Message { role, content } => {
                if str_eq(role.as_str(), "user") {
                    let mut line = String::from_str("User: ");
                    line.append(content.as_str());
                    out.push(line);
                    assert(crate::text::argv_view(out@) =~= crate::text::argv_view(before).push(
                        line@,
                    ));
                } else if str_eq(role.as_str(), "assistant") {
                    let mut line = String::from_str("Assistant: ");
                    line.append(content.as_str());
                    out.push(line);
                    assert(crate::text::argv_view(out@) =~= crate::text::argv_view(before).push(
                        line@,
                    ));
                }
            },
            _ => {},
        }
        i = i + 1;
    }
    assert(items@.subrange(0, items@.len() as int) =~= items@);
    out
}

} // verus!
