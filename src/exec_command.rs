//! Parameters and results of interactive shell sessions.
use vstd::prelude::*;
use crate::text::push_char;

verus! {

/// A per-process identifier of a live shell session.
#[derive(Debug, Clone, Copy, PartialEq, Eq)]
pub struct SessionId(pub u32);

/// A request to start a command in a new shell session.
#[derive(Debug, Clone)]
pub struct ExecCommandParams {
    pub cmd: String,
    pub yield_time_ms: u64,
    pub max_output_tokens: u64,
    pub shell: String,
    pub login: bool,
}

/// A request to write to a session's stdin and collect its output.
#[derive(Debug)]
pub struct WriteStdinParams {
    pub session_id: SessionId,
    pub chars: String,
    pub yield_time_ms: u64,
    pub max_output_tokens: u64,
}

pub fn default_yield_time() -> (r: u64)
    ensures
        r == 10_000,
{
    10_000
}

pub fn max_output_tokens() -> (r: u64)
    ensures
        r == 10_000,
{
    10_000
}

pub fn default_login() -> (r: bool)
    ensures
        r,
{
    true
}

pub fn default_shell() -> (r: String)
    ensures
        r@ == "/bin/bash"@,
{
    String::from_str("/bin/bash")
}

pub fn write_stdin_default_yield_time_ms() -> (r: u64)
    ensures
        r == 250,
{
    250
}

pub fn write_stdin_default_max_output_tokens() -> (r: u64)
    ensures
        r == 10_000,
{
    10_000
}

/// The byte budget for `max_output_tokens` tokens of four bytes each.
pub fn output_cap_bytes(max_output_tokens: u64) -> (r: usize)
    ensures
        r == if 4 * max_output_tokens <= usize::MAX {
            4 * max_output_tokens
        } else {
            usize::MAX as int
        },
{
    if max_output_tokens > (usize::MAX as u64) / 4 {
        usize::MAX
    } else {
        (max_output_tokens * 4) as usize
    }
}

/// How a collection of output ended.
#[derive(Debug, Clone, Copy, PartialEq, Eq)]
pub enum ExitStatus {
    /// The process exited with this code.
    Exited(i32),
    /// The wait ended first; the process runs on in this session.
    Ongoing(SessionId),
}

/// Milliseconds allowed, after the process exits, to drain output still in
/// flight.
pub const EXIT_GRACE_MS: u64 = 25;

/// Milliseconds to wait for each chunk while draining.
pub const DRAIN_POLL_MS: u64 = 1;

/// What happened while waiting for output.
#[derive(Debug)]
pub enum CollectEvent {
    /// A chunk of output arrived.
    Chunk(Vec<u8>),
    /// Some chunks were lost to a slow reader.
    Lagged,
    /// The output channel closed.
    Closed,
    /// No output came within the wait.
    TimedOut,
    /// The process exited, with its code if it could be read.
    Exited(Option<i32>),
}

/// What to do next.
#[derive(Debug, Clone, Copy, PartialEq, Eq)]
pub enum CollectAction {
    /// Wait for output or exit, at most this long.
    Recv { timeout_ms: u64 },
    /// The process has exited: wait for left-over output, at most this long.
    Drain { timeout_ms: u64 },
    /// Stop collecting; the process ended this way.
    Finish(ExitStatus),
}

/// The state of one collection of output.
pub struct Collect {
    pub collected: Vec<u8>,
    pub deadline_ms: u64,
    pub grace_until_ms: Option<u64>,
    pub exit_code: Option<i32>,
    pub session: SessionId,
}

/// The state of a collection, as values.
pub struct CollectState {
    pub collected: Seq<u8>,
    pub deadline_ms: u64,
    pub grace_until_ms: Option<u64>,
    pub exit_code: Option<i32>,
    pub session: SessionId,
}

impl Collect {
    pub open spec fn view(&self) -> CollectState {
        CollectState {
            collected: self.collected@,
            deadline_ms: self.deadline_ms,
            grace_until_ms: self.grace_until_ms,
            exit_code: self.exit_code,
            session: self.session,
        }
    }
}

pub open spec fn sat_add(a: u64, b: u64) -> u64 {
    if a + b <= u64::MAX {
        (a + b) as u64
    } else {
        u64::MAX
    }
}

/// How the collection ended: with the exit code if the process exited in
/// time, otherwise still running in its session.
pub open spec fn finish_status(st: CollectState) -> ExitStatus {
    match st.exit_code {
        Some(c) => ExitStatus::Exited(c),
        None => ExitStatus::Ongoing(st.session),
    }
}

/// After output was handled: finish once the draining window or the
/// deadline has passed, else wait again for the time that is left.
pub open spec fn continue_after(st: CollectState, now_ms: u64) -> CollectAction {
    match st.grace_until_ms {
        Some(g) => if now_ms >= g {
            CollectAction::Finish(finish_status(st))
        } else {
            CollectAction::Drain { timeout_ms: DRAIN_POLL_MS }
        },
        None => if now_ms >= st.deadline_ms {
            CollectAction::Finish(finish_status(st))
        } else {
            CollectAction::Recv { timeout_ms: (st.deadline_ms - now_ms) as u64 }
        },
    }
}

/// The next state and action after `ev` at time `now_ms`. A chunk is kept
/// and lost chunks are skipped; a closed channel or a wait with no output
/// ends the collection; an exit records its code and opens a 25 ms window
/// to drain what is still in flight.
pub open spec fn collect_next(st: CollectState, ev: CollectEvent, now_ms: u64) -> (CollectState, CollectAction) {
    match ev {
        CollectEvent::Chunk(bytes) => {
            let s2 = CollectState { collected: st.collected + bytes@, ..st };
            (s2, continue_after(s2, now_ms))
        },
        CollectEvent::Lagged => (st, continue_after(st, now_ms)),
        CollectEvent::Closed => (st, CollectAction::Finish(finish_status(st))),
        CollectEvent::TimedOut => (st, CollectAction::Finish(finish_status(st))),
        CollectEvent::Exited(code) => if st.grace_until_ms is None {
            let s2 = CollectState {
                exit_code: code,
                grace_until_ms: Some(sat_add(now_ms, EXIT_GRACE_MS)),
                ..st
            };
            (s2, CollectAction::Drain { timeout_ms: DRAIN_POLL_MS })
        } else {
            (st, CollectAction::Finish(finish_status(st)))
        },
    }
}

fn sat_add_exec(a: u64, b: u64) -> (r: u64)
    ensures
        r == sat_add(a, b),
{
    if a > u64::MAX - b {
        u64::MAX
    } else {
        a + b
    }
}

fn finish_status_exec(st: &Collect) -> (r: ExitStatus)
    ensures
        r == finish_status(st.view()),
{
    match st.exit_code {
        Some(c) => ExitStatus::Exited(c),
        None => ExitStatus::Ongoing(st.session),
    }
}

fn continue_after_exec(st: &Collect, now_ms: u64) -> (r: CollectAction)
    ensures
        r == continue_after(st.view(), now_ms),
{
    match st.grace_until_ms {
        Some(g) => if now_ms >= g {
            CollectAction::Finish(finish_status_exec(st))
        } else {
            CollectAction::Drain { timeout_ms: DRAIN_POLL_MS }
        },
        None => if now_ms >= st.deadline_ms {
            CollectAction::Finish(finish_status_exec(st))
        } else {
            CollectAction::Recv { timeout_ms: st.deadline_ms - now_ms }
        },
    }
}

/// Starts collecting output for `session` at `now_ms`, for at most
/// `yield_time_ms`.
pub fn collect_start(session: SessionId, now_ms: u64, yield_time_ms: u64) -> (r: (Collect, CollectAction))
    ensures
        r.0.view() == (CollectState {
            collected: Seq::empty(),
            deadline_ms: sat_add(now_ms, yield_time_ms),
            grace_until_ms: None,
            exit_code: None,
            session,
        }),
        r.1 == continue_after(r.0.view(), now_ms),
{
    let st = Collect {
        collected: Vec::new(),
        deadline_ms: sat_add_exec(now_ms, yield_time_ms),
        grace_until_ms: None,
        exit_code: None,
        session,
    };
    let a = continue_after_exec(&st, now_ms);
    (st, a)
}

/// Decides what follows `ev` during a collection of output.
pub fn collect_step(st: &mut Collect, ev: CollectEvent, now_ms: u64) -> (a: CollectAction)
    ensures
        (final(st).view(), a) == collect_next(old(st).view(), ev, now_ms),
{
    match ev {
        CollectEvent::Chunk(bytes) => {
            let ghost b = bytes@;
            let mut i: usize = 0;
            let ghost start = st.collected@;
            let ghost s0 = st.view();
            while i < bytes.len()
                invariant
                    i <= bytes@.len(),
                    st.deadline_ms == s0.deadline_ms,
                    st.grace_until_ms == s0.grace_until_ms,
                    st.exit_code == s0.exit_code,
                    st.session == s0.session,
                    b == bytes@,
                    st.collected@ == start + b.subrange(0, i as int),
                decreases bytes.len() - i,
            {
                st.collected.push(bytes[i]);
                assert(b.subrange(0, i + 1) =~= b.subrange(0, i as int).push(b[i as int]));
                i = i + 1;
            }
            assert(b.subrange(0, b.len() as int) =~= b);
            continue_after_exec(st, now_ms)
        },
        CollectEvent::Lagged => continue_after_exec(st, now_ms),
        CollectEvent::Closed => CollectAction::Finish(finish_status_exec(st)),
        CollectEvent::TimedOut => CollectAction::Finish(finish_status_exec(st)),
        CollectEvent::Exited(code) => {
            if st.grace_until_ms.is_none() {
                st.exit_code = code;
                st.grace_until_ms = Some(sat_add_exec(now_ms, EXIT_GRACE_MS));
                CollectAction::Drain { timeout_ms: DRAIN_POLL_MS }
            } else {
                CollectAction::Finish(finish_status_exec(st))
            }
        },
    }
}

/// A chunk is appended and nothing else is; a closed channel or a wait
/// without output finishes; a lost chunk before the deadline does not; an
/// exit records its code and drains for 25 ms; a finish reports the exit
/// code if one was recorded, else the running session.
pub proof fn lemma_collect_rules(st: CollectState, ev: CollectEvent, now_ms: u64)
    ensures
        ({
            let (s2, a) = collect_next(st, ev, now_ms);
            &&& (ev is Chunk ==> s2.collected == st.collected + ev->Chunk_0@)
            &&& (!(ev is Chunk) ==> s2.collected == st.collected)
            &&& (ev is Exited && st.grace_until_ms is None ==> s2.exit_code == ev->Exited_0
                && s2.grace_until_ms == Some(sat_add(now_ms, EXIT_GRACE_MS)) && a == (
            CollectAction::Drain { timeout_ms: DRAIN_POLL_MS }))
            &&& (ev is Closed || ev is TimedOut ==> a is Finish)
            &&& (!(ev is Exited) && st.grace_until_ms is None && now_ms >= st.deadline_ms ==> a is Finish)
            &&& (ev is Lagged && st.grace_until_ms is None && now_ms < st.deadline_ms ==> !(a is Finish))
            &&& (a matches CollectAction::Finish(s) ==> s == finish_status(s2))
        }),
{
}

/// Decimal digits of `n`, most significant first.
pub open spec fn decimal_chars(n: nat) -> Seq<char>
    decreases n,
{
    if n < 10 {
        seq![((48 + n) as u8) as char]
    } else {
        decimal_chars(n / 10).push(((48 + n % 10) as u8) as char)
    }
}

pub open spec fn signed_decimal(n: int) -> Seq<char> {
    if n < 0 {
        seq!['-'] + decimal_chars((-n) as nat)
    } else {
        decimal_chars(n as nat)
    }
}

pub fn push_decimal(out: &mut String, n: u64)
    ensures
        final(out)@ == old(out)@ + decimal_chars(n as nat),
    decreases n,
{
    if n >= 10 {
        push_decimal(out, n / 10);
    }
    let d = (48 + n % 10) as u8;
    push_char(out, d as char);
    assert(final(out)@ =~= old(out)@ + decimal_chars(n as nat));
}

fn push_signed(out: &mut String, n: i32)
    ensures
        final(out)@ == old(out)@ + signed_decimal(n as int),
{
    if n < 0 {
        push_char(out, '-');
        let m: u64 = (-(n as i64)) as u64;
        let ghost mid = out@;
        push_decimal(out, m);
        assert(final(out)@ =~= old(out)@ + signed_decimal(n as int));
    } else {
        push_decimal(out, n as u64);
    }
}

/// `n` padded with leading zeros to three digits.
pub open spec fn three_digits(n: nat) -> Seq<char> {
    if n < 10 {
        seq!['0', '0'] + decimal_chars(n)
    } else if n < 100 {
        seq!['0'] + decimal_chars(n)
    } else {
        decimal_chars(n)
    }
}

/// The output of a command or of a write to its stdin.
#[derive(Debug)]
pub struct ExecCommandOutput {
    pub wall_time_ms: u64,
    pub exit_status: ExitStatus,
    pub original_token_count: Option<u64>,
    pub output: String,
}

pub open spec fn termination_line(s: ExitStatus) -> Seq<char> {
    match s {
        ExitStatus::Exited(code) => "Process exited with code "@ + signed_decimal(code as int),
        ExitStatus::Ongoing(id) => "Process running with session ID "@ + decimal_chars(id.0 as nat),
    }
}

pub open spec fn truncation_line(t: Option<u64>) -> Seq<char> {
    match t {
        Some(n) => "\nWarning: truncated output (original token count: "@ + decimal_chars(n as nat)
            + ")"@,
        None => Seq::empty(),
    }
}

/// The text handed to the model for a command's output.
pub open spec fn output_text(o: ExecCommandOutput) -> Seq<char> {
    "Wall time: "@ + decimal_chars((o.wall_time_ms / 1000) as nat) + "."@ + three_digits(
        (o.wall_time_ms % 1000) as nat,
    ) + " seconds\n"@ + termination_line(o.exit_status) + truncation_line(o.original_token_count)
        + "\nOutput:\n"@ + o.output@
}

impl ExecCommandOutput {
    /// Renders the wall time in seconds with three decimals, how the process
    /// ended, a warning if output was truncated, and the output.
    pub fn to_text_output(&self) -> (r: String)
        ensures
            r@ == output_text(*self),
    {
        let mut out = String::from_str("Wall time: ");
        push_decimal(&mut out, self.wall_time_ms / 1000);
        out.append(".");
        let ghost p0 = out@;
        let frac = self.wall_time_ms % 1000;
        if frac < 10 {
            out.append("00");
            proof {
                reveal_strlit("00");
            }
            assert("00"@ =~= seq!['0', '0']);
        } else if frac < 100 {
            out.append("0");
            proof {
                reveal_strlit("0");
            }
            assert("0"@ =~= seq!['0']);
        }
        push_decimal(&mut out, frac);
        assert(out@ =~= p0 + three_digits(frac as nat));
        out.append(" seconds\n");
        let ghost p1 = out@;
        match self.exit_status {
            ExitStatus::Exited(code) => {
                out.append("Process exited with code ");
                push_signed(&mut out, code);
            },
            ExitStatus::Ongoing(id) => {
                out.append("Process running with session ID ");
                push_decimal(&mut out, id.0 as u64);
            },
        }
        let ghost p2 = out@;
        assert(p2 =~= p1 + termination_line(self.exit_status));
        match self.original_token_count {
            Some(n) => {
                out.append("\nWarning: truncated output (original token count: ");
                push_decimal(&mut out, n);
                out.append(")");
            },
            None => {},
        }
        assert(out@ =~= p2 + truncation_line(self.original_token_count));
        out.append("\nOutput:\n");
        out.append(self.output.as_str());
        proof {
            let o = *self;
            assert(out@ =~= output_text(o));
        }
        out
    }
}

} // verus!
