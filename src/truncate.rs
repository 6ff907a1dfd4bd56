//! Middle elision of captured output: keep the head and the tail of a byte
//! budget, and put a marker with the estimated number of elided tokens
//! (four bytes each) between them. Cuts fall on UTF-8 character boundaries,
//! and on line starts where the window holds a newline.
use vstd::prelude::*;

verus! {

pub open spec fn ellipsis() -> Seq<u8> {
    seq![226u8, 128u8, 166u8]
}

/// The bytes of `" tokens truncated"`.
pub open spec fn marker_words() -> Seq<u8> {
    seq![
        32u8, 116u8, 111u8, 107u8, 101u8, 110u8, 115u8, 32u8, 116u8, 114u8, 117u8, 110u8, 99u8,
        97u8, 116u8, 101u8, 100u8,
    ]
}

/// Decimal digits of `n`, most significant first.
pub open spec fn decimal(n: nat) -> Seq<u8>
    decreases n,
{
    if n < 10 {
        seq![(48 + n) as u8]
    } else {
        decimal(n / 10).push((48 + n % 10) as u8)
    }
}

/// `…N tokens truncated…`
pub open spec fn marker(n: nat) -> Seq<u8> {
    ellipsis() + decimal(n) + marker_words() + ellipsis()
}

/// Tokens in `n` bytes, rounding up.
pub open spec fn tokens_for(n: int) -> int {
    if n % 4 == 0 {
        n / 4
    } else {
        n / 4 + 1
    }
}

/// `i` is a place where the bytes may be cut: an end, or a byte that does
/// not continue a UTF-8 sequence.
pub open spec fn is_boundary(s: Seq<u8>, i: int) -> bool {
    i <= 0 || i >= s.len() || !(0x80 <= s[i] && s[i] < 0xC0)
}

/// The nearest boundary at or before `k`.
pub open spec fn boundary_at_or_before(s: Seq<u8>, k: int) -> int
    decreases k,
{
    if k <= 0 || is_boundary(s, k) {
        k
    } else {
        boundary_at_or_before(s, k - 1)
    }
}

/// The nearest boundary at or after `k`.
pub open spec fn boundary_at_or_after(s: Seq<u8>, k: int) -> int
    decreases s.len() - k,
{
    if k >= s.len() || is_boundary(s, k) {
        k
    } else {
        boundary_at_or_after(s, k + 1)
    }
}

/// The last newline before index `k`.
pub open spec fn last_newline_before(s: Seq<u8>, k: int) -> Option<int>
    decreases k,
{
    if k <= 0 {
        None
    } else if s[k - 1] == 10 {
        Some(k - 1)
    } else {
        last_newline_before(s, k - 1)
    }
}

/// The first newline at or after index `k`.
pub open spec fn first_newline_from(s: Seq<u8>, k: int) -> Option<int>
    decreases s.len() - k,
{
    if k >= s.len() {
        None
    } else if s[k] == 10 {
        Some(k)
    } else {
        first_newline_from(s, k + 1)
    }
}

/// Where the kept head ends for a budget of `left` bytes.
pub open spec fn prefix_end(s: Seq<u8>, left: int) -> int {
    if left <= s.len() && is_boundary(s, left) && last_newline_before(s, left) is Some {
        last_newline_before(s, left).unwrap() + 1
    } else if s.len() <= left {
        s.len() as int
    } else {
        boundary_at_or_before(s, left)
    }
}

/// Where the kept tail starts for a budget of `right` bytes.
pub open spec fn suffix_start(s: Seq<u8>, right: int) -> int {
    let start = if s.len() >= right {
        s.len() - right
    } else {
        0
    };
    if is_boundary(s, start) && first_newline_from(s, start) is Some {
        first_newline_from(s, start).unwrap() + 1
    } else {
        boundary_at_or_after(s, start)
    }
}

/// The cut for a marker that announces `guess` tokens: head end and tail
/// start, or `None` when the marker leaves no room for content.
pub open spec fn cut(s: Seq<u8>, cap: int, guess: nat) -> Option<(int, int)> {
    let ml = marker(guess).len() as int;
    if cap <= ml {
        None
    } else {
        let keep = cap - ml;
        let left = keep / 2;
        Some((prefix_end(s, left), suffix_start(s, keep - left)))
    }
}

pub open spec fn spliced(s: Seq<u8>, p: int, q: int, guess: nat) -> Seq<u8> {
    s.subrange(0, p) + marker(guess) + seq![10u8] + s.subrange(q, s.len() as int)
}

/// Up to `rounds` refinements of the announced token count, starting from
/// `guess`; `est` is the count for the whole input.
pub open spec fn refine(s: Seq<u8>, cap: int, est: nat, guess: nat, rounds: nat) -> Seq<u8>
    decreases rounds,
{
    match cut(s, cap, guess) {
        None => marker(est),
        Some((p, q)) => if rounds == 0 {
            spliced(s, p, q, guess)
        } else {
            let q1 = if q < p {
                p
            } else {
                q
            };
            let t = tokens_for(q1 - p) as nat;
            if t == guess {
                spliced(s, p, q1, guess)
            } else {
                refine(s, cap, est, t, (rounds - 1) as nat)
            }
        },
    }
}

/// The result of truncating `s` to `cap` bytes.
pub open spec fn truncated(s: Seq<u8>, cap: int) -> (Seq<u8>, Option<u64>) {
    if s.len() <= cap {
        (s, None)
    } else {
        let est = tokens_for(s.len() as int) as nat;
        (refine(s, cap, est, est, 4), Some(est as u64))
    }
}

fn push_decimal(out: &mut Vec<u8>, n: u64)
    ensures
        final(out)@ == old(out)@ + decimal(n as nat),
    decreases n,
{
    if n >= 10 {
        push_decimal(out, n / 10);
    }
    out.push((48 + n % 10) as u8);
    assert(n < 10 ==> decimal(n as nat) == seq![(48 + n) as u8]);
    assert(final(out)@ =~= old(out)@ + decimal(n as nat));
}

fn push_ellipsis(out: &mut Vec<u8>)
    ensures
        final(out)@ == old(out)@ + ellipsis(),
{
    out.push(226u8);
    out.push(128u8);
    out.push(166u8);
    assert(final(out)@ =~= old(out)@ + ellipsis());
}

/// The marker bytes announcing `n` tokens.
pub fn marker_bytes(n: u64) -> (r: Vec<u8>)
    ensures
        r@ == marker(n as nat),
{
    let mut out: Vec<u8> = Vec::new();
    push_ellipsis(&mut out);
    push_decimal(&mut out, n);
    let words: [u8; 17] = [
        32u8, 116u8, 111u8, 107u8, 101u8, 110u8, 115u8, 32u8, 116u8, 114u8, 117u8, 110u8, 99u8,
        97u8, 116u8, 101u8, 100u8,
    ];
    let ghost before = out@;
    let mut i: usize = 0;
    while i < 17
        invariant
            i <= 17,
            words@ == marker_words(),
            out@ == before + marker_words().subrange(0, i as int),
        decreases 17 - i,
    {
        out.push(words[i]);
        assert(marker_words().subrange(0, i + 1) =~= marker_words().subrange(0, i as int).push(
            words@[i as int],
        ));
        i = i + 1;
    }
    assert(marker_words().subrange(0, 17) =~= marker_words());
    push_ellipsis(&mut out);
    assert(out@ =~= marker(n as nat));
    out
}

fn is_boundary_exec(s: &[u8], i: usize) -> (r: bool)
    ensures
        r == is_boundary(s@, i as int),
{
    i == 0 || i >= s.len() || !(0x80 <= s[i] && s[i] < 0xC0)
}

fn prefix_end_exec(s: &[u8], left: usize) -> (r: usize)
    ensures
        r == prefix_end(s@, left as int),
{
    if left <= s.len() && is_boundary_exec(s, left) {
        let mut k: usize = left;
        while k > 0 && s[k - 1] != 10
            invariant
                k <= left <= s@.len(),
                last_newline_before(s@, k as int) == last_newline_before(s@, left as int),
            decreases k,
        {
            k = k - 1;
        }
        if k > 0 {
            return k;
        }
    }
    if s.len() <= left {
        return s.len();
    }
    let mut end: usize = left;
    while end > 0 && !is_boundary_exec(s, end)
        invariant
            end <= left,
            boundary_at_or_before(s@, end as int) == boundary_at_or_before(s@, left as int),
        decreases end,
    {
        end = end - 1;
    }
    end
}

fn suffix_start_exec(s: &[u8], right: usize) -> (r: usize)
    ensures
        r == suffix_start(s@, right as int),
{
    let n = s.len();
    let start = if n >= right {
        n - right
    } else {
        0
    };
    if is_boundary_exec(s, start) {
        let mut k: usize = start;
        while k < n && s[k] != 10
            invariant
                n == s@.len(),
                start <= k <= n,
                first_newline_from(s@, k as int) == first_newline_from(s@, start as int),
            decreases n - k,
        {
            k = k + 1;
        }
        if k < n {
            return k + 1;
        }
    }
    let mut idx: usize = start;
    while idx < n && !is_boundary_exec(s, idx)
        invariant
            n == s@.len(),
            start <= idx <= n,
            boundary_at_or_after(s@, idx as int) == boundary_at_or_after(s@, start as int),
        decreases n - idx,
    {
        idx = idx + 1;
    }
    idx
}

fn cut_exec(s: &[u8], cap: usize, guess: u64) -> (r: Option<(usize, usize)>)
    ensures
        match (r, cut(s@, cap as int, guess as nat)) {
            (Some((p, q)), Some((a, b))) => p == a && q == b,
            (None, None) => true,
            _ => false,
        },
{
    let m = marker_bytes(guess);
    let ml = m.len();
    if cap <= ml {
        return None;
    }
    let keep = cap - ml;
    let left = keep / 2;
    Some((prefix_end_exec(s, left), suffix_start_exec(s, keep - left)))
}

proof fn lemma_boundary_before_bounds(s: Seq<u8>, k: int)
    requires
        0 <= k,
    ensures
        0 <= boundary_at_or_before(s, k) <= k,
    decreases k,
{
    if k > 0 && !is_boundary(s, k) {
        lemma_boundary_before_bounds(s, k - 1);
    }
}

proof fn lemma_boundary_after_bounds(s: Seq<u8>, k: int)
    requires
        0 <= k <= s.len(),
    ensures
        k <= boundary_at_or_after(s, k) <= s.len(),
    decreases s.len() - k,
{
    if k < s.len() && !is_boundary(s, k) {
        lemma_boundary_after_bounds(s, k + 1);
    }
}

proof fn lemma_last_newline_bounds(s: Seq<u8>, k: int)
    requires
        k <= s.len(),
    ensures
        match last_newline_before(s, k) {
            Some(j) => 0 <= j < k,
            None => true,
        },
    decreases k,
{
    if k > 0 && s[k - 1] != 10 {
        lemma_last_newline_bounds(s, k - 1);
    }
}

proof fn lemma_first_newline_bounds(s: Seq<u8>, k: int)
    requires
        0 <= k,
    ensures
        match first_newline_from(s, k) {
            Some(j) => k <= j < s.len(),
            None => true,
        },
    decreases s.len() - k,
{
    if k < s.len() && s[k] != 10 {
        lemma_first_newline_bounds(s, k + 1);
    }
}

/// The head ends within its budget and the tail starts within the input.
proof fn lemma_cut_bounds(s: Seq<u8>, left: int, right: int)
    requires
        0 <= left,
        0 <= right,
    ensures
        0 <= prefix_end(s, left) <= left,
        0 <= prefix_end(s, left) <= s.len(),
        suffix_start(s, right) <= s.len(),
        s.len() - right <= suffix_start(s, right),
        0 <= suffix_start(s, right),
{
    if left <= s.len() {
        lemma_last_newline_bounds(s, left);
    }
    lemma_boundary_before_bounds(s, left);
    let start = if s.len() >= right {
        s.len() - right
    } else {
        0
    };
    lemma_first_newline_bounds(s, start);
    lemma_boundary_after_bounds(s, start);
}

/// Truncates the middle of `s` to about `max_bytes` bytes. Input that fits is
/// returned unchanged with no token count; otherwise the result holds a head
/// of `s`, the marker, a newline and a tail of `s`, or the bare marker when
/// the budget leaves no room, together with the estimated token count of `s`.
pub fn truncate_middle(s: &[u8], max_bytes: usize) -> (r: (Vec<u8>, Option<u64>))
    ensures
        (r.0@, r.1) == truncated(s@, max_bytes as int),
{
    let n = s.len();
    if n <= max_bytes {
        let mut out: Vec<u8> = Vec::new();
        push_range(&mut out, s, 0, n);
        assert(out@ =~= s@);
        return (out, None);
    }
    let est: u64 = (n / 4) as u64 + if n % 4 == 0 {
        0u64
    } else {
        1u64
    };
    assert(est == tokens_for(n as int));
    let ghost gs = s@;
    let mut guess: u64 = est;
    let mut rounds: u64 = 4;
    loop
        invariant
            gs == s@,
            n == s@.len(),
            n > max_bytes,
            est == tokens_for(n as int),
            rounds <= 4,
            guess <= est,
            refine(gs, max_bytes as int, est as nat, guess as nat, rounds as nat) == refine(
                gs,
                max_bytes as int,
                est as nat,
                est as nat,
                4,
            ),
        decreases rounds,
    {
        match cut_exec(s, max_bytes, guess) {
            None => {
                let m = marker_bytes(est);
                return (m, Some(est));
            },
            Some((p, q)) => {
                proof {
                    let ml = marker(guess as nat).len() as int;
                    let keep = max_bytes - ml;
                    lemma_cut_bounds(gs, keep / 2, keep - keep / 2);
                }
                if rounds == 0 {
                    return (splice(s, p, q, guess), Some(est));
                }
                let q1 = if q < p {
                    p
                } else {
                    q
                };
                let gap = q1 - p;
                let t: u64 = (gap / 4) as u64 + if gap % 4 == 0 {
                    0u64
                } else {
                    1u64
                };
                assert(t == tokens_for(gap as int));
                assert(t <= est) by {
                    assert(gap <= n);
                }
                if t == guess {
                    return (splice(s, p, q1, guess), Some(est));
                }
                guess = t;
                rounds = rounds - 1;
            },
        }
    }
}

fn push_range(out: &mut Vec<u8>, s: &[u8], from: usize, to: usize)
    requires
        from <= to <= s@.len(),
    ensures
        final(out)@ == old(out)@ + s@.subrange(from as int, to as int),
{
    let mut i: usize = from;
    while i < to
        invariant
            from <= i <= to <= s@.len(),
            out@ == old(out)@ + s@.subrange(from as int, i as int),
        decreases to - i,
    {
        out.push(s[i]);
        assert(s@.subrange(from as int, i + 1) =~= s@.subrange(from as int, i as int).push(s@[i as int]));
        i = i + 1;
    }
}

fn splice(s: &[u8], p: usize, q: usize, guess: u64) -> (r: Vec<u8>)
    requires
        p <= s@.len(),
        q <= s@.len(),
    ensures
        r@ == spliced(s@, p as int, q as int, guess as nat),
{
    let mut out: Vec<u8> = Vec::new();
    push_range(&mut out, s, 0, p);
    let m = marker_bytes(guess);
    let mut i: usize = 0;
    let ghost before = out@;
    while i < m.len()
        invariant
            i <= m@.len(),
            out@ == before + m@.subrange(0, i as int),
        decreases m.len() - i,
    {
        out.push(m[i]);
        assert(m@.subrange(0, i + 1) =~= m@.subrange(0, i as int).push(m@[i as int]));
        i = i + 1;
    }
    assert(m@.subrange(0, m@.len() as int) =~= m@);
    out.push(10u8);
    push_range(&mut out, s, q, s.len());
    assert(out@ =~= spliced(s@, p as int, q as int, guess as nat));
    out
}

/// What any refinement yields: the bare whole-input marker, or a head and a
/// disjoint tail of `s` around a marker, the kept bytes and the marker
/// together within `cap`.
pub open spec fn is_elision_of(s: Seq<u8>, cap: int, est: nat, r: Seq<u8>) -> bool {
    r == marker(est) || exists|p: int, q: int, g: nat|
        0 <= p <= q <= s.len() && p + (s.len() - q) + marker(g).len() <= cap && r == #[trigger] spliced(
            s,
            p,
            q,
            g,
        )
}

proof fn lemma_refine_shape(s: Seq<u8>, cap: int, est: nat, guess: nat, rounds: nat)
    requires
        s.len() > cap,
    ensures
        is_elision_of(s, cap, est, refine(s, cap, est, guess, rounds)),
    decreases rounds,
{
    match cut(s, cap, guess) {
        None => {},
        Some((p, q)) => {
            let ml = marker(guess).len() as int;
            let keep = cap - ml;
            lemma_cut_bounds(s, keep / 2, keep - keep / 2);
            let q1 = if q < p {
                p
            } else {
                q
            };
            let t = tokens_for(q1 - p) as nat;
            if rounds == 0 {
                assert(0 <= p <= q <= s.len() && p + (s.len() - q) + marker(guess).len() <= cap);
                assert(refine(s, cap, est, guess, rounds) == spliced(s, p, q, guess));
            } else if t == guess {
                assert(0 <= p <= q1 <= s.len() && p + (s.len() - q1) + marker(guess).len() <= cap);
                assert(refine(s, cap, est, guess, rounds) == spliced(s, p, q1, guess));
            } else {
                lemma_refine_shape(s, cap, est, t, (rounds - 1) as nat);
            }
        },
    }
}

/// Input within the budget comes back unchanged, with no token count.
pub proof fn lemma_truncation_keeps_short_input(s: Seq<u8>, cap: int)
    requires
        s.len() <= cap,
    ensures
        truncated(s, cap) == (s, Option::<u64>::None),
{
}

/// The result is never longer than the budget plus the newline that follows
/// the marker, or than the bare marker for the whole input.
pub proof fn lemma_truncation_length(s: Seq<u8>, cap: int)
    requires
        0 <= cap,
    ensures
        truncated(s, cap).0.len() <= cap + 1 || truncated(s, cap).0 == marker(
            tokens_for(s.len() as int) as nat,
        ),
{
    if s.len() > cap {
        let est = tokens_for(s.len() as int) as nat;
        lemma_refine_shape(s, cap, est, est, 4);
    }
}

/// Where the budget cannot hold the marker for the whole input, the result is
/// no longer than the larger of the budget and that marker.
pub proof fn lemma_truncation_budget(s: Seq<u8>, cap: int)
    requires
        0 <= cap,
        s.len() <= cap || cap <= marker(tokens_for(s.len() as int) as nat).len(),
    ensures
        truncated(s, cap).0.len() <= cap || truncated(s, cap).0.len() <= marker(
            tokens_for(s.len() as int) as nat,
        ).len(),
{
}

/// A truncated result is the bare marker, or a head of the input, a marker,
/// a newline and a tail of the input that does not overlap the head.
pub proof fn lemma_truncation_fidelity(s: Seq<u8>, cap: int)
    requires
        0 <= cap,
        s.len() > cap,
    ensures
        truncated(s, cap).1 == Some(tokens_for(s.len() as int) as u64),
        is_elision_of(s, cap, tokens_for(s.len() as int) as nat, truncated(s, cap).0),
{
    let est = tokens_for(s.len() as int) as nat;
    lemma_refine_shape(s, cap, est, est, 4);
}

} // verus!
