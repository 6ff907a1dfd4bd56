//! Line framing of the journal file: each record on its own line, ended by
//! a newline; reading splits the text back into lines.
use vstd::prelude::*;
use vstd::string::*;
use crate::models::ResponseItem;
use crate::rollout::RolloutLine;
use crate::text::{argv_view, has_char, push_char};

verus! {

/// The lines, each followed by a newline.
pub open spec fn framed(lines: Seq<Seq<char>>) -> Seq<char>
    decreases lines.len(),
{
    if lines.len() == 0 {
        Seq::empty()
    } else {
        framed(lines.drop_last()) + lines.last() + seq!['\n']
    }
}

/// A line without its trailing carriage return, if any.
pub open spec fn strip_cr(l: Seq<char>) -> Seq<char> {
    if l.len() > 0 && l.last() == '\r' {
        l.drop_last()
    } else {
        l
    }
}

/// Finished lines and the open one after reading `s`.
pub open spec fn split_fold(s: Seq<char>) -> (Seq<Seq<char>>, Seq<char>)
    decreases s.len(),
{
    if s.len() == 0 {
        (Seq::empty(), Seq::empty())
    } else {
        let (done, cur) = split_fold(s.drop_last());
        if s.last() == '\n' {
            (done.push(strip_cr(cur)), Seq::empty())
        } else {
            (done, cur.push(s.last()))
        }
    }
}

/// The lines of a text: split at each newline, a carriage return before a
/// newline dropped, and a final unterminated line kept as it is when it is
/// not empty.
pub open spec fn text_lines(s: Seq<char>) -> Seq<Seq<char>> {
    let (done, cur) = split_fold(s);
    if cur.len() > 0 {
        done.push(cur)
    } else {
        done
    }
}

/// Joins the records into journal text, one per line.
pub fn frame_lines(lines: &[String]) -> (r: String)
    ensures
        r@ == framed(argv_view(lines@)),
{
    let ghost a = argv_view(lines@);
    let mut out = String::new();
    let mut i: usize = 0;
    while i < lines.len()
        invariant
            a == argv_view(lines@),
            i <= lines@.len(),
            out@ == framed(a.subrange(0, i as int)),
        decreases lines.len() - i,
    {
        assert(a.subrange(0, i + 1).drop_last() =~= a.subrange(0, i as int));
        out.append(lines[i].as_str());
        push_char(&mut out, '\n');
        i = i + 1;
    }
    assert(a.subrange(0, lines@.len() as int) =~= a);
    out
}

/// Splits journal text into its lines.
pub fn split_lines(text: &str) -> (r: Vec<String>)
    ensures
        argv_view(r@) == text_lines(text@),
{
    let n = text.unicode_len();
    let mut done: Vec<String> = Vec::new();
    let mut cur = String::new();
    let mut i: usize = 0;
    assert(argv_view(done@) =~= Seq::<Seq<char>>::empty());
    while i < n
        invariant
            n == text@.len(),
            i <= n,
            (argv_view(done@), cur@) == split_fold(text@.subrange(0, i as int)),
        decreases n - i,
    {
        let c = text.get_char(i);
        assert(text@.subrange(0, i + 1).drop_last() =~= text@.subrange(0, i as int));
        if c == '\n' {
            let line = strip_cr_exec(cur);
            let ghost before = done@;
            done.push(line);
            assert(argv_view(done@) =~= argv_view(before).push(line@));
            cur = String::new();
        } else {
            push_char(&mut cur, c);
        }
        i = i + 1;
    }
    assert(text@.subrange(0, n as int) =~= text@);
    if cur.unicode_len() > 0 {
        let ghost before = done@;
        let ghost last = cur@;
        done.push(cur);
        assert(argv_view(done@) =~= argv_view(before).push(last));
    }
    done
}

fn strip_cr_exec(l: String) -> (r: String)
    ensures
        r@ == strip_cr(l@),
{
    let n = l.as_str().unicode_len();
    if n > 0 && l.as_str().get_char(n - 1) == '\r' {
        crate::text::substring(l.as_str(), 0, n - 1)
    } else {
        l
    }
}

proof fn lemma_fold_plain(d: Seq<Seq<char>>, p: Seq<char>, l: Seq<char>)
    requires
        split_fold(p) == (d, Seq::<char>::empty()),
        !has_char(l, '\n'),
    ensures
        split_fold(p + l) == (d, l),
    decreases l.len(),
{
    if l.len() == 0 {
        assert(p + l =~= p);
    } else {
        let l2 = l.drop_last();
        assert(!has_char(l2, '\n')) by {
            if has_char(l2, '\n') {
                let i = choose|i: int| 0 <= i < l2.len() && l2[i] == '\n';
                assert(l[i] == '\n');
            }
        }
        lemma_fold_plain(d, p, l2);
        assert((p + l).drop_last() =~= p + l2);
        assert((p + l).last() == l.last());
        assert(l.last() != '\n') by {
            assert(l[l.len() - 1] == l.last());
        }
        assert(l2.push(l.last()) =~= l);
    }
}

proof fn lemma_fold_framed(lines: Seq<Seq<char>>)
    requires
        forall|i: int| 0 <= i < lines.len() ==> !has_char(#[trigger] lines[i], '\n'),
        forall|i: int| 0 <= i < lines.len() ==> strip_cr(#[trigger] lines[i]) == lines[i],
    ensures
        split_fold(framed(lines)) == (lines, Seq::<char>::empty()),
    decreases lines.len(),
{
    if lines.len() == 0 {
    } else {
        let init = lines.drop_last();
        let l = lines.last();
        assert(l == lines[lines.len() - 1]);
        lemma_fold_framed(init);
        lemma_fold_plain(init, framed(init), l);
        let t = framed(init) + l + seq!['\n'];
        assert(t.drop_last() =~= framed(init) + l);
        assert(init.push(l) =~= lines);
    }
}

/// Reading back framed records gives the same records, as long as none holds
/// a newline or ends with a carriage return.
pub proof fn lemma_split_framed(lines: Seq<Seq<char>>)
    requires
        forall|i: int| 0 <= i < lines.len() ==> !has_char(#[trigger] lines[i], '\n'),
        forall|i: int|
            0 <= i < lines.len() ==> !(lines[i].len() > 0 && #[trigger] lines[i].last() == '\r'),
    ensures
        text_lines(framed(lines)) == lines,
{
    assert forall|i: int| 0 <= i < lines.len() implies strip_cr(#[trigger] lines[i]) == lines[i] by {
        assert(!(lines[i].len() > 0 && lines[i].last() == '\r'));
    }
    lemma_fold_framed(lines);
}

/// Whether a line is JSON at all, and the string at its `record_type` key
/// if it has one.
pub uninterp spec fn json_record_type(line: Seq<char>) -> Option<Option<Seq<char>>>;

/// Relies on `serde_json::from_str` into a `serde_json::Value` and its
/// accessors: `None` when the line is not JSON, else the string at
/// `record_type`, if any.
#[verifier::external_body]
fn record_type_field(line: &str) -> (r: Option<Option<String>>)
    ensures
        match r {
            None => json_record_type(line@) is None,
            Some(None) => json_record_type(line@) == Some(None::<Seq<char>>),
            Some(Some(t)) => json_record_type(line@) == Some(Some(t@)),
        },
{
    let v: serde_json::Value = serde_json::from_str(line).ok()?;
    Some(v.get("record_type").and_then(|r| r.as_str()).map(|s| s.to_string()))
}

/// What a journal body line holds.
#[derive(Debug, Clone, Copy, PartialEq, Eq)]
pub enum LineKind {
    /// not JSON (blank lines included): skipped
    Skip,
    /// a state record
    State,
    /// a conversation item, to be decoded
    Item,
}

/// Lines that are not JSON are skipped; those whose `record_type` is
/// `state` are state records; every other line is an item.
pub open spec fn line_kind(record_type: Option<Option<Seq<char>>>) -> LineKind {
    match record_type {
        None => LineKind::Skip,
        Some(Some(t)) => if t == "state"@ {
            LineKind::State
        } else {
            LineKind::Item
        },
        Some(None) => LineKind::Item,
    }
}

/// Classifies a journal line by the result of reading its `record_type`.
pub fn kind_of(record_type: Option<Option<String>>) -> (r: LineKind)
    ensures
        r == line_kind(match record_type {
            None => None,
            Some(None) => Some(None),
            Some(Some(t)) => Some(Some(t@)),
        }),
{
    match record_type {
        None => LineKind::Skip,
        Some(Some(t)) => if crate::text::str_eq(t.as_str(), "state") {
            LineKind::State
        } else {
            LineKind::Item
        },
        Some(None) => LineKind::Item,
    }
}

/// What a journal body line holds.
pub fn classify_line(line: &str) -> (r: LineKind)
    ensures
        r == line_kind(json_record_type(line@)),
{
    kind_of(record_type_field(line))
}

/// The journal line for a classified text line: nothing for a skipped
/// line, a state record, or the decoded item; an item line that did not
/// decode is skipped.
pub open spec fn line_of(kind: LineKind, decoded: Option<ResponseItem>) -> Option<RolloutLine> {
    match kind {
        LineKind::Skip => None,
        LineKind::State => Some(RolloutLine::State(crate::rollout::SessionStateSnapshot {})),
        LineKind::Item => match decoded {
            Some(i) => Some(RolloutLine::Item(i)),
            None => None,
        },
    }
}

/// Builds the journal line for a text line of kind `kind`; `decoded` is the
/// item read from it when it is an item line.
pub fn body_line(kind: LineKind, decoded: Option<ResponseItem>) -> (r: Option<RolloutLine>)
    ensures
        r == line_of(kind, decoded),
{
    match kind {
        LineKind::Skip => None,
        LineKind::State => Some(RolloutLine::State(crate::rollout::SessionStateSnapshot {})),
        LineKind::Item => match decoded {
            Some(i) => Some(RolloutLine::Item(i)),
            None => None,
        },
    }
}

} // verus!
