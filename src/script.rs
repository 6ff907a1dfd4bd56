//! Reads a shell script made only of plain commands: words (bare, or single-
//! or double-quoted without expansions) joined by `&&`, `||`, `;`, `|` or a
//! newline. Anything else (subshells, redirections, expansions, comments,
//! words glued to quotes) is refused.
use vstd::prelude::*;
use vstd::string::*;
use crate::text::{argv_view, commands_view, push_char};

verus! {

/// Where the reader stands inside a word.
#[derive(Clone, Copy)]
pub enum Quote {
    Bare,
    Single,
    Double,
}

/// Which operator character was just read.
#[derive(Clone, Copy)]
pub enum Pending {
    Nothing,
    /// one `&`, a second must follow
    Amp,
    /// one `|`, a second may follow
    Bar,
}

/// The reader's state after a prefix of the script.
pub struct Scan {
    pub cmds: Seq<Seq<Seq<char>>>,
    pub words: Seq<Seq<char>>,
    pub cur: Seq<char>,
    pub in_word: bool,
    pub quote: Quote,
    /// the current word ended with a closing quote
    pub closed: bool,
    pub pending: Pending,
    /// an operator was read and no command has followed it yet
    pub need: bool,
    pub failed: bool,
}

pub open spec fn scan_start() -> Scan {
    Scan {
        cmds: Seq::empty(),
        words: Seq::empty(),
        cur: Seq::empty(),
        in_word: false,
        quote: Quote::Bare,
        closed: false,
        pending: Pending::Nothing,
        need: false,
        failed: false,
    }
}

/// Characters that, outside quotes, belong to syntax this reader refuses.
pub open spec fn is_refused_char(c: char) -> bool {
    c == '(' || c == ')' || c == '<' || c == '>' || c == '$' || c == '`' || c == '\\' || c == '#'
        || c == '{' || c == '}' || c == '[' || c == ']' || c == '!'
}

pub open spec fn end_word(st: Scan) -> Scan {
    if st.in_word {
        Scan { words: st.words.push(st.cur), cur: Seq::empty(), in_word: false, closed: false, ..st }
    } else {
        st
    }
}

/// Ends the current command; the second component says whether there was one.
pub open spec fn end_command(st: Scan) -> (Scan, bool) {
    let s1 = end_word(st);
    if s1.words.len() > 0 {
        (Scan { cmds: s1.cmds.push(s1.words), words: Seq::empty(), need: false, ..s1 }, true)
    } else {
        (s1, false)
    }
}

pub open spec fn fail(st: Scan) -> Scan {
    Scan { failed: true, ..st }
}

/// One unquoted character with no operator pending.
pub open spec fn step_bare(st: Scan, c: char) -> Scan {
    if c == ' ' || c == '\t' {
        end_word(st)
    } else if c == '\n' {
        end_command(st).0
    } else if c == ';' || c == '&' || c == '|' {
        let (s1, had) = end_command(st);
        if !had {
            fail(s1)
        } else if c == ';' {
            s1
        } else if c == '&' {
            Scan { pending: Pending::Amp, need: true, ..s1 }
        } else {
            Scan { pending: Pending::Bar, need: true, ..s1 }
        }
    } else if c == '\'' || c == '"' {
        if st.in_word {
            fail(st)
        } else {
            Scan {
                in_word: true,
                cur: Seq::empty(),
                quote: if c == '\'' {
                    Quote::Single
                } else {
                    Quote::Double
                },
                ..st
            }
        }
    } else if is_refused_char(c) || st.closed {
        fail(st)
    } else {
        Scan { in_word: true, cur: st.cur.push(c), ..st }
    }
}

/// One character of the script.
pub open spec fn step(st: Scan, c: char) -> Scan {
    if st.failed {
        st
    } else {
        match st.quote {
            Quote::Single => if c == '\'' {
                Scan { quote: Quote::Bare, closed: true, ..st }
            } else {
                Scan { cur: st.cur.push(c), ..st }
            },
            Quote::Double => if c == '"' {
                Scan { quote: Quote::Bare, closed: true, ..st }
            } else if c == '$' || c == '`' || c == '\\' {
                fail(st)
            } else {
                Scan { cur: st.cur.push(c), ..st }
            },
            Quote::Bare => match st.pending {
                Pending::Amp => if c == '&' {
                    Scan { pending: Pending::Nothing, ..st }
                } else {
                    fail(st)
                },
                Pending::Bar => if c == '|' {
                    Scan { pending: Pending::Nothing, ..st }
                } else {
                    step_bare(Scan { pending: Pending::Nothing, ..st }, c)
                },
                Pending::Nothing => step_bare(st, c),
            },
        }
    }
}

/// The state after reading all of `s`.
pub open spec fn scan(s: Seq<char>) -> Scan
    decreases s.len(),
{
    if s.len() == 0 {
        scan_start()
    } else {
        step(scan(s.drop_last()), s.last())
    }
}

/// The commands of a script, each as its words, in the order written; `None`
/// where the script is not made of plain commands only.
pub open spec fn word_commands(s: Seq<char>) -> Option<Seq<Seq<Seq<char>>>> {
    let st = scan(s);
    if st.failed || !(st.quote is Bare) || st.pending is Amp {
        None
    } else {
        let (s1, had) = end_command(st);
        if !had && (st.need || st.pending is Bar) {
            None
        } else {
            Some(s1.cmds)
        }
    }
}

/// The executable reader.
struct Scanner {
    cmds: Vec<Vec<String>>,
    words: Vec<String>,
    cur: String,
    in_word: bool,
    quote: Quote,
    closed: bool,
    pending: Pending,
    need: bool,
    failed: bool,
}

impl Scanner {
    spec fn view(&self) -> Scan {
        Scan {
            cmds: commands_view(self.cmds@),
            words: argv_view(self.words@),
            cur: self.cur@,
            in_word: self.in_word,
            quote: self.quote,
            closed: self.closed,
            pending: self.pending,
            need: self.need,
            failed: self.failed,
        }
    }

    fn end_word(&mut self)
        ensures
            final(self).view() == end_word(old(self).view()),
    {
        if self.in_word {
            let mut w = String::new();
            std::mem::swap(&mut self.cur, &mut w);
            let ghost before = self.words@;
            self.words.push(w);
            assert(argv_view(self.words@) =~= argv_view(before).push(w@));
            self.in_word = false;
            self.closed = false;
        }
    }

    fn end_command(&mut self) -> (had: bool)
        ensures
            (final(self).view(), had) == end_command(old(self).view()),
    {
        self.end_word();
        if self.words.len() > 0 {
            let mut w: Vec<String> = Vec::new();
            std::mem::swap(&mut self.words, &mut w);
            let ghost before = self.cmds@;
            self.cmds.push(w);
            assert(commands_view(self.cmds@) =~= commands_view(before).push(argv_view(w@)));
            assert(argv_view(self.words@) =~= Seq::<Seq<char>>::empty());
            self.need = false;
            true
        } else {
            false
        }
    }

    fn step_bare(&mut self, c: char)
        ensures
            final(self).view() == step_bare(old(self).view(), c),
    {
        if c == ' ' || c == '\t' {
            self.end_word();
        } else if c == '\n' {
            self.end_command();
        } else if c == ';' || c == '&' || c == '|' {
            let had = self.end_command();
            if !had {
                self.failed = true;
            } else if c == '&' {
                self.pending = Pending::Amp;
                self.need = true;
            } else if c == '|' {
                self.pending = Pending::Bar;
                self.need = true;
            }
        } else if c == '\'' || c == '"' {
            if self.in_word {
                self.failed = true;
            } else {
                self.in_word = true;
                self.cur = String::new();
                self.quote = if c == '\'' {
                    Quote::Single
                } else {
                    Quote::Double
                };
            }
        } else if c == '(' || c == ')' || c == '<' || c == '>' || c == '$' || c == '`' || c == '\\'
            || c == '#' || c == '{' || c == '}' || c == '[' || c == ']' || c == '!' || self.closed {
            self.failed = true;
        } else {
            self.in_word = true;
            push_char(&mut self.cur, c);
        }
    }

    fn step(&mut self, c: char)
        ensures
            final(self).view() == step(old(self).view(), c),
    {
        if self.failed {
            return ;
        }
        match self.quote {
            Quote::Single => {
                if c == '\'' {
                    self.quote = Quote::Bare;
                    self.closed = true;
                } else {
                    push_char(&mut self.cur, c);
                }
            },
            Quote::Double => {
                if c == '"' {
                    self.quote = Quote::Bare;
                    self.closed = true;
                } else if c == '$' || c == '`' || c == '\\' {
                    self.failed = true;
                } else {
                    push_char(&mut self.cur, c);
                }
            },
            Quote::Bare => {
                match self.pending {
                    Pending::Amp => {
                        if c == '&' {
                            self.pending = Pending::Nothing;
                        } else {
                            self.failed = true;
                        }
                    },
                    Pending::Bar => {
                        self.pending = Pending::Nothing;
                        if c != '|' {
                            self.step_bare(c);
                        }
                    },
                    Pending::Nothing => {
                        self.step_bare(c);
                    },
                }
            },
        }
    }
}

/// Splits a script of plain commands into the words of each command, in the
/// order written. Returns `None` for any other script.
pub fn parse_word_commands(script: &str) -> (r: Option<Vec<Vec<String>>>)
    ensures
        match r {
            Some(v) => word_commands(script@) == Some(commands_view(v@)),
            None => word_commands(script@) is None,
        },
{
    let mut sc = Scanner {
        cmds: Vec::new(),
        words: Vec::new(),
        cur: String::new(),
        in_word: false,
        quote: Quote::Bare,
        closed: false,
        pending: Pending::Nothing,
        need: false,
        failed: false,
    };
    assert(commands_view(sc.cmds@) =~= Seq::<Seq<Seq<char>>>::empty());
    assert(argv_view(sc.words@) =~= Seq::<Seq<char>>::empty());
    let n = script.unicode_len();
    let mut i: usize = 0;
    while i < n
        invariant
            n == script@.len(),
            i <= n,
            sc.view() == scan(script@.subrange(0, i as int)),
        decreases n - i,
    {
        let c = script.get_char(i);
        proof {
            let pre = script@.subrange(0, i + 1);
            assert(pre.drop_last() =~= script@.subrange(0, i as int));
        }
        sc.step(c);
        i = i + 1;
    }
    assert(script@.subrange(0, n as int) =~= script@);
    if sc.failed {
        return None;
    }
    match sc.quote {
        Quote::Bare => {},
        _ => return None,
    }
    let need = sc.need;
    let bar = match sc.pending {
        Pending::Amp => return None,
        Pending::Bar => true,
        Pending::Nothing => false,
    };
    let had = sc.end_command();
    if !had && (need || bar) {
        return None;
    }
    Some(sc.cmds)
}

} // verus!
