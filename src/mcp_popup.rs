//! Selection state of the popup that lists MCP servers: moving with
//! wrap-around, keeping the selection in view, toggling a server.
use vstd::prelude::*;
use crate::exec_command::push_decimal;

verus! {

/// Most rows the popup shows at once.
pub const MAX_POPUP_ROWS: usize = 8;

/// One MCP server as the popup shows it.
#[derive(Clone, Debug)]
pub struct McpServerInfo {
    pub name: String,
    pub url_or_cmd: String,
    pub enabled: bool,
    pub connected: bool,
    pub tool_count: usize,
}

/// One row of the popup.
#[derive(Clone, Debug, PartialEq, Eq)]
pub struct DisplayRow {
    pub name: String,
    pub description: Option<String>,
}

/// The popup: its servers, the selected one, and the first visible row.
pub struct McpPopup {
    servers: Vec<McpServerInfo>,
    selected_idx: Option<usize>,
    scroll_top: usize,
}

pub open spec fn min_nat(a: nat, b: nat) -> nat {
    if a <= b {
        a
    } else {
        b
    }
}

/// The selection after moving up: the previous row, from the first row the
/// last, from none the first.
pub open spec fn moved_up(sel: Option<usize>, len: nat) -> Option<usize> {
    if len == 0 {
        sel
    } else {
        match sel {
            Some(i) => if i > 0 {
                Some((i - 1) as usize)
            } else {
                Some((len - 1) as usize)
            },
            None => Some(0usize),
        }
    }
}

/// The selection after moving down: the next row, from the last row the
/// first, from none the first; a selection past the end stays.
pub open spec fn moved_down(sel: Option<usize>, len: nat) -> Option<usize> {
    if len == 0 {
        sel
    } else {
        match sel {
            Some(i) => if i + 1 < len {
                Some((i + 1) as usize)
            } else if i + 1 == len {
                Some(0usize)
            } else {
                sel
            },
            None => Some(0usize),
        }
    }
}

/// The first visible row once the selection is scrolled into a window of
/// `visible` rows.
pub open spec fn scrolled(sel: Option<usize>, top: nat, len: nat, visible: nat) -> nat {
    if len == 0 || visible == 0 {
        0
    } else {
        match sel {
            None => 0,
            Some(s) => if s < top {
                s as nat
            } else if s >= top + visible {
                (s + 1 - visible) as nat
            } else {
                top
            },
        }
    }
}

impl McpPopup {
    pub closed spec fn servers(&self) -> Seq<McpServerInfo> {
        self.servers@
    }

    pub closed spec fn selected(&self) -> Option<usize> {
        self.selected_idx
    }

    pub closed spec fn top(&self) -> nat {
        self.scroll_top as nat
    }

    fn ensure_visible(&mut self)
        ensures
            final(self).servers() == old(self).servers(),
            final(self).selected() == old(self).selected(),
            final(self).top() == scrolled(
                old(self).selected(),
                old(self).top(),
                old(self).servers().len(),
                min_nat(MAX_POPUP_ROWS as nat, old(self).servers().len()),
            ),
    {
        let len = self.servers.len();
        let visible = if len < MAX_POPUP_ROWS {
            len
        } else {
            MAX_POPUP_ROWS
        };
        if len == 0 || visible == 0 {
            self.scroll_top = 0;
            return;
        }
        match self.selected_idx {
            None => {
                self.scroll_top = 0;
            },
            Some(s) => {
                if s < self.scroll_top {
                    self.scroll_top = s;
                } else if s - self.scroll_top >= visible {
                    self.scroll_top = s - (visible - 1);
                }
            },
        }
    }

    /// A popup over `servers`, the first one selected if there is any.
    pub fn new(servers: Vec<McpServerInfo>) -> (r: Self)
        ensures
            r.servers() == servers@,
            r.selected() == if servers@.len() > 0 {
                Some(0usize)
            } else {
                None
            },
            r.top() == 0,
    {
        let sel = if servers.len() > 0 {
            Some(0)
        } else {
            None
        };
        McpPopup { servers, selected_idx: sel, scroll_top: 0 }
    }

    /// Moves the selection up, wrapping from the first row to the last, and
    /// scrolls it into view.
    pub fn move_up(&mut self)
        ensures
            final(self).servers() == old(self).servers(),
            final(self).selected() == moved_up(old(self).selected(), old(self).servers().len()),
            old(self).servers().len() > 0 ==> final(self).top() == scrolled(
                final(self).selected(),
                old(self).top(),
                old(self).servers().len(),
                min_nat(MAX_POPUP_ROWS as nat, old(self).servers().len()),
            ),
            old(self).servers().len() == 0 ==> final(self).top() == old(self).top(),
    {
        let len = self.servers.len();
        if len == 0 {
            return;
        }
        self.selected_idx = match self.selected_idx {
            Some(i) => if i > 0 {
                Some(i - 1)
            } else {
                Some(len - 1)
            },
            None => Some(0),
        };
        self.ensure_visible();
    }

    /// Moves the selection down, wrapping from the last row to the first,
    /// and scrolls it into view.
    pub fn move_down(&mut self)
        ensures
            final(self).servers() == old(self).servers(),
            final(self).selected() == moved_down(old(self).selected(), old(self).servers().len()),
            old(self).servers().len() > 0 ==> final(self).top() == scrolled(
                final(self).selected(),
                old(self).top(),
                old(self).servers().len(),
                min_nat(MAX_POPUP_ROWS as nat, old(self).servers().len()),
            ),
            old(self).servers().len() == 0 ==> final(self).top() == old(self).top(),
    {
        let len = self.servers.len();
        if len == 0 {
            return;
        }
        let max_idx = len - 1;
        self.selected_idx = match self.selected_idx {
            Some(i) => if i < max_idx {
                Some(i + 1)
            } else if i == max_idx {
                Some(0)
            } else {
                Some(i)
            },
            None => Some(0),
        };
        self.ensure_visible();
    }

    /// The selected server, if the selection points at one.
    pub fn selected_server(&self) -> (r: Option<&McpServerInfo>)
        ensures
            r == match self.selected() {
                Some(i) => if i < self.servers().len() {
                    Some(&self.servers()[i as int])
                } else {
                    None
                },
                None => None,
            },
    {
        match self.selected_idx {
            Some(i) => if i < self.servers.len() {
                Some(&self.servers[i])
            } else {
                None
            },
            None => None,
        }
    }

    /// Replaces the servers, pulling a selection past the new end back to
    /// the last server.
    pub fn update_servers(&mut self, servers: Vec<McpServerInfo>)
        ensures
            final(self).servers() == servers@,
            final(self).top() == old(self).top(),
            final(self).selected() == match old(self).selected() {
                Some(i) => if i >= servers@.len() && servers@.len() > 0 {
                    Some((servers@.len() - 1) as usize)
                } else {
                    Some(i)
                },
                None => None,
            },
    {
        self.servers = servers;
        if let Some(i) = self.selected_idx {
            if i >= self.servers.len() && self.servers.len() > 0 {
                self.selected_idx = Some(self.servers.len() - 1);
            }
        }
    }

    /// Flips the selected server's enabled flag; gives its name and new flag.
    pub fn toggle_selected(&mut self) -> (r: Option<(String, bool)>)
        ensures
            final(self).selected() == old(self).selected(),
            final(self).top() == old(self).top(),
            final(self).servers().len() == old(self).servers().len(),
            match old(self).selected() {
                Some(i) if i < old(self).servers().len() => {
                    let s = old(self).servers()[i as int];
                    &&& final(self).servers() == old(self).servers().update(
                        i as int,
                        McpServerInfo { enabled: !s.enabled, ..s },
                    )
                    &&& r matches Some((n, e)) && n@ == s.name@ && e == !s.enabled
                },
                _ => final(self).servers() == old(self).servers() && r is None,
            },
    {
        match self.selected_idx {
            Some(i) => {
                if i < self.servers.len() {
                    let mut s = self.servers.remove(i);
                    s.enabled = !s.enabled;
                    let name = s.name.clone();
                    let e = s.enabled;
                    self.servers.insert(i, s);
                    assert(self.servers@ =~= old(self).servers@.update(
                        i as int,
                        McpServerInfo { enabled: !old(self).servers@[i as int].enabled, ..old(self).servers@[i as int] },
                    ));
                    Some((name, e))
                } else {
                    None
                }
            },
            None => None,
        }
    }

    /// Rows needed: the number of servers, at least 1 and at most the
    /// popup's maximum.
    pub fn calculate_required_height(&self) -> (r: u16)
        ensures
            r as nat == if self.servers().len() < 1 {
                1
            } else if self.servers().len() > MAX_POPUP_ROWS {
                MAX_POPUP_ROWS as nat
            } else {
                self.servers().len()
            },
    {
        let n = self.servers.len();
        if n < 1 {
            1
        } else if n > MAX_POPUP_ROWS {
            MAX_POPUP_ROWS as u16
        } else {
            n as u16
        }
    }

    /// The rows shown: a status mark (`[OFF]`, `[ON] ` or `[...]` while
    /// connecting) and the name, with the tool count of a connected server
    /// or else its URL or command.
    pub fn to_display_rows(&self) -> (r: Vec<DisplayRow>)
        ensures
            r@.len() == self.servers().len(),
            forall|i: int| 0 <= i < r@.len() ==> row_of(#[trigger] r@[i], self.servers()[i]),
    {
        let mut out: Vec<DisplayRow> = Vec::new();
        let mut i: usize = 0;
        while i < self.servers.len()
            invariant
                i <= self.servers@.len(),
                out@.len() == i,
                forall|j: int| 0 <= j < i ==> row_of(#[trigger] out@[j], self.servers@[j]),
            decreases self.servers.len() - i,
        {
            let s = &self.servers[i];
            let mut name = if !s.enabled {
                String::from_str("[OFF]")
            } else if s.connected {
                String::from_str("[ON] ")
            } else {
                String::from_str("[...]")
            };
            name.append(" ");
            name.append(s.name.as_str());
            let description = if s.enabled && s.connected {
                let mut d = String::new();
                push_decimal(&mut d, s.tool_count as u64);
                d.append(" tools");
                d
            } else {
                s.url_or_cmd.clone()
            };
            out.push(DisplayRow { name, description: Some(description) });
            i = i + 1;
        }
        out
    }
}

/// `row` is the row of server `s`.
pub open spec fn row_of(row: DisplayRow, s: McpServerInfo) -> bool {
    &&& row.name@ == status_mark(s) + " "@ + s.name@
    &&& row.description is Some
    &&& row.description.unwrap()@ == row_description(s)
}

/// The status mark of a server's row.
pub open spec fn status_mark(s: McpServerInfo) -> Seq<char> {
    if !s.enabled {
        "[OFF]"@
    } else if s.connected {
        "[ON] "@
    } else {
        "[...]"@
    }
}

/// The description of a server's row.
pub open spec fn row_description(s: McpServerInfo) -> Seq<char> {
    if s.enabled && s.connected {
        crate::exec_command::decimal_chars(s.tool_count as nat) + " tools"@
    } else {
        s.url_or_cmd@
    }
}

} // verus!
