//! What the keys do.

use crate::dash::state::App;
#[allow(unused_imports)]
use crate::dash::state::{find_ask, AppV, ASKS_KEPT};
use vstd::prelude::*;

verus! {

/// A key.
#[derive(Debug, Clone, Copy, PartialEq, Eq, Structural)]
pub enum Key {
    Char(char),
    Esc,
    Enter,
    Up,
    Down,
    PageUp,
    PageDown,
    Home,
    End,
    Other,
}

/// What a key asks for.
#[derive(Debug, Clone, Copy, PartialEq, Eq, Structural)]
pub enum Command {
    Quit,
    Back,
    Open,
    Up,
    Down,
    PageUp,
    PageDown,
    Top,
    Bottom,
    Nothing,
}

/// What a key asks for.
pub open spec fn command_view(key: Key, ctrl: bool) -> Command {
    match key {
        Key::Char(c) => if c == 'c' && ctrl {
            Command::Quit
        } else if c == 'q' {
            Command::Quit
        } else if c == 'k' {
            Command::Up
        } else if c == 'j' {
            Command::Down
        } else if c == 'u' && ctrl {
            Command::PageUp
        } else if c == 'd' && ctrl {
            Command::PageDown
        } else if c == 'g' {
            Command::Top
        } else if c == 'G' {
            Command::Bottom
        } else {
            Command::Nothing
        },
        Key::Esc => Command::Back,
        Key::Enter => Command::Open,
        Key::Up => Command::Up,
        Key::Down => Command::Down,
        Key::PageUp => Command::PageUp,
        Key::PageDown => Command::PageDown,
        Key::Home => Command::Top,
        Key::End => Command::Bottom,
        Key::Other => Command::Nothing,
    }
}

/// What a key asks for.
pub fn command_of(key: Key, ctrl: bool) -> (r: Command)
    ensures
        r == command_view(key, ctrl),
{
    match key {
        Key::Char(c) => if c == 'c' && ctrl {
            Command::Quit
        } else if c == 'q' {
            Command::Quit
        } else if c == 'k' {
            Command::Up
        } else if c == 'j' {
            Command::Down
        } else if c == 'u' && ctrl {
            Command::PageUp
        } else if c == 'd' && ctrl {
            Command::PageDown
        } else if c == 'g' {
            Command::Top
        } else if c == 'G' {
            Command::Bottom
        } else {
            Command::Nothing
        },
        Key::Esc => Command::Back,
        Key::Enter => Command::Open,
        Key::Up => Command::Up,
        Key::Down => Command::Down,
        Key::PageUp => Command::PageUp,
        Key::PageDown => Command::PageDown,
        Key::Home => Command::Top,
        Key::End => Command::Bottom,
        Key::Other => Command::Nothing,
    }
}

/// `n` held between `lo` and `hi`.
pub open spec fn held(n: int, lo: int, hi: int) -> int {
    if n < lo {
        lo
    } else if n > hi {
        hi
    } else {
        n
    }
}

/// A page of an ask in full: what fits on the screen, and at least one line.
pub open spec fn page(rows: u16) -> int {
    if rows == 0 {
        1
    } else {
        rows as int
    }
}

impl AppV {
    /// Moves the selection, from the newest ask where there is none. It stays among the asks.
    pub open spec fn moved(self, delta: int) -> AppV {
        if self.asks.len() == 0 {
            self
        } else {
            let from = match self.selected {
                Some(s) => s as int,
                None => self.asks.len() - 1,
            };
            AppV { selected: Some(held(from + delta, 0, self.asks.len() - 1) as usize), ..self }
        }
    }

    pub open spec fn scrolled(self, to: int) -> AppV {
        AppV { scroll: held(to, 0, u16::MAX as int) as u16, ..self }
    }

    /// What a command does. Where an ask is shown in full the arrows scroll, else they move the
    /// selection; the rest of scrolling is only for an ask in full.
    pub open spec fn commanded(self, c: Command) -> AppV {
        match c {
            Command::Back => if self.inspect {
                AppV { inspect: false, ..self }
            } else {
                self
            },
            Command::Open => if self.selected is Some && self.asks.len() > 0 {
                AppV {
                    inspect: !self.inspect,
                    scroll: if self.inspect {
                        self.scroll
                    } else {
                        0
                    },
                    ..self
                }
            } else {
                self
            },
            Command::Up => if self.inspect {
                self.scrolled(self.scroll - 1)
            } else {
                self.moved(-1)
            },
            Command::Down => if self.inspect {
                self.scrolled(self.scroll + 1)
            } else {
                self.moved(1)
            },
            Command::PageUp => if self.inspect {
                self.scrolled(self.scroll - page(self.view_rows))
            } else {
                self
            },
            Command::PageDown => if self.inspect {
                self.scrolled(self.scroll + page(self.view_rows))
            } else {
                self
            },
            Command::Top => if self.inspect {
                self.scrolled(0)
            } else {
                self
            },
            Command::Bottom => if self.inspect {
                self.scrolled(u16::MAX as int)
            } else {
                self
            },
            Command::Quit | Command::Nothing => self,
        }
    }

    /// Whether a command ends the dashboard.
    pub open spec fn ended_by(self, c: Command) -> bool {
        c == Command::Quit || (c == Command::Back && !self.inspect)
    }
}

impl App {
    /// Moves the selection.
    pub fn move_selection(&mut self, delta: i32)
        requires
            old(self)@.wf(),
        ensures
            final(self)@ == old(self)@.moved(delta as int),
            final(self)@.wf(),
    {
        let n: usize = self.asks.len();
        if n == 0 {
            return;
        }
        let from: usize = match self.selected {
            Some(s) => s,
            None => n - 1,
        };
        let to: i64 = from as i64 + delta as i64;
        let next: usize = if to < 0 {
            0
        } else if to > (n - 1) as i64 {
            n - 1
        } else {
            to as usize
        };
        self.selected = Some(next);
    }

    /// Does what a key asks for. Says whether the dashboard ends.
    pub fn on_key(&mut self, key: Key, ctrl: bool) -> (quit: bool)
        requires
            old(self)@.wf(),
        ensures
            quit == old(self)@.ended_by(command_view(key, ctrl)),
            final(self)@ == old(self)@.commanded(command_view(key, ctrl)),
            final(self)@.wf(),
    {
        let rows: u16 = if self.view_rows == 0 {
            1
        } else {
            self.view_rows
        };
        match command_of(key, ctrl) {
            Command::Quit => true,
            Command::Back => if self.inspect {
                self.inspect = false;
                false
            } else {
                true
            },
            Command::Open => {
                if self.selected.is_some() && self.asks.len() > 0 {
                    self.inspect = !self.inspect;
                    if self.inspect {
                        self.scroll = 0;
                    }
                }
                false
            },
            Command::Up => {
                if self.inspect {
                    self.scroll = back(self.scroll, 1);
                } else {
                    self.move_selection(-1);
                }
                false
            },
            Command::Down => {
                if self.inspect {
                    self.scroll = forth(self.scroll, 1);
                } else {
                    self.move_selection(1);
                }
                false
            },
            Command::PageUp => {
                if self.inspect {
                    self.scroll = back(self.scroll, rows);
                }
                false
            },
            Command::PageDown => {
                if self.inspect {
                    self.scroll = forth(self.scroll, rows);
                }
                false
            },
            Command::Top => {
                if self.inspect {
                    self.scroll = 0;
                }
                false
            },
            Command::Bottom => {
                if self.inspect {
                    self.scroll = u16::MAX;
                }
                false
            },
            Command::Nothing => false,
        }
    }

    /// Holds the scroll position within `lines` lines of which `height` are seen, and says which
    /// line is the first to be seen, counted from one.
    pub fn settle_scroll(&mut self, lines: usize, height: u16) -> (r: usize)
        requires
            old(self)@.wf(),
        ensures
            ({
                let room = if lines >= page(height) {
                    lines - page(height)
                } else {
                    0
                };
                &&& final(self)@ == old(self)@.scrolled(held(old(self).scroll as int, 0, room))
                &&& r == if lines == 0 {
                    0
                } else {
                    held(final(self).scroll + 1, 0, lines as int)
                }
            }),
            final(self)@.wf(),
    {
        let seen: usize = if height == 0 {
            1
        } else {
            height as usize
        };
        let room: usize = if lines >= seen {
            lines - seen
        } else {
            0
        };
        if self.scroll as usize > room {
            self.scroll = room as u16;
        }
        if lines == 0 {
            0
        } else if self.scroll as usize + 1 > lines {
            lines
        } else {
            self.scroll as usize + 1
        }
    }
}

/// `a` less `b`, and no less than nothing.
fn back(a: u16, b: u16) -> (r: u16)
    ensures
        r == held(a - b, 0, u16::MAX as int),
{
    if a >= b {
        a - b
    } else {
        0
    }
}

/// `a` and `b`, and no more than there is room for.
fn forth(a: u16, b: u16) -> (r: u16)
    ensures
        r == held(a + b, 0, u16::MAX as int),
{
    if a <= u16::MAX - b {
        a + b
    } else {
        u16::MAX
    }
}

/// An ask that is shown in full stays put when another comes in. Where the oldest makes room for
/// the new one, the selection moves with the asks, so that it stays on the ask that is shown,
/// unless that is the one that is dropped.
pub proof fn law_open_ask_stays_put(app: AppV, id: Seq<char>, s: usize)
    requires
        app.wf(),
        app.inspect,
        app.selected == Some(s),
    ensures
        app.ensured(id).inspect,
        ({
            let drops = find_ask(app.asks, id) is None && app.asks.len() == ASKS_KEPT;
            let after = app.ensured(id);
            if drops {
                s > 0 ==> after.selected == Some((s - 1) as usize) && after.asks[s - 1]
                    == app.asks[s as int]
            } else {
                after.selected == app.selected && after.asks[s as int] == app.asks[s as int]
            }
        }),
{
}

} // verus!
