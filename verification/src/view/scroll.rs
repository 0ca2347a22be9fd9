//! The window of rows that a scrolling view shows.

use vstd::prelude::*;
use crate::event::Key;
use crate::printer::{append_ops, cmds, DrawCmd, DrawOp, Printer};
use crate::vec::{min_of, monus, Vec2};

verus! {

/// How many rows a page key scrolls by.
pub const PAGE: usize = 10;

/// Which rows of a content are in view.
#[derive(Clone, Copy, Debug, PartialEq, Eq, Structural)]
pub struct ScrollBase {
    /// The first row in view.
    pub start_line: usize,
    /// The number of rows of the content.
    pub content_height: usize,
    /// The number of rows that fit in the view.
    pub view_height: usize,
}

/// The operations of each line in turn.
pub open spec fn joined(lines: Seq<Vec<DrawOp>>) -> Seq<DrawCmd>
    decreases lines.len(),
{
    if lines.len() == 0 {
        Seq::empty()
    } else {
        joined(lines.drop_last()) + cmds(lines.last()@)
    }
}

impl ScrollBase {
    /// The largest first row: the number of rows that do not fit.
    pub open spec fn max_start(self) -> int {
        monus(self.content_height as int, self.view_height as int)
    }

    /// The window lies within the content.
    pub open spec fn wf(self) -> bool {
        self.start_line <= self.max_start()
    }

    /// The content has more rows than the view.
    pub open spec fn is_scrollable(self) -> bool {
        self.view_height < self.content_height
    }

    /// The number of rows that are drawn.
    pub open spec fn visible(self) -> int {
        min_of(self.view_height as int, self.content_height as int)
    }

    /// The window moved to `start`.
    pub open spec fn at(self, start: int) -> ScrollBase {
        ScrollBase { start_line: start as usize, ..self }
    }

    /// The window after the heights have changed: it keeps its place as far
    /// as the new heights allow.
    pub open spec fn with_heights(self, view_height: usize, content_height: usize) -> ScrollBase {
        ScrollBase {
            start_line: min_of(
                self.start_line as int,
                monus(content_height as int, view_height as int),
            ) as usize,
            content_height,
            view_height,
        }
    }

    /// The window `n` rows further down, or at the bottom.
    pub open spec fn scrolled_down(self, n: int) -> ScrollBase {
        self.at(min_of(self.start_line + n, self.max_start()))
    }

    /// The window `n` rows further up, or at the top.
    pub open spec fn scrolled_up(self, n: int) -> ScrollBase {
        self.at(monus(self.start_line as int, n))
    }

    /// The window after a key, and whether the key did anything to scroll by:
    /// the arrows ask for a row that is out of view, the other four keys
    /// always count.
    pub open spec fn after_key(self, key: Key) -> (ScrollBase, bool) {
        match key {
            Key::Home => (self.at(0), true),
            Key::End => (self.at(self.max_start()), true),
            Key::Up => (self.scrolled_up(1), self.start_line > 0),
            Key::Down => (self.scrolled_down(1), self.start_line < self.max_start()),
            Key::PageDown => (self.scrolled_down(PAGE as int), true),
            Key::PageUp => (self.scrolled_up(PAGE as int), true),
            _ => (self, false),
        }
    }

    /// The window after the same key was pressed `times` times.
    pub open spec fn after_keys(self, key: Key, times: nat) -> ScrollBase
        decreases times,
    {
        if times == 0 {
            self
        } else {
            self.after_keys(key, (times - 1) as nat).after_key(key).0
        }
    }

    /// The printer for the row of the view with the given number: one row
    /// high, and two columns narrower where the content scrolls.
    pub open spec fn row_printer(self, printer: Printer, y: int) -> Printer {
        let w = if self.is_scrollable() {
            monus(printer.size.x as int, 2) as usize
        } else {
            printer.size.x
        };
        printer.sub(Vec2 { x: 0, y: y as usize }, Vec2 { x: w, y: 1 }, true)
    }

    /// A window on nothing.
    pub fn new() -> (s: ScrollBase)
        ensures
            s.start_line == 0,
            s.content_height == 0,
            s.view_height == 0,
            s.wf(),
    {
        ScrollBase { start_line: 0, content_height: 0, view_height: 0 }
    }

    /// Sets the height of the view and of the content.
    pub fn set_heights(&mut self, view_height: usize, content_height: usize)
        ensures
            *final(self) == old(self).with_heights(view_height, content_height),
            final(self).wf(),
    {
        self.view_height = view_height;
        self.content_height = content_height;
        if self.scrollable() {
            let bottom: usize = self.content_height - self.view_height;
            if self.start_line > bottom {
                self.start_line = bottom;
            }
        } else {
            self.start_line = 0;
        }
    }

    /// Whether the content has more rows than the view.
    pub fn scrollable(&self) -> (r: bool)
        ensures
            r == self.is_scrollable(),
    {
        self.view_height < self.content_height
    }

    /// Whether a row above the window is out of view.
    pub fn can_scroll_up(&self) -> (r: bool)
        ensures
            r == (self.start_line > 0),
    {
        self.start_line > 0
    }

    /// Whether a row below the window is out of view.
    pub fn can_scroll_down(&self) -> (r: bool)
        ensures
            r == (self.start_line < self.max_start()),
    {
        self.view_height < self.content_height && self.start_line < self.content_height
            - self.view_height
    }

    /// Moves the window to the top.
    pub fn scroll_top(&mut self)
        ensures
            *final(self) == old(self).at(0),
            final(self).wf(),
    {
        self.start_line = 0;
    }

    /// Moves the window to the bottom.
    pub fn scroll_bottom(&mut self)
        ensures
            *final(self) == old(self).at(old(self).max_start()),
            final(self).wf(),
    {
        self.start_line = if self.content_height > self.view_height {
            self.content_height - self.view_height
        } else {
            0
        };
    }

    /// Moves the window down by `n` rows, and no further than the bottom.
    pub fn scroll_down(&mut self, n: usize)
        requires
            old(self).wf(),
        ensures
            *final(self) == old(self).scrolled_down(n as int),
            final(self).wf(),
    {
        let bottom: usize = if self.content_height > self.view_height {
            self.content_height - self.view_height
        } else {
            0
        };
        if n >= bottom - self.start_line {
            self.start_line = bottom;
        } else {
            self.start_line = self.start_line + n;
        }
    }

    /// Moves the window up by `n` rows, and no further than the top.
    pub fn scroll_up(&mut self, n: usize)
        ensures
            *final(self) == old(self).scrolled_up(n as int),
            old(self).wf() ==> final(self).wf(),
    {
        self.start_line = if self.start_line >= n { self.start_line - n } else { 0 };
    }

    /// Draws the rows in view: `line_drawer` is called for each of them, top
    /// down, with a printer for that row of the view and the number of the
    /// content row to draw there.
    pub fn draw<F: Fn(&Printer, usize) -> Vec<DrawOp>>(&self, printer: &Printer, line_drawer: F) -> (ops:
        Vec<DrawOp>)
        requires
            self.wf(),
            printer.wf(),
            forall|y: int|
                0 <= y < self.visible() ==> call_requires(
                    line_drawer,
                    (&self.row_printer(*printer, y), (self.start_line + y) as usize),
                ),
        ensures
            exists|lines: Seq<Vec<DrawOp>>|
                {
                    &&& lines.len() == self.visible()
                    &&& forall|y: int|
                        0 <= y < lines.len() ==> call_ensures(
                            line_drawer,
                            (&self.row_printer(*printer, y), (self.start_line + y) as usize),
                            #[trigger] lines[y],
                        )
                    &&& cmds(ops@) == joined(lines)
                },
    {
        let max_y: usize = if self.view_height < self.content_height {
            self.view_height
        } else {
            self.content_height
        };
        let w: usize = if self.scrollable() {
            if printer.size.x >= 2 {
                printer.size.x - 2
            } else {
                0
            }
        } else {
            printer.size.x
        };
        let mut ops: Vec<DrawOp> = Vec::new();
        let ghost mut lines: Seq<Vec<DrawOp>> = Seq::empty();
        let mut y: usize = 0;
        assert(cmds(ops@) =~= joined(lines));
        while y < max_y
            invariant
                self.wf(),
                printer.wf(),
                max_y == self.visible(),
                w == if self.is_scrollable() {
                    monus(printer.size.x as int, 2) as usize
                } else {
                    printer.size.x
                },
                y <= max_y,
                lines.len() == y,
                forall|j: int|
                    0 <= j < self.visible() ==> call_requires(
                        line_drawer,
                        (&self.row_printer(*printer, j), (self.start_line + j) as usize),
                    ),
                forall|j: int|
                    0 <= j < lines.len() ==> call_ensures(
                        line_drawer,
                        (&self.row_printer(*printer, j), (self.start_line + j) as usize),
                        #[trigger] lines[j],
                    ),
                cmds(ops@) == joined(lines),
            decreases max_y - y,
        {
            let row = printer.sub_printer(Vec2::new(0, y), Vec2::new(w, 1), true);
            assert(row == self.row_printer(*printer, y as int));
            assert(call_requires(
                line_drawer,
                (&self.row_printer(*printer, y as int), (self.start_line + y) as usize),
            ));
            let line = line_drawer(&row, y + self.start_line);
            proof {
                assert(lines.push(line).drop_last() =~= lines);
                lines = lines.push(line);
            }
            append_ops(&mut ops, line);
            y = y + 1;
        }
        ops
    }
}

/// Pressing a key any number of times leaves the window within the content.
pub proof fn lemma_keys_keep_window(s: ScrollBase, key: Key, times: nat)
    requires
        s.wf(),
    ensures
        s.after_keys(key, times).wf(),
        s.after_keys(key, times).content_height == s.content_height,
        s.after_keys(key, times).view_height == s.view_height,
    decreases times,
{
    if times > 0 {
        lemma_keys_keep_window(s, key, (times - 1) as nat);
    }
}

/// `PageDown` pressed again and again moves the window down by a page each
/// time until it stands at the bottom, where it stays: the first row in view
/// never decreases and never passes the number of rows that do not fit.
pub proof fn lemma_page_down_saturates(s: ScrollBase, times: nat)
    requires
        s.wf(),
    ensures
        s.after_keys(Key::PageDown, times).start_line == min_of(
            s.start_line + PAGE * times,
            s.max_start(),
        ),
        s.after_keys(Key::PageDown, times).start_line <= s.after_keys(
            Key::PageDown,
            times + 1,
        ).start_line <= s.max_start(),
    decreases times,
{
    lemma_keys_keep_window(s, Key::PageDown, times);
    if times > 0 {
        lemma_page_down_saturates(s, (times - 1) as nat);
    }
    assert(s.after_keys(Key::PageDown, times + 1) == s.after_keys(Key::PageDown, times).after_key(
        Key::PageDown,
    ).0);
}

/// `Home` moves the window to the top and `End` to the bottom, wherever it
/// stood.
pub proof fn lemma_home_and_end(s: ScrollBase)
    ensures
        s.after_key(Key::Home).0.start_line == 0,
        s.after_key(Key::End).0.start_line == s.max_start(),
        s.after_key(Key::Home).0.wf(),
        s.after_key(Key::End).0.wf(),
{
}

} // verus!
