//! A view that shows a text, wrapped to its width and scrolled where it is
//! higher than the view.

use vstd::prelude::*;
use vstd::string::*;
use vstd::utf8::*;
use vstd::view::View as _;
use crate::align::{Align, HAlign, VAlign};
use crate::div::{div_up, div_up_usize};
use crate::event::{Event, EventResult, Key};
use crate::lines::{
    count_chars, count_rows, is_char_start, lemma_boundary_in_prefix, lemma_rows_fit,
    lemma_rows_hold_few_chars, lemma_rows_on_boundaries, wrap, wrapped, Row, NEWLINE,
};
use crate::printer::{cmds, lemma_sub_printer_within, DrawCmd, DrawOp, Printer};
use crate::vec::{max_of, min_of, Vec2};
use crate::view::scroll::{joined, ScrollBase, PAGE};
use crate::view::{DimensionRequest, Selector, SizeRequest, View};

verus! {

/// A text without the line feed that it ends with, if it ends with one.
pub open spec fn stripped(text: Seq<char>) -> Seq<char> {
    if text.len() > 0 && text.last() == '\n' {
        text.drop_last()
    } else {
        text
    }
}

/// Stripping takes one line feed from the end of a text, or nothing: every
/// other character stays where it is.
pub proof fn lemma_stripped_keeps_the_rest(text: Seq<char>)
    ensures
        stripped(text) == text || stripped(text).push('\n') == text,
        stripped(text) == text <==> (text.len() == 0 || text.last() != '\n'),
{
    if text.len() > 0 && text.last() == '\n' {
        assert(text.drop_last().push('\n') =~= text);
    }
}

/// If the last character is a newline, strip it.
pub fn strip_last_newline(content: &str) -> (r: &str)
    ensures
        r@ == stripped(content@),
{
    let n: usize = content.unicode_len();
    if n > 0 && content.get_char(n - 1) == '\n' {
        content.substring_char(0, n - 1)
    } else {
        content
    }
}

/// The offset at which the line that holds offset `i` begins.
pub open spec fn line_start(bytes: Seq<u8>, i: int) -> int
    decreases i,
{
    if i <= 0 {
        0
    } else if bytes[i - 1] == NEWLINE {
        i
    } else {
        line_start(bytes, i - 1)
    }
}

/// The number of characters of the longest line of `bytes[..to]`, where
/// lines end at line feeds only.
pub open spec fn widest_line(bytes: Seq<u8>, to: int) -> nat
    decreases to,
{
    if to <= 0 {
        0
    } else {
        let here = count_chars(bytes, line_start(bytes, to), to);
        let before = widest_line(bytes, to - 1);
        if here > before {
            here
        } else {
            before
        }
    }
}

/// The number of line feeds in `bytes[..to]`.
pub open spec fn count_newlines(bytes: Seq<u8>, to: int) -> nat
    decreases to,
{
    if to <= 0 {
        0
    } else {
        count_newlines(bytes, to - 1) + if bytes[to - 1] == NEWLINE {
            1nat
        } else {
            0nat
        }
    }
}

/// The size of a text that is not wrapped: its longest line by the number of
/// its lines.
pub open spec fn ideal_size(bytes: Seq<u8>) -> Vec2 {
    Vec2 {
        x: widest_line(bytes, bytes.len() as int) as usize,
        y: min_of((count_newlines(bytes, bytes.len() as int) + 1) as int, usize::MAX as int) as usize,
    }
}

/// The number of rows of a text wrapped at `width`, a width of 0 counting as 1.
pub open spec fn wrapped_height(bytes: Seq<u8>, width: usize) -> usize {
    wrapped(bytes, max_of(width as int, 1) as nat).len() as usize
}

/// The width at which the search for the narrowest width begins: the `n`
/// characters of the text spread evenly over `height` rows.
pub open spec fn first_cols(n: int, height: usize) -> int {
    if height == 0 {
        n
    } else {
        min_of(div_up(n, height as int), n)
    }
}

/// The smallest width from `from` to `n` at which the text takes `height`
/// rows or fewer, or `n` where there is none.
pub open spec fn min_cols(bytes: Seq<u8>, height: usize, from: int, n: int) -> int
    decreases n - from,
{
    if from >= n {
        n
    } else if wrapped_height(bytes, from as usize) <= height {
        from
    } else {
        min_cols(bytes, height, from + 1, n)
    }
}

/// The size that a text of `text` asks for.
///
/// A fixed width is taken as it is, with the height that the text wrapped at
/// it takes, or the fixed height. A fixed height alone gets the narrowest
/// width that needs no more rows. A width bound that the unwrapped text
/// meets, or no width bound, gets the size of the unwrapped text; a width
/// bound that it exceeds is taken, with the height of the text wrapped at it.
pub open spec fn text_min_size(text: Seq<char>, req: SizeRequest) -> Vec2 {
    let bytes = encode_utf8(text);
    let ideal = ideal_size(bytes);
    match (req.w, req.h) {
        (DimensionRequest::Fixed(w), DimensionRequest::Fixed(h)) => Vec2 { x: w, y: h },
        (DimensionRequest::Fixed(w), _) => Vec2 { x: w, y: wrapped_height(bytes, w) },
        (_, DimensionRequest::Fixed(h)) => Vec2 {
            x: min_cols(bytes, h, first_cols(text.len() as int, h), text.len() as int) as usize,
            y: h,
        },
        (DimensionRequest::AtMost(w), _) => if w >= ideal.x {
            ideal
        } else {
            Vec2 { x: w, y: wrapped_height(bytes, w) }
        },
        (DimensionRequest::Unknown, _) => ideal,
    }
}

/// The rows of a text in a view of the given size: wrapped at the view's
/// width or, where that gives more rows than the view is high, at two
/// columns less, which are left to a scroll bar.
pub open spec fn laid_rows(bytes: Seq<u8>, size: Vec2) -> Seq<Row> {
    let rows = wrapped(bytes, max_of(size.x as int, 1) as nat);
    if rows.len() > size.y {
        wrapped(bytes, max_of(size.x - 2, 1) as nat)
    } else {
        rows
    }
}

/// Whether a row is a span of the text that begins and ends between two
/// characters.
pub open spec fn span_ok(bytes: Seq<u8>, row: Row) -> bool {
    &&& row.start <= row.end <= bytes.len()
    &&& is_char_boundary(bytes, row.start as int)
    &&& is_char_boundary(bytes, row.end as int)
}

/// What a scrolling view does with an event: nothing unless the content
/// scrolls, and then what the key asks for.
pub open spec fn scroll_outcome(scroll: ScrollBase, event: Event) -> (ScrollBase, EventResult) {
    if !scroll.is_scrollable() {
        (scroll, EventResult::Ignored)
    } else {
        match event {
            Event::KeyEvent(key) => {
                let (moved, used) = scroll.after_key(key);
                if used {
                    (moved, EventResult::Consumed(None))
                } else {
                    (scroll, EventResult::Ignored)
                }
            },
            _ => (scroll, EventResult::Ignored),
        }
    }
}

/// A simple view showing a fixed text.
pub struct TextView {
    content: String,
    rows: Vec<Row>,
    align: Align,
    scrollbase: ScrollBase,
}

impl TextView {
    /// The text that is shown.
    pub closed spec fn text(&self) -> Seq<char> {
        self.content@
    }

    /// The rows of the last layout; none since the text was last set.
    pub closed spec fn row_spans(&self) -> Seq<Row> {
        self.rows@
    }

    /// How the rows are placed in the view.
    pub closed spec fn alignment(&self) -> Align {
        self.align
    }

    /// Which rows are in view.
    pub closed spec fn scroll(&self) -> ScrollBase {
        self.scrollbase
    }

    /// The UTF-8 encoding of the text, into which the rows point.
    pub open spec fn bytes(&self) -> Seq<u8> {
        encode_utf8(self.text())
    }

    /// The characters of row `i`.
    pub open spec fn row_chars(&self, i: int) -> Seq<char> {
        decode_utf8(self.bytes().subrange(self.row_spans()[i].start as int, self.row_spans()[i].end as int))
    }

    /// The printer that the rows are drawn on: `printer`, moved down to where
    /// the alignment puts the first row.
    pub open spec fn inner_printer(&self, printer: Printer) -> Printer {
        printer.sub(
            Vec2 {
                x: 0,
                y: self.alignment().v.offset(self.row_spans().len() as int, printer.size.y as int) as usize,
            },
            printer.size,
            true,
        )
    }

    /// What drawing row `i` on the printer `p` emits: the row's text, at the
    /// column where the alignment puts it.
    pub open spec fn row_drawn(&self, p: Printer, i: int) -> Seq<DrawCmd> {
        let text = self.row_chars(i);
        p.printed(
            Vec2 { x: self.alignment().h.offset(text.len() as int, p.size.x as int) as usize, y: 0 },
            text,
        )
    }

    /// What drawing the first `n` rows in view emits.
    pub open spec fn lines_drawn(&self, inner: Printer, n: int) -> Seq<DrawCmd>
        decreases n,
    {
        if n <= 0 {
            Seq::empty()
        } else {
            self.lines_drawn(inner, n - 1) + self.row_drawn(
                self.scroll().row_printer(inner, n - 1),
                self.scroll().start_line + n - 1,
            )
        }
    }

    /// Creates a new TextView with the given content.
    pub fn new(content: &str) -> (view: TextView)
        ensures
            view.text() == stripped(content@),
            view.row_spans() == Seq::<Row>::empty(),
            view.alignment() == (Align { h: HAlign::Left, v: VAlign::Top }),
            view.scroll() == (ScrollBase { start_line: 0, content_height: 0, view_height: 0 }),
            view.wf(),
    {
        let content = strip_last_newline(content);
        TextView {
            content: content.to_owned(),
            rows: Vec::new(),
            scrollbase: ScrollBase::new(),
            align: Align::top_left(),
        }
    }

    /// Sets the horizontal alignment for this view.
    pub fn h_align(self, h: HAlign) -> (view: TextView)
        ensures
            view.alignment() == (Align { h: h, v: self.alignment().v }),
            view.text() == self.text(),
            view.row_spans() == self.row_spans(),
            view.scroll() == self.scroll(),
    {
        let mut view = self;
        view.align.h = h;
        view
    }

    /// Sets the vertical alignment for this view.
    pub fn v_align(self, v: VAlign) -> (view: TextView)
        ensures
            view.alignment() == (Align { h: self.alignment().h, v: v }),
            view.text() == self.text(),
            view.row_spans() == self.row_spans(),
            view.scroll() == self.scroll(),
    {
        let mut view = self;
        view.align.v = v;
        view
    }

    /// Sets the alignment for this view.
    pub fn align(self, a: Align) -> (view: TextView)
        ensures
            view.alignment() == a,
            view.text() == self.text(),
            view.row_spans() == self.row_spans(),
            view.scroll() == self.scroll(),
    {
        let mut view = self;
        view.align = a;
        view
    }

    /// Replace the text in this view. The rows of the old text are dropped:
    /// the view shows nothing until it is laid out again.
    pub fn set_content(&mut self, content: &str)
        ensures
            final(self).text() == stripped(content@),
            final(self).row_spans() == Seq::<Row>::empty(),
            final(self).alignment() == old(self).alignment(),
            final(self).scroll() == old(self).scroll().with_heights(old(self).scroll().view_height, 0),
            final(self).wf(),
    {
        let content = strip_last_newline(content);
        self.content = content.to_owned();
        self.rows = Vec::new();
        let view_height = self.scrollbase.view_height;
        self.scrollbase.set_heights(view_height, 0);
    }

    /// Returns the current text in this view.
    pub fn get_content(&self) -> (content: &str)
        ensures
            content@ == self.text(),
    {
        self.content.as_str()
    }

    /// The rows of the last layout.
    pub fn get_rows(&self) -> (rows: &Vec<Row>)
        ensures
            rows@ == self.row_spans(),
    {
        &self.rows
    }

    /// Which rows are in view.
    pub fn get_scroll(&self) -> (scroll: ScrollBase)
        ensures
            scroll == self.scroll(),
    {
        self.scrollbase
    }

    /// The text of row `i`.
    pub fn row_text(&self, i: usize) -> (text: &str)
        requires
            self.wf(),
            i < self.row_spans().len(),
        ensures
            text@ == self.row_chars(i as int),
    {
        let row = self.rows[i];
        let content = self.content.as_str();
        proof {
            assert(span_ok(self.bytes(), self.row_spans()[i as int]));
            encode_utf8_valid_utf8(self.text());
            lemma_boundary_in_prefix(self.bytes(), row.start as int, row.end as int);
        }
        let (head, _) = content.split_at(row.end);
        let (_, text) = head.split_at(row.start);
        proof {
            assert(text.spec_bytes() =~= self.bytes().subrange(row.start as int, row.end as int));
            encode_utf8_decode_utf8(text@);
        }
        text
    }

    /// Returns the number of lines required to display the content
    /// with the given width.
    pub fn get_num_lines(&self, max_width: usize) -> (n: usize)
        ensures
            n == wrapped_height(self.bytes(), max_width),
    {
        let width: usize = if max_width < 1 { 1 } else { max_width };
        count_rows(self.content.as_str(), width)
    }

    /// Given the specified height, how many columns do we need to properly
    /// display?
    pub fn get_num_cols(&self, max_height: usize) -> (w: usize)
        ensures
            w == min_cols(
                self.bytes(),
                max_height,
                first_cols(self.text().len() as int, max_height),
                self.text().len() as int,
            ),
    {
        let n: usize = self.content.as_str().unicode_len();
        let first: usize = if max_height == 0 {
            n
        } else {
            let d: usize = div_up_usize(n, max_height);
            if d < n {
                d
            } else {
                n
            }
        };
        let mut w: usize = first;
        while w < n
            invariant
                first <= w <= n,
                n == self.text().len(),
                first == first_cols(n as int, max_height),
                min_cols(self.bytes(), max_height, first as int, n as int) == min_cols(
                    self.bytes(),
                    max_height,
                    w as int,
                    n as int,
                ),
            decreases n - w,
        {
            if self.get_num_lines(w) <= max_height {
                return w;
            }
            w = w + 1;
        }
        n
    }

    /// In the absence of any constraint, what size would we like?
    pub fn get_ideal_size(&self) -> (size: Vec2)
        ensures
            size == ideal_size(self.bytes()),
    {
        let bytes = self.content.as_str().as_bytes();
        let len: usize = bytes.len();
        let mut max_width: usize = 0;
        let mut width: usize = 0;
        let mut newlines: usize = 0;
        let mut i: usize = 0;
        while i < len
            invariant
                i <= len,
                len == bytes@.len(),
                0 <= line_start(bytes@, i as int) <= i,
                width == count_chars(bytes@, line_start(bytes@, i as int), i as int),
                width <= i,
                max_width == widest_line(bytes@, i as int),
                max_width <= i,
                newlines == count_newlines(bytes@, i as int),
                newlines <= i,
            decreases len - i,
        {
            let b: u8 = bytes[i];
            if b == NEWLINE {
                newlines = newlines + 1;
                width = 0;
            } else if is_char_start(b) {
                width = width + 1;
            }
            if width > max_width {
                max_width = width;
            }
            i = i + 1;
        }
        let height: usize = if newlines < usize::MAX { newlines + 1 } else { usize::MAX };
        Vec2::new(max_width, height)
    }
}

/// A list of lines, each of which is what drawing its row emits, is what
/// drawing the rows emits.
proof fn lemma_joined_lines(view: TextView, inner: Printer, lines: Seq<Vec<DrawOp>>)
    requires
        forall|y: int|
            0 <= y < lines.len() ==> cmds((#[trigger] lines[y])@) == view.row_drawn(
                view.scroll().row_printer(inner, y),
                view.scroll().start_line + y,
            ),
    ensures
        joined(lines) == view.lines_drawn(inner, lines.len() as int),
    decreases lines.len(),
{
    if lines.len() > 0 {
        let front = lines.drop_last();
        assert forall|y: int| 0 <= y < front.len() implies cmds((#[trigger] front[y])@)
            == view.row_drawn(view.scroll().row_printer(inner, y), view.scroll().start_line + y) by {
            assert(front[y] == lines[y]);
        }
        lemma_joined_lines(view, inner, front);
    }
}

impl View for TextView {
    /// The window lies within the rows, and the rows are spans of the text.
    open spec fn wf(self) -> bool {
        &&& self.scroll().wf()
        &&& self.scroll().content_height == self.row_spans().len()
        &&& forall|i: int|
            0 <= i < self.row_spans().len() ==> span_ok(self.bytes(), #[trigger] self.row_spans()[i])
    }

    open spec fn min_size(self, req: SizeRequest) -> Vec2 {
        text_min_size(self.text(), req)
    }

    /// The rows in view, top down.
    open spec fn drawn(self, printer: Printer) -> Seq<DrawCmd> {
        self.lines_drawn(self.inner_printer(printer), self.scroll().visible())
    }

    /// The text is wrapped anew, and the window keeps its place as far as the
    /// new rows allow.
    open spec fn laid_out(self, size: Vec2, after: TextView) -> bool {
        &&& after.text() == self.text()
        &&& after.alignment() == self.alignment()
        &&& after.row_spans() == laid_rows(self.bytes(), size)
        &&& after.scroll() == self.scroll().with_heights(size.y, after.row_spans().len() as usize)
    }

    /// Only the window moves, as the key asks.
    open spec fn handled(self, event: Event, after: TextView, result: EventResult) -> bool {
        &&& after.text() == self.text()
        &&& after.alignment() == self.alignment()
        &&& after.row_spans() == self.row_spans()
        &&& (after.scroll(), result) == scroll_outcome(self.scroll(), event)
    }

    /// The view takes the focus where it can scroll, and stays as it is.
    open spec fn focus_taken(self, after: TextView, accepted: bool) -> bool {
        &&& after == self
        &&& accepted == self.scroll().is_scrollable()
    }

    /// A text view holds no tagged view.
    open spec fn found(self, selector: Selector) -> Option<Seq<usize>> {
        None
    }

    fn draw(&self, printer: &Printer) -> (ops: Vec<DrawOp>)
        ensures
            cmds(ops@) == self.lines_drawn(self.inner_printer(*printer), self.scroll().visible()),
    {
        let h: usize = self.rows.len();
        let offset: usize = self.align.v.get_offset(h, printer.size.y);
        let inner = printer.sub_printer(Vec2::new(0, offset), printer.size, true);
        assert(inner == self.inner_printer(*printer));
        proof {
            assert forall|y: int| 0 <= y < self.scroll().visible() implies (#[trigger] self.scroll().row_printer(
                inner,
                y,
            )).wf() by {
                let w = if self.scroll().is_scrollable() {
                    crate::vec::monus(inner.size.x as int, 2) as usize
                } else {
                    inner.size.x
                };
                lemma_sub_printer_within(inner, Vec2 { x: 0, y: y as usize }, Vec2 { x: w, y: 1 }, true);
            }
        }
        let line_drawer = |p: &Printer, i: usize| -> (line: Vec<DrawOp>)
            requires
                p.wf(),
                i < self.row_spans().len(),
            ensures
                cmds(line@) == self.row_drawn(*p, i as int),
            {
                let text = self.row_text(i);
                let l: usize = text.unicode_len();
                let x: usize = self.align.h.get_offset(l, p.size.x);
                p.print(Vec2::new(x, 0), text)
            };
        let ops = self.scrollbase.draw(&inner, line_drawer);
        proof {
            let lines = choose|lines: Seq<Vec<DrawOp>>|
                {
                    &&& lines.len() == self.scrollbase.visible()
                    &&& forall|y: int|
                        0 <= y < lines.len() ==> call_ensures(
                            line_drawer,
                            (&self.scrollbase.row_printer(inner, y), (self.scrollbase.start_line + y) as usize),
                            #[trigger] lines[y],
                        )
                    &&& cmds(ops@) == joined(lines)
                };
            lemma_joined_lines(*self, inner, lines);
        }
        ops
    }

    fn on_event(&mut self, event: Event) -> (result: EventResult)
        ensures
            final(self).text() == old(self).text(),
            final(self).alignment() == old(self).alignment(),
            final(self).row_spans() == old(self).row_spans(),
            (final(self).scroll(), result) == scroll_outcome(old(self).scroll(), event),
    {
        if !self.scrollbase.scrollable() {
            return EventResult::Ignored;
        }
        match event {
            Event::KeyEvent(Key::Home) => self.scrollbase.scroll_top(),
            Event::KeyEvent(Key::End) => self.scrollbase.scroll_bottom(),
            Event::KeyEvent(Key::Up) => {
                if !self.scrollbase.can_scroll_up() {
                    return EventResult::Ignored;
                }
                self.scrollbase.scroll_up(1)
            },
            Event::KeyEvent(Key::Down) => {
                if !self.scrollbase.can_scroll_down() {
                    return EventResult::Ignored;
                }
                self.scrollbase.scroll_down(1)
            },
            Event::KeyEvent(Key::PageDown) => self.scrollbase.scroll_down(PAGE),
            Event::KeyEvent(Key::PageUp) => self.scrollbase.scroll_up(PAGE),
            _ => {
                return EventResult::Ignored;
            },
        }
        EventResult::Consumed(None)
    }

    fn layout(&mut self, size: Vec2)
        ensures
            final(self).text() == old(self).text(),
            final(self).alignment() == old(self).alignment(),
            final(self).row_spans() == laid_rows(old(self).bytes(), size),
            final(self).scroll() == old(self).scroll().with_heights(
                size.y,
                laid_rows(old(self).bytes(), size).len() as usize,
            ),
    {
        // Compute the text rows.
        let mut width: usize = if size.x < 1 { 1 } else { size.x };
        let mut rows = wrap(self.content.as_str(), width);
        if rows.len() > size.y {
            width = if size.x > 2 { size.x - 2 } else { 1 };
            rows = wrap(self.content.as_str(), width);
        }
        proof {
            encode_utf8_valid_utf8(self.text());
            lemma_rows_on_boundaries(self.bytes(), width as nat);
            lemma_rows_fit(self.bytes(), width as nat);
        }
        self.scrollbase.set_heights(size.y, rows.len());
        self.rows = rows;
    }

    fn get_min_size(&self, req: SizeRequest) -> (size: Vec2)
        ensures
            size == text_min_size(self.text(), req),
    {
        match (req.w, req.h) {
            (DimensionRequest::Fixed(w), DimensionRequest::Fixed(h)) => Vec2::new(w, h),
            (DimensionRequest::Fixed(w), _) => {
                let h = self.get_num_lines(w);
                Vec2::new(w, h)
            },
            (_, DimensionRequest::Fixed(h)) => {
                let w = self.get_num_cols(h);
                Vec2::new(w, h)
            },
            (DimensionRequest::AtMost(w), _) => {
                // Don't _force_ the max width, but take it if we have to.
                let ideal = self.get_ideal_size();
                if w >= ideal.x {
                    ideal
                } else {
                    let h = self.get_num_lines(w);
                    Vec2::new(w, h)
                }
            },
            (DimensionRequest::Unknown, _) => self.get_ideal_size(),
        }
    }

    fn take_focus(&mut self) -> (accepted: bool)
        ensures
            *final(self) == *old(self),
            accepted == old(self).scroll().is_scrollable(),
    {
        self.scrollbase.scrollable()
    }

    fn find(&self, selector: &Selector) -> (path: Option<Vec<usize>>)
        ensures
            path is None,
    {
        None
    }
}

/// Laid out in a view of any size, no row of a text holds more characters
/// than the view is wide, a width of 0 counting as 1.
pub proof fn lemma_laid_rows_fit(view: TextView, size: Vec2, after: TextView)
    requires
        view.bytes().len() <= usize::MAX,
        view.laid_out(size, after),
    ensures
        forall|i: int|
            0 <= i < after.row_spans().len() ==> (#[trigger] after.row_chars(i)).len() <= max_of(
                size.x as int,
                1,
            ),
{
    lemma_rows_hold_few_chars(view.text(), max_of(size.x as int, 1) as nat);
    lemma_rows_hold_few_chars(view.text(), max_of(size.x - 2, 1) as nat);
}

/// A fixed width or height is answered as it is, and a width bound is kept
/// unless a fixed height asks for more columns.
pub proof fn lemma_min_size_keeps_to_the_request(text: Seq<char>, req: SizeRequest)
    ensures
        req.w matches DimensionRequest::Fixed(w) ==> text_min_size(text, req).x == w,
        req.h matches DimensionRequest::Fixed(h) ==> text_min_size(text, req).y == h,
        req.w matches DimensionRequest::AtMost(w) ==> req.h is Fixed || text_min_size(text, req).x
            <= w,
{
}

} // verus!
