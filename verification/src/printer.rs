//! A clipped, shifted window onto the terminal.
//!
//! A printer emits nothing itself: every call returns the drawing operations
//! that a terminal backend is to carry out, in order and in absolute
//! coordinates.

use vstd::prelude::*;
use vstd::string::*;
use ncurses::{attr_t, chtype};
use crate::theme::{ColorPair, Theme};
use crate::vec::{min_of, monus, ToVec2, Vec2};

verus! {

/// One operation for the terminal backend.
#[derive(Debug, PartialEq, Eq)]
pub enum DrawOp {
    /// Write `text` from `pos` on, as a format string in which `%%` stands
    /// for one percent sign.
    Print { pos: Vec2, text: String },
    /// Repeat `glyph` `len` times to the right of `pos`.
    HLine { pos: Vec2, len: usize, glyph: chtype },
    /// Repeat `glyph` `len` times downwards from `pos`.
    VLine { pos: Vec2, len: usize, glyph: chtype },
    /// Switch the attributes of a terminal attribute word on.
    StyleOn(attr_t),
    /// Switch the attributes of a terminal attribute word off.
    StyleOff(attr_t),
}

/// A drawing operation as a mathematical value.
pub enum DrawCmd {
    Print { pos: Vec2, text: Seq<char> },
    HLine { pos: Vec2, len: usize, glyph: chtype },
    VLine { pos: Vec2, len: usize, glyph: chtype },
    StyleOn(attr_t),
    StyleOff(attr_t),
}

impl DrawOp {
    /// The operation as a mathematical value.
    pub open spec fn cmd(self) -> DrawCmd {
        match self {
            DrawOp::Print { pos, text } => DrawCmd::Print { pos, text: text@ },
            DrawOp::HLine { pos, len, glyph } => DrawCmd::HLine { pos, len, glyph },
            DrawOp::VLine { pos, len, glyph } => DrawCmd::VLine { pos, len, glyph },
            DrawOp::StyleOn(style) => DrawCmd::StyleOn(style),
            DrawOp::StyleOff(style) => DrawCmd::StyleOff(style),
        }
    }
}

/// A list of operations as mathematical values.
pub open spec fn cmds(ops: Seq<DrawOp>) -> Seq<DrawCmd> {
    ops.map_values(|op: DrawOp| op.cmd())
}

/// `cmds` goes through concatenation.
pub proof fn lemma_cmds_concat(a: Seq<DrawOp>, b: Seq<DrawOp>)
    ensures
        cmds(a + b) == cmds(a) + cmds(b),
{
    assert(cmds(a + b) =~= cmds(a) + cmds(b));
}

/// Appends `more` to `ops`.
pub fn append_ops(ops: &mut Vec<DrawOp>, more: Vec<DrawOp>)
    ensures
        final(ops)@ == old(ops)@ + more@,
        cmds(final(ops)@) == cmds(old(ops)@) + cmds(more@),
{
    let mut more = more;
    proof {
        lemma_cmds_concat(ops@, more@);
    }
    ops.append(&mut more);
}

/// `text` with every percent sign doubled.
pub open spec fn escaped(text: Seq<char>) -> Seq<char>
    decreases text.len(),
{
    if text.len() == 0 {
        Seq::empty()
    } else {
        escaped(text.drop_last()) + if text.last() == '%' {
            seq!['%', '%']
        } else {
            seq![text.last()]
        }
    }
}

/// The attribute word that stands for the color pair with the given number.
pub open spec fn color_attr(n: i16) -> attr_t {
    (n * 256) as attr_t
}

/// The attribute word of a color pair: `ncurses::COLOR_PAIR`, which shifts
/// the pair's number, taken as 32 bits, left by 8 bits. For a number that is
/// not negative nothing is shifted out, and the word is the number times 256.
#[verifier::external_body]
fn color_pair(n: i16) -> (attr: attr_t)
    requires
        n >= 0,
    ensures
        attr == color_attr(n),
{
    ncurses::COLOR_PAIR(n)
}

/// The terminal's character for horizontal borders: `ncurses::ACS_HLINE`,
/// which reads it from the table that the terminal in use has filled.
/// Nothing is known of it.
#[verifier::external_body]
fn acs_hline() -> (glyph: chtype) {
    ncurses::ACS_HLINE()
}

/// The terminal's character for vertical borders: `ncurses::ACS_VLINE`,
/// which reads it from the table that the terminal in use has filled.
/// Nothing is known of it.
#[verifier::external_body]
fn acs_vline() -> (glyph: chtype) {
    ncurses::ACS_VLINE()
}

/// Appends one character to a string: `String::push`.
#[verifier::external_body]
fn push_char(s: &mut String, c: char)
    ensures
        final(s)@ == old(s)@.push(c),
{
    s.push(c);
}

/// Convenient interface to draw on a part of the screen.
#[derive(Clone, Copy, Debug)]
pub struct Printer {
    /// Where on the terminal this printer's origin lies.
    pub offset: Vec2,
    /// Size of the area we are allowed to draw on.
    pub size: Vec2,
    /// Whether the view to draw is currently focused or not.
    pub focused: bool,
    /// Currently used theme.
    pub theme: Theme,
}

impl Printer {
    /// The printer's area lies within the coordinates that a `usize` holds.
    pub open spec fn wf(self) -> bool {
        &&& self.offset.x + self.size.x <= usize::MAX
        &&& self.offset.y + self.size.y <= usize::MAX
    }

    /// The terminal position of a position of this printer.
    pub open spec fn shifted(self, p: Vec2) -> Vec2 {
        Vec2 { x: (p.x + self.offset.x) as usize, y: (p.y + self.offset.y) as usize }
    }

    /// What `print` emits: nothing for a position outside the area, else the
    /// text cut to the columns that remain, with its percent signs doubled.
    pub open spec fn printed(self, pos: Vec2, text: Seq<char>) -> Seq<DrawCmd> {
        if pos.y >= self.size.y || pos.x >= self.size.x {
            Seq::empty()
        } else {
            let room = self.size.x - pos.x;
            seq![
                DrawCmd::Print {
                    pos: self.shifted(pos),
                    text: escaped(text.take(min_of(room, text.len() as int))),
                },
            ]
        }
    }

    /// What `print_hline` emits: nothing for a start beyond the area, else a
    /// line cut to the columns that remain.
    pub open spec fn hline_drawn(self, start: Vec2, len: usize, glyph: chtype) -> Seq<DrawCmd> {
        if start.y > self.size.y || start.x > self.size.x {
            Seq::empty()
        } else {
            seq![
                DrawCmd::HLine {
                    pos: self.shifted(start),
                    len: min_of(len as int, self.size.x - start.x) as usize,
                    glyph,
                },
            ]
        }
    }

    /// What `print_vline` emits: nothing for a start beyond the area, else a
    /// line cut to the rows that remain.
    pub open spec fn vline_drawn(self, start: Vec2, len: usize, glyph: chtype) -> Seq<DrawCmd> {
        if start.y > self.size.y || start.x > self.size.x {
            Seq::empty()
        } else {
            seq![
                DrawCmd::VLine {
                    pos: self.shifted(start),
                    len: min_of(len as int, self.size.y - start.y) as usize,
                    glyph,
                },
            ]
        }
    }

    /// What `print_box_with` emits: nothing for a box without width or
    /// height, else the four corners, then the top, left, bottom and right
    /// edges, drawn with the given characters.
    pub open spec fn box_drawn(self, start: Vec2, size: Vec2, hline: chtype, vline: chtype) -> Seq<
        DrawCmd,
    > {
        if size.x < 1 || size.y < 1 {
            Seq::empty()
        } else {
            let right = Vec2 { x: (size.x - 1) as usize, y: 0 };
            let down = Vec2 { x: 0, y: (size.y - 1) as usize };
            let wide = monus(size.x as int, 2) as usize;
            let high = monus(size.y as int, 2) as usize;
            let top = start.spec_plus(Vec2 { x: 1, y: 0 });
            let left = start.spec_plus(Vec2 { x: 0, y: 1 });
            self.printed(start, "┌"@) + self.printed(start.spec_plus(right), "┐"@) + self.printed(
                start.spec_plus(down),
                "└"@,
            ) + self.printed(start.spec_plus(right).spec_plus(down), "┘"@) + self.hline_drawn(
                top,
                wide,
                hline,
            ) + self.vline_drawn(left, high, vline) + self.hline_drawn(
                top.spec_plus(down),
                wide,
                hline,
            ) + self.vline_drawn(left.spec_plus(right), high, vline)
        }
    }

    /// The printer that `sub_printer` returns.
    pub open spec fn sub(self, offset: Vec2, size: Vec2, focused: bool) -> Printer {
        Printer {
            offset: self.offset.spec_plus(offset),
            size: Vec2::spec_min(self.size.spec_minus(offset), size),
            focused: self.focused && focused,
            theme: self.theme,
        }
    }

    /// Creates a new printer on the given window.
    pub fn new<T: ToVec2>(size: T, theme: Theme) -> (p: Printer)
        ensures
            p.offset == (Vec2 { x: 0, y: 0 }),
            p.size == size.vec2(),
            p.focused,
            p.theme == theme,
            p.wf(),
    {
        Printer { offset: Vec2::zero(), size: size.to_vec2(), focused: true, theme: theme }
    }

    /// Prints some text at the given position relative to the window.
    pub fn print<S: ToVec2>(&self, pos: S, text: &str) -> (ops: Vec<DrawOp>)
        requires
            self.wf(),
        ensures
            cmds(ops@) == self.printed(pos.vec2(), text@),
    {
        let p = pos.to_vec2();
        let mut ops: Vec<DrawOp> = Vec::new();
        if p.y >= self.size.y || p.x >= self.size.x {
            assert(cmds(ops@) =~= Seq::empty());
            return ops;
        }
        // Do we have enough room for the entire line?
        let room: usize = self.size.x - p.x;
        // We want the number of characters, not bytes.
        let n: usize = text.unicode_len();
        let keep: usize = if n < room { n } else { room };
        let mut out = String::new();
        let mut i: usize = 0;
        while i < keep
            invariant
                i <= keep <= n,
                n == text@.len(),
                out@ == escaped(text@.take(i as int)),
            decreases keep - i,
        {
            let c = text.get_char(i);
            proof {
                assert(text@.take(i + 1).drop_last() =~= text@.take(i as int));
            }
            if c == '%' {
                push_char(&mut out, '%');
                push_char(&mut out, '%');
                assert(out@ =~= escaped(text@.take(i as int)) + seq!['%', '%']);
            } else {
                push_char(&mut out, c);
                assert(out@ =~= escaped(text@.take(i as int)) + seq![c]);
            }
            i = i + 1;
        }
        ops.push(DrawOp::Print { pos: Vec2 { x: p.x + self.offset.x, y: p.y + self.offset.y }, text: out });
        assert(cmds(ops@) =~= self.printed(pos.vec2(), text@));
        ops
    }

    /// Prints a vertical line using the given character.
    pub fn print_vline<T: ToVec2>(&self, start: T, len: usize, c: chtype) -> (ops: Vec<DrawOp>)
        requires
            self.wf(),
        ensures
            cmds(ops@) == self.vline_drawn(start.vec2(), len, c),
    {
        let p = start.to_vec2();
        let mut ops: Vec<DrawOp> = Vec::new();
        if p.y > self.size.y || p.x > self.size.x {
            assert(cmds(ops@) =~= Seq::empty());
            return ops;
        }
        let room: usize = self.size.y - p.y;
        let len: usize = if len < room { len } else { room };
        ops.push(DrawOp::VLine { pos: Vec2 { x: p.x + self.offset.x, y: p.y + self.offset.y }, len: len, glyph: c });
        assert(cmds(ops@) =~= self.vline_drawn(start.vec2(), len, c));
        ops
    }

    /// Prints a horizontal line using the given character.
    pub fn print_hline<T: ToVec2>(&self, start: T, len: usize, c: chtype) -> (ops: Vec<DrawOp>)
        requires
            self.wf(),
        ensures
            cmds(ops@) == self.hline_drawn(start.vec2(), len, c),
    {
        let p = start.to_vec2();
        let mut ops: Vec<DrawOp> = Vec::new();
        if p.y > self.size.y || p.x > self.size.x {
            assert(cmds(ops@) =~= Seq::empty());
            return ops;
        }
        let room: usize = self.size.x - p.x;
        let len: usize = if len < room { len } else { room };
        ops.push(DrawOp::HLine { pos: Vec2 { x: p.x + self.offset.x, y: p.y + self.offset.y }, len: len, glyph: c });
        assert(cmds(ops@) =~= self.hline_drawn(start.vec2(), len, c));
        ops
    }

    /// Calls the given closure with this printer, between switching the
    /// given color on and off, and goes back to the primary color.
    pub fn with_color<F: Fn(&Printer) -> Vec<DrawOp>>(&self, c: ColorPair, f: F) -> (ops: Vec<DrawOp>)
        requires
            call_requires(f, (self,)),
        ensures
            exists|body: Vec<DrawOp>| #[trigger]
                call_ensures(f, (self,), body) && cmds(ops@) == seq![
                    DrawCmd::StyleOn(color_attr(c.id())),
                ] + cmds(body@) + seq![
                    DrawCmd::StyleOff(color_attr(c.id())),
                    DrawCmd::StyleOn(color_attr(ColorPair::Primary.id())),
                ],
    {
        let style = color_pair(c.ncurses_id());
        let mut ops = self.with_style(style, f);
        let ghost styled = ops@;
        let primary = color_pair(ColorPair::Primary.ncurses_id());
        ops.push(DrawOp::StyleOn(primary));
        proof {
            let body = choose|body: Vec<DrawOp>| #[trigger]
                call_ensures(f, (self,), body) && cmds(styled) == seq![DrawCmd::StyleOn(style)]
                    + cmds(body@) + seq![DrawCmd::StyleOff(style)];
            assert(cmds(ops@) =~= cmds(styled).push(DrawCmd::StyleOn(primary)));
            assert(cmds(ops@) =~= seq![DrawCmd::StyleOn(style)] + cmds(body@) + seq![
                DrawCmd::StyleOff(style),
                DrawCmd::StyleOn(primary),
            ]);
        }
        ops
    }

    /// Same as `with_color`, but for any attribute word of the terminal,
    /// like its words for bold or reverse, and without going back to the
    /// primary color.
    pub fn with_style<F: Fn(&Printer) -> Vec<DrawOp>>(&self, style: attr_t, f: F) -> (ops: Vec<DrawOp>)
        requires
            call_requires(f, (self,)),
        ensures
            exists|body: Vec<DrawOp>| #[trigger]
                call_ensures(f, (self,), body) && cmds(ops@) == seq![DrawCmd::StyleOn(style)]
                    + cmds(body@) + seq![DrawCmd::StyleOff(style)],
    {
        let mut ops: Vec<DrawOp> = Vec::new();
        ops.push(DrawOp::StyleOn(style));
        let body = f(self);
        let ghost drawn = body;
        append_ops(&mut ops, body);
        ops.push(DrawOp::StyleOff(style));
        proof {
            assert(call_ensures(f, (self,), drawn));
            assert(cmds(ops@) =~= seq![DrawCmd::StyleOn(style)] + cmds(drawn@) + seq![
                DrawCmd::StyleOff(style),
            ]);
        }
        ops
    }

    /// Prints a rectangular box, with the terminal's own border characters
    /// for its edges.
    pub fn print_box<T: ToVec2>(&self, start: T, size: T) -> (ops: Vec<DrawOp>)
        requires
            self.wf(),
        ensures
            exists|hline: chtype, vline: chtype|
                cmds(ops@) == #[trigger] self.box_drawn(start.vec2(), size.vec2(), hline, vline),
    {
        let hline = acs_hline();
        let vline = acs_vline();
        self.print_box_with(start, size, hline, vline)
    }

    /// Prints a rectangular box whose edges are drawn with the given
    /// characters.
    pub fn print_box_with<T: ToVec2>(&self, start: T, size: T, hline: chtype, vline: chtype) -> (ops:
        Vec<DrawOp>)
        requires
            self.wf(),
        ensures
            cmds(ops@) == self.box_drawn(start.vec2(), size.vec2(), hline, vline),
    {
        let start_v = start.to_vec2();
        let size_v = size.to_vec2();
        let mut ops: Vec<DrawOp> = Vec::new();
        if size_v.x < 1 || size_v.y < 1 {
            assert(cmds(ops@) =~= Seq::empty());
            return ops;
        }
        let right = Vec2::new(size_v.x - 1, 0);
        let down = Vec2::new(0, size_v.y - 1);
        let wide: usize = if size_v.x >= 2 { size_v.x - 2 } else { 0 };
        let high: usize = if size_v.y >= 2 { size_v.y - 2 } else { 0 };
        let top = start_v.plus(Vec2::new(1, 0));
        let left = start_v.plus(Vec2::new(0, 1));

        append_ops(&mut ops, self.print(start_v, "┌"));
        append_ops(&mut ops, self.print(start_v.plus(right), "┐"));
        append_ops(&mut ops, self.print(start_v.plus(down), "└"));
        append_ops(&mut ops, self.print(start_v.plus(right).plus(down), "┘"));

        append_ops(&mut ops, self.print_hline(top, wide, hline));
        append_ops(&mut ops, self.print_vline(left, high, vline));
        append_ops(&mut ops, self.print_hline(top.plus(down), wide, hline));
        append_ops(&mut ops, self.print_vline(left.plus(right), high, vline));
        assert(cmds(ops@) =~= self.box_drawn(start.vec2(), size.vec2(), hline, vline));
        ops
    }

    /// Returns a printer on a subset of this one's area.
    pub fn sub_printer<S: ToVec2>(&self, offset: S, size: S, focused: bool) -> (p: Printer)
        requires
            self.wf(),
        ensures
            p == self.sub(offset.vec2(), size.vec2(), focused),
            p.wf(),
    {
        let offset_v = offset.to_vec2();
        Printer {
            offset: self.offset.plus(offset_v),
            // We can't be larger than what remains
            size: Vec2::min(self.size.minus(offset_v), size.to_vec2()),
            focused: self.focused && focused,
            theme: self.theme,
        }
    }
}

/// A sub-printer is no larger than the size asked for, no larger than what
/// remains of its parent beyond the offset, and its area lies within the
/// parent's.
pub proof fn lemma_sub_printer_within(parent: Printer, offset: Vec2, size: Vec2, focused: bool)
    requires
        parent.wf(),
    ensures
        ({
            let p = parent.sub(offset, size, focused);
            &&& p.wf()
            &&& p.size.x == min_of(size.x as int, monus(parent.size.x as int, offset.x as int))
            &&& p.size.y == min_of(size.y as int, monus(parent.size.y as int, offset.y as int))
            &&& p.size.x > 0 ==> parent.offset.x <= p.offset.x && p.offset.x + p.size.x
                <= parent.offset.x + parent.size.x
            &&& p.size.y > 0 ==> parent.offset.y <= p.offset.y && p.offset.y + p.size.y
                <= parent.offset.y + parent.size.y
            &&& p.focused ==> parent.focused
        }),
{
}

} // verus!
