//! Greedy word wrap.
//!
//! Rows are spans of byte offsets into the UTF-8 encoding of the text, while
//! widths are counted in characters: every byte that is not a continuation
//! byte begins one character.

use vstd::prelude::*;
use vstd::string::*;
use vstd::utf8::*;

verus! {

/// The line feed byte.
pub const NEWLINE: u8 = 0x0a;

/// The space byte.
pub const SPACE: u8 = 0x20;

/// One wrapped line: the bytes `start..end` of the text.
#[derive(Clone, Copy, Debug, PartialEq, Eq, Structural)]
pub struct Row {
    pub start: usize,
    pub end: usize,
}

/// Whether a byte is the first of a character's encoding.
pub open spec fn starts_char(b: u8) -> bool {
    !is_continuation_byte(b)
}

/// The number of characters that begin in `bytes[from..to]`.
pub open spec fn count_chars(bytes: Seq<u8>, from: int, to: int) -> nat
    decreases to - from,
{
    if to <= from {
        0
    } else {
        count_chars(bytes, from, to - 1) + if starts_char(bytes[to - 1]) {
            1nat
        } else {
            0nat
        }
    }
}

/// The offset of the first line feed at or after `from`, or the length of
/// `bytes` where there is none.
pub open spec fn next_newline(bytes: Seq<u8>, from: int) -> int
    decreases bytes.len() - from,
{
    if from >= bytes.len() {
        bytes.len() as int
    } else if bytes[from] == NEWLINE {
        from
    } else {
        next_newline(bytes, from + 1)
    }
}

/// The offset at which character number `k` (from 0) of `bytes[from..]`
/// begins, or the length of `bytes` where there are `k` characters or fewer.
pub open spec fn char_start(bytes: Seq<u8>, from: int, k: nat) -> int
    decreases bytes.len() - from,
{
    if from >= bytes.len() {
        bytes.len() as int
    } else if starts_char(bytes[from]) {
        if k == 0 {
            from
        } else {
            char_start(bytes, from + 1, (k - 1) as nat)
        }
    } else {
        char_start(bytes, from + 1, k)
    }
}

/// The offset of the last space in `bytes[from..to]`.
pub open spec fn last_space(bytes: Seq<u8>, from: int, to: int) -> Option<int>
    decreases to - from,
{
    if to <= from {
        None
    } else if bytes[to - 1] == SPACE {
        Some(to - 1)
    } else {
        last_space(bytes, from, to - 1)
    }
}

/// Where the row that begins at `start` ends, and where the next one begins.
///
/// A line feed that has at most `width` characters before it ends the row and
/// is skipped. Otherwise, a remainder of at most `width` characters is one
/// row. Otherwise the row ends at the last space among the first `width + 1`
/// characters, which is skipped, or, where there is none, after exactly
/// `width` characters.
pub open spec fn row_break(bytes: Seq<u8>, start: int, width: nat) -> (int, int) {
    let len = bytes.len() as int;
    let nl = next_newline(bytes, start);
    if nl < len && count_chars(bytes, start, nl) <= width {
        (nl, nl + 1)
    } else if count_chars(bytes, start, len) <= width {
        (len, len)
    } else {
        let window = char_start(bytes, start, width + 1);
        match last_space(bytes, start, window) {
            Some(sp) => (sp, sp + 1),
            None => {
                let cut = char_start(bytes, start, width);
                (cut, cut)
            },
        }
    }
}

/// The rows of `bytes[start..]`.
pub open spec fn rows_from(bytes: Seq<u8>, start: int, width: nat) -> Seq<Row>
    decreases bytes.len() - start,
{
    if start < 0 || start >= bytes.len() || bytes.len() > usize::MAX {
        Seq::empty()
    } else {
        let (end, next) = row_break(bytes, start, width);
        if !(start <= end <= next <= bytes.len()) || next == start {
            // Not reached with a width of 1 or more.
            Seq::empty()
        } else {
            seq![Row { start: start as usize, end: end as usize }] + rows_from(bytes, next, width)
        }
    }
}

/// The rows into which a text is wrapped at `width` characters.
pub open spec fn wrapped(bytes: Seq<u8>, width: nat) -> Seq<Row> {
    rows_from(bytes, 0, width)
}

/// Counting characters up to `mid` and from `mid` on gives the whole count.
pub proof fn lemma_count_split(bytes: Seq<u8>, from: int, mid: int, to: int)
    requires
        from <= mid <= to,
    ensures
        count_chars(bytes, from, to) == count_chars(bytes, from, mid) + count_chars(bytes, mid, to),
    decreases to - mid,
{
    if mid < to {
        lemma_count_split(bytes, from, mid, to - 1);
    }
}

/// A span holds no more characters than bytes.
pub proof fn lemma_count_bound(bytes: Seq<u8>, from: int, to: int)
    requires
        from <= to,
    ensures
        count_chars(bytes, from, to) <= to - from,
    decreases to - from,
{
    if from < to {
        lemma_count_bound(bytes, from, to - 1);
    }
}

/// `next_newline` finds the first line feed.
pub proof fn lemma_next_newline(bytes: Seq<u8>, from: int)
    requires
        0 <= from <= bytes.len(),
    ensures
        from <= next_newline(bytes, from) <= bytes.len(),
        next_newline(bytes, from) < bytes.len() ==> bytes[next_newline(bytes, from)] == NEWLINE,
        forall|j: int| from <= j < next_newline(bytes, from) ==> bytes[j] != NEWLINE,
    decreases bytes.len() - from,
{
    if from < bytes.len() && bytes[from] != NEWLINE {
        lemma_next_newline(bytes, from + 1);
    }
}

/// `char_start` finds the byte at which character `k` begins.
pub proof fn lemma_char_start(bytes: Seq<u8>, from: int, k: nat)
    requires
        0 <= from <= bytes.len(),
    ensures
        from <= char_start(bytes, from, k) <= bytes.len(),
        count_chars(bytes, from, char_start(bytes, from, k)) <= k,
        char_start(bytes, from, k) < bytes.len() ==> starts_char(bytes[char_start(bytes, from, k)])
            && count_chars(bytes, from, char_start(bytes, from, k)) == k,
    decreases bytes.len() - from,
{
    if from < bytes.len() {
        let k2: nat = if starts_char(bytes[from]) { (k - 1) as nat } else { k };
        if starts_char(bytes[from]) && k == 0 {
        } else {
            lemma_char_start(bytes, from + 1, k2);
            let cs = char_start(bytes, from + 1, k2);
            lemma_count_split(bytes, from, from + 1, cs);
            assert(count_chars(bytes, from, from + 1) == count_chars(bytes, from, from) + if starts_char(
                bytes[from],
            ) {
                1nat
            } else {
                0nat
            });
        }
    }
}

/// `last_space` finds the last space of the span.
pub proof fn lemma_last_space(bytes: Seq<u8>, from: int, to: int)
    ensures
        match last_space(bytes, from, to) {
            Some(sp) => from <= sp < to && bytes[sp] == SPACE && forall|j: int|
                sp < j < to ==> bytes[j] != SPACE,
            None => forall|j: int| from <= j < to ==> bytes[j] != SPACE,
        },
    decreases to - from,
{
    if from < to && bytes[to - 1] != SPACE {
        lemma_last_space(bytes, from, to - 1);
    }
}

/// Whether a byte begins a character.
pub fn is_char_start(b: u8) -> (r: bool)
    ensures
        r == starts_char(b),
{
    b < 0x80 || b > 0xbf
}

/// Finds the end of the row that begins at `start` and the start of the next.
pub fn next_row(bytes: &[u8], start: usize, width: usize) -> (r: (usize, usize))
    requires
        start < bytes@.len(),
        width >= 1,
    ensures
        (r.0 as int, r.1 as int) == row_break(bytes@, start as int, width as nat),
        start <= r.0 <= r.1 <= bytes@.len(),
        start < r.1 <= r.0 + 1,
        count_chars(bytes@, start as int, r.0 as int) <= width,
{
    let len: usize = bytes.len();
    let mut i: usize = start;
    let mut count: usize = 0;
    let mut space: Option<usize> = None;
    let mut cut: usize = len;
    while i < len && !(count > width && is_char_start(bytes[i]))
        invariant
            start <= i <= len,
            len == bytes@.len(),
            width >= 1,
            count == count_chars(bytes@, start as int, i as int),
            count <= width + 1,
            next_newline(bytes@, start as int) == next_newline(bytes@, i as int),
            char_start(bytes@, start as int, (width + 1) as nat) == char_start(
                bytes@,
                i as int,
                (width + 1 - count) as nat,
            ),
            count <= width ==> char_start(bytes@, start as int, width as nat) == char_start(
                bytes@,
                i as int,
                (width - count) as nat,
            ),
            count > width ==> start < cut < i && cut == char_start(
                bytes@,
                start as int,
                width as nat,
            ) && count_chars(bytes@, start as int, cut as int) == width,
            match space {
                Some(sp) => last_space(bytes@, start as int, i as int) == Some(sp as int),
                None => last_space(bytes@, start as int, i as int) is None,
            },
        decreases len - i,
    {
        let b: u8 = bytes[i];
        if is_char_start(b) {
            if b == NEWLINE {
                return (i, i + 1);
            }
            if count == width {
                cut = i;
                proof {
                    lemma_count_bound(bytes@, start as int, i as int);
                }
            }
            if b == SPACE {
                space = Some(i);
            }
            count = count + 1;
        }
        i = i + 1;
    }
    proof {
        lemma_next_newline(bytes@, i as int);
        lemma_count_split(bytes@, start as int, i as int, next_newline(bytes@, i as int));
        lemma_count_split(bytes@, start as int, i as int, len as int);
        lemma_last_space(bytes@, start as int, i as int);
    }
    if count <= width {
        (len, len)
    } else {
        match space {
            Some(sp) => {
                proof {
                    lemma_count_split(bytes@, start as int, sp as int, sp + 1);
                    lemma_count_split(bytes@, start as int, sp + 1, i as int);
                    assert(count_chars(bytes@, sp as int, sp + 1) == count_chars(
                        bytes@,
                        sp as int,
                        sp as int,
                    ) + 1);
                }
                (sp, sp + 1)
            },
            None => (cut, cut),
        }
    }
}

/// A text wrapped row by row.
pub struct LinesIterator<'a> {
    content: &'a str,
    start: usize,
    width: usize,
}

impl<'a> LinesIterator<'a> {
    /// The encoding of the text that is wrapped.
    pub closed spec fn bytes(&self) -> Seq<u8> {
        self.content.spec_bytes()
    }

    /// The offset at which the next row begins.
    pub closed spec fn position(&self) -> int {
        self.start as int
    }

    /// The width, in characters, that no row exceeds.
    pub closed spec fn width(&self) -> nat {
        self.width as nat
    }

    /// Starts at the beginning of the given text.
    pub fn new(content: &'a str, width: usize) -> (it: Self)
        requires
            width >= 1,
        ensures
            it.bytes() == content.spec_bytes(),
            it.position() == 0,
            it.width() == width,
    {
        LinesIterator { content: content, width: width, start: 0 }
    }

    /// The next row, or `None` at the end of the text.
    pub fn next(&mut self) -> (r: Option<Row>)
        requires
            old(self).width() >= 1,
        ensures
            final(self).bytes() == old(self).bytes(),
            final(self).width() == old(self).width(),
            old(self).bytes().len() <= usize::MAX,
            old(self).position() >= old(self).bytes().len() ==> r is None && final(self).position()
                == old(self).position(),
            old(self).position() < old(self).bytes().len() ==> {
                let (end, next) = row_break(old(self).bytes(), old(self).position(), old(self).width());
                &&& r == Some(Row { start: old(self).position() as usize, end: end as usize })
                &&& final(self).position() == next
                &&& old(self).position() <= end <= next <= old(self).bytes().len()
                &&& old(self).position() < next
            },
    {
        let bytes = self.content.as_bytes();
        if self.start >= bytes.len() {
            return None;
        }
        let start = self.start;
        let (end, next) = next_row(bytes, start, self.width);
        self.start = next;
        Some(Row { start: start, end: end })
    }
}

/// Wraps a text at `width` characters.
pub fn wrap(content: &str, width: usize) -> (rows: Vec<Row>)
    requires
        width >= 1,
    ensures
        rows@ == wrapped(content.spec_bytes(), width as nat),
        content.spec_bytes().len() <= usize::MAX,
{
    let mut it = LinesIterator::new(content, width);
    let mut rows: Vec<Row> = Vec::new();
    let mut done = false;
    while !done
        invariant
            it.bytes() == content.spec_bytes(),
            it.width() == width,
            width >= 1,
            0 <= it.position() <= it.bytes().len(),
            rows@ + rows_from(it.bytes(), it.position(), width as nat) == wrapped(
                content.spec_bytes(),
                width as nat,
            ),
            done ==> it.position() >= it.bytes().len(),
        decreases it.bytes().len() - it.position() + if done { 0int } else { 1int },
    {
        let ghost before = rows@;
        let ghost rest = rows_from(it.bytes(), it.position(), width as nat);
        match it.next() {
            None => {
                done = true;
            },
            Some(row) => {
                rows.push(row);
                assert(rows@ + rows_from(it.bytes(), it.position(), width as nat) =~= before + rest);
            },
        }
    }
    assert(rows@ + Seq::<Row>::empty() =~= rows@);
    rows
}

/// The number of rows that a text takes at `width` characters.
pub fn count_rows(content: &str, width: usize) -> (n: usize)
    requires
        width >= 1,
    ensures
        n == wrapped(content.spec_bytes(), width as nat).len(),
        content.spec_bytes().len() <= usize::MAX,
{
    let mut it = LinesIterator::new(content, width);
    let mut n: usize = 0;
    let mut done = false;
    while !done
        invariant
            it.bytes() == content.spec_bytes(),
            it.width() == width,
            width >= 1,
            0 <= it.position(),
            n <= it.position(),
            done || it.position() <= it.bytes().len(),
            it.bytes().len() <= usize::MAX || n == 0,
            n + rows_from(it.bytes(), it.position(), width as nat).len() == wrapped(
                content.spec_bytes(),
                width as nat,
            ).len(),
            done ==> it.position() >= it.bytes().len(),
        decreases it.bytes().len() - it.position() + if done { 0int } else { 1int },
    {
        match it.next() {
            None => {
                done = true;
            },
            Some(_) => {
                n = n + 1;
            },
        }
    }
    n
}

/// Whether `s` is what wrapping may skip between two rows: nothing, one
/// space or one line feed.
pub open spec fn is_separator(s: Seq<u8>) -> bool {
    s.len() == 0 || (s.len() == 1 && (s[0] == SPACE || s[0] == NEWLINE))
}

/// The bytes between the end of row `i` and the start of the next row, or
/// the end of the text after the last row.
pub open spec fn skipped_after(bytes: Seq<u8>, rows: Seq<Row>, i: int) -> Seq<u8> {
    let next = if i + 1 < rows.len() {
        rows[i + 1].start as int
    } else {
        bytes.len() as int
    };
    bytes.subrange(rows[i].end as int, next)
}

/// Every row followed by what was skipped after it, in order.
pub open spec fn rejoined(bytes: Seq<u8>, rows: Seq<Row>) -> Seq<u8>
    decreases rows.len(),
{
    if rows.len() == 0 {
        Seq::empty()
    } else {
        bytes.subrange(rows[0].start as int, rows[0].end as int) + skipped_after(bytes, rows, 0)
            + rejoined(bytes, rows.drop_first())
    }
}

/// A row's end lies at or after its start and holds at most `width`
/// characters; the next row begins at its end or one separator later.
pub proof fn lemma_row_break(bytes: Seq<u8>, start: int, width: nat)
    requires
        0 <= start < bytes.len(),
        width >= 1,
    ensures
        ({
            let (end, next) = row_break(bytes, start, width);
            &&& start <= end <= next <= bytes.len()
            &&& start < next
            &&& count_chars(bytes, start, end) <= width
            &&& is_separator(bytes.subrange(end, next))
            &&& end < bytes.len() ==> starts_char(bytes[end])
            &&& end < next ==> is_leading_byte_width_1(bytes[end])
        }),
{
    let len = bytes.len() as int;
    let nl = next_newline(bytes, start);
    lemma_next_newline(bytes, start);
    if nl < len && count_chars(bytes, start, nl) <= width {
    } else if count_chars(bytes, start, len) <= width {
    } else {
        let window = char_start(bytes, start, width + 1);
        lemma_char_start(bytes, start, width + 1);
        lemma_last_space(bytes, start, window);
        match last_space(bytes, start, window) {
            Some(sp) => {
                lemma_count_split(bytes, start, sp, sp + 1);
                lemma_count_split(bytes, start, sp + 1, window);
                assert(count_chars(bytes, sp, sp + 1) == count_chars(bytes, sp, sp) + 1);
            },
            None => {
                lemma_char_start(bytes, start, width);
            },
        }
    }
}

/// Every property of the rows of `bytes[start..]` that the laws below state.
proof fn lemma_rows_from(bytes: Seq<u8>, start: int, width: nat)
    requires
        0 <= start <= bytes.len() <= usize::MAX,
        width >= 1,
    ensures
        ({
            let rows = rows_from(bytes, start, width);
            &&& rows.len() == 0 <==> start == bytes.len()
            &&& rows.len() > 0 ==> rows[0].start == start
            &&& rows.len() <= bytes.len() - start
            &&& rejoined(bytes, rows) =~= bytes.subrange(start, bytes.len() as int)
            &&& forall|i: int|
                0 <= i < rows.len() ==> {
                    &&& start <= (#[trigger] rows[i]).start <= rows[i].end <= bytes.len()
                    &&& rows[i].start < bytes.len()
                    &&& count_chars(bytes, rows[i].start as int, rows[i].end as int) <= width
                    &&& rows[i].end < bytes.len() ==> starts_char(bytes[rows[i].end as int])
                }
            &&& forall|i: int|
                0 <= i < rows.len() ==> is_separator(#[trigger] skipped_after(bytes, rows, i))
            &&& forall|i: int|
                0 <= i < rows.len() ==> (#[trigger] skipped_after(bytes, rows, i)).len() == 1
                    ==> is_leading_byte_width_1(bytes[rows[i].end as int])
            &&& forall|i: int|
                0 <= i < rows.len() - 1 ==> (#[trigger] rows[i]).end <= rows[i + 1].start
        }),
    decreases bytes.len() - start,
{
    if start < bytes.len() {
        let (end, next) = row_break(bytes, start, width);
        lemma_row_break(bytes, start, width);
        lemma_rows_from(bytes, next, width);
        let first = Row { start: start as usize, end: end as usize };
        let rest = rows_from(bytes, next, width);
        let rows = rows_from(bytes, start, width);
        assert(rows =~= seq![first] + rest);
        assert(rows.drop_first() =~= rest);
        assert(skipped_after(bytes, rows, 0) =~= bytes.subrange(end, next));
        assert forall|i: int| 0 <= i < rows.len() implies is_separator(
            #[trigger] skipped_after(bytes, rows, i),
        ) && (skipped_after(bytes, rows, i).len() == 1 ==> is_leading_byte_width_1(
            bytes[rows[i].end as int],
        )) by {
            if i > 0 {
                assert(rows[i] == rest[i - 1]);
                assert(skipped_after(bytes, rows, i) =~= skipped_after(bytes, rest, i - 1));
            }
        }
        assert forall|i: int| 0 <= i < rows.len() implies {
            &&& start <= (#[trigger] rows[i]).start <= rows[i].end <= bytes.len()
            &&& rows[i].start < bytes.len()
            &&& count_chars(bytes, rows[i].start as int, rows[i].end as int) <= width
            &&& rows[i].end < bytes.len() ==> starts_char(bytes[rows[i].end as int])
        } by {
            if i > 0 {
                assert(rows[i] == rest[i - 1]);
            }
        }
        assert forall|i: int| 0 <= i < rows.len() - 1 implies (#[trigger] rows[i]).end <= rows[i
            + 1].start by {
            assert(rows[i + 1] == rest[i]);
            if i > 0 {
                assert(rows[i] == rest[i - 1]);
            }
        }
    }
}

/// No row is wider than the width it was wrapped at, and every row is a span
/// of the text.
pub proof fn lemma_rows_fit(bytes: Seq<u8>, width: nat)
    requires
        bytes.len() <= usize::MAX,
        width >= 1,
    ensures
        forall|i: int|
            0 <= i < wrapped(bytes, width).len() ==> {
                let row = #[trigger] wrapped(bytes, width)[i];
                &&& row.start <= row.end <= bytes.len()
                &&& count_chars(bytes, row.start as int, row.end as int) <= width
            },
        wrapped(bytes, width).len() <= bytes.len(),
{
    lemma_rows_from(bytes, 0, width);
}

/// The rows, each followed by the separator that was skipped after it, make
/// up the text again: the first row begins the text, each row begins where
/// the one before and its separator end, and the last reaches the end.
pub proof fn lemma_rows_rejoin(bytes: Seq<u8>, width: nat)
    requires
        bytes.len() <= usize::MAX,
        width >= 1,
    ensures
        rejoined(bytes, wrapped(bytes, width)) == bytes,
        forall|i: int|
            0 <= i < wrapped(bytes, width).len() ==> is_separator(
                #[trigger] skipped_after(bytes, wrapped(bytes, width), i),
            ),
        wrapped(bytes, width).len() == 0 <==> bytes.len() == 0,
{
    lemma_rows_from(bytes, 0, width);
    assert(bytes.subrange(0, bytes.len() as int) =~= bytes);
}

/// In valid UTF-8 a character begins after every ASCII byte.
pub proof fn lemma_boundary_after_ascii(bytes: Seq<u8>, j: int)
    requires
        valid_utf8(bytes),
        0 <= j < bytes.len(),
        is_leading_byte_width_1(bytes[j]),
    ensures
        is_char_boundary(bytes, j),
        is_char_boundary(bytes, j + 1),
{
    is_char_boundary_iff_not_is_continuation_byte(bytes, j);
    valid_utf8_split(bytes, j);
    let suffix = bytes.subrange(j, bytes.len() as int);
    assert(suffix[0] == bytes[j]);
    assert(valid_first_scalar(suffix) && valid_utf8(pop_first_scalar(suffix)));
    let rest = pop_first_scalar(suffix);
    if j + 1 == bytes.len() {
        is_char_boundary_start_end_of_seq(bytes);
    } else {
        assert(rest.len() > 0);
        assert(rest[0] == bytes[j + 1]);
        assert(valid_first_scalar(rest));
        is_char_boundary_iff_not_is_continuation_byte(bytes, j + 1);
    }
}

/// In valid UTF-8 every row begins and ends between two characters.
pub proof fn lemma_rows_on_boundaries(bytes: Seq<u8>, width: nat)
    requires
        bytes.len() <= usize::MAX,
        valid_utf8(bytes),
        width >= 1,
    ensures
        forall|i: int|
            0 <= i < wrapped(bytes, width).len() ==> {
                let row = #[trigger] wrapped(bytes, width)[i];
                &&& is_char_boundary(bytes, row.start as int)
                &&& is_char_boundary(bytes, row.end as int)
            },
{
    let rows = wrapped(bytes, width);
    lemma_rows_from(bytes, 0, width);
    is_char_boundary_start_end_of_seq(bytes);
    assert forall|i: int| 0 <= i < rows.len() implies is_char_boundary(
        bytes,
        (#[trigger] rows[i]).end as int,
    ) by {
        if rows[i].end < bytes.len() {
            is_char_boundary_iff_not_is_continuation_byte(bytes, rows[i].end as int);
        }
    }
    assert forall|i: int| 0 <= i < rows.len() implies is_char_boundary(
        bytes,
        (#[trigger] rows[i]).start as int,
    ) by {
        if i > 0 {
            let gap = skipped_after(bytes, rows, i - 1);
            assert(is_separator(gap));
            assert(rows[i - 1].end <= rows[i].start);
            if gap.len() == 1 {
                lemma_boundary_after_ascii(bytes, rows[i - 1].end as int);
            }
        }
    }
}

/// Moving the origin of a count into a suffix.
pub proof fn lemma_count_shift(bytes: Seq<u8>, off: int, from: int, to: int)
    requires
        0 <= off,
        0 <= from <= to,
        off + to <= bytes.len(),
    ensures
        count_chars(bytes.subrange(off, bytes.len() as int), from, to) == count_chars(
            bytes,
            off + from,
            off + to,
        ),
    decreases to - from,
{
    if from < to {
        lemma_count_shift(bytes, off, from, to - 1);
    }
}

/// The count of a whole valid text is the number of characters it encodes.
pub proof fn lemma_count_is_length(bytes: Seq<u8>)
    requires
        valid_utf8(bytes),
    ensures
        count_chars(bytes, 0, bytes.len() as int) == decode_utf8(bytes).len(),
    decreases bytes.len(),
{
    if bytes.len() > 0 {
        let k = length_of_first_scalar(bytes);
        let rest = pop_first_scalar(bytes);
        lemma_count_is_length(rest);
        lemma_count_split(bytes, 0, k, bytes.len() as int);
        lemma_count_shift(bytes, k, 0, bytes.len() - k);
        assert(count_chars(bytes, 0, k) == 1) by {
            reveal_with_fuel(count_chars, 5);
        }
    }
}

/// A span of valid UTF-8 between two character boundaries is valid UTF-8, and
/// its count is the number of characters it encodes.
pub proof fn lemma_span_length(bytes: Seq<u8>, from: int, to: int)
    requires
        valid_utf8(bytes),
        0 <= from <= to <= bytes.len(),
        is_char_boundary(bytes, from),
        is_char_boundary(bytes, to),
    ensures
        valid_utf8(bytes.subrange(from, to)),
        count_chars(bytes, from, to) == decode_utf8(bytes.subrange(from, to)).len(),
{
    valid_utf8_split(bytes, from);
    let suffix = bytes.subrange(from, bytes.len() as int);
    if to < bytes.len() {
        is_char_boundary_iff_not_is_continuation_byte(bytes, to);
        assert(suffix[to - from] == bytes[to]);
        is_char_boundary_iff_not_is_continuation_byte(suffix, to - from);
    } else {
        is_char_boundary_start_end_of_seq(suffix);
    }
    valid_utf8_split(suffix, to - from);
    assert(suffix.subrange(0, to - from) =~= bytes.subrange(from, to));
    lemma_count_is_length(bytes.subrange(from, to));
    lemma_count_shift(bytes, from, 0, to - from);
    lemma_count_shift_prefix(bytes, from, to);
}

/// Wrapped at `width`, no row of a text holds more than `width` characters:
/// neither a row that ends at a space or a line feed, nor one that was cut
/// out of a longer word.
pub proof fn lemma_rows_hold_few_chars(text: Seq<char>, width: nat)
    requires
        encode_utf8(text).len() <= usize::MAX,
        width >= 1,
    ensures
        forall|i: int|
            0 <= i < wrapped(encode_utf8(text), width).len() ==> {
                let row = #[trigger] wrapped(encode_utf8(text), width)[i];
                &&& row.start <= row.end <= encode_utf8(text).len()
                &&& valid_utf8(encode_utf8(text).subrange(row.start as int, row.end as int))
                &&& decode_utf8(encode_utf8(text).subrange(row.start as int, row.end as int)).len()
                    <= width
            },
{
    let bytes = encode_utf8(text);
    let rows = wrapped(bytes, width);
    encode_utf8_valid_utf8(text);
    lemma_rows_fit(bytes, width);
    lemma_rows_on_boundaries(bytes, width);
    assert forall|i: int| 0 <= i < rows.len() implies {
        let row = #[trigger] rows[i];
        &&& row.start <= row.end <= bytes.len()
        &&& valid_utf8(bytes.subrange(row.start as int, row.end as int))
        &&& decode_utf8(bytes.subrange(row.start as int, row.end as int)).len() <= width
    } by {
        lemma_span_length(bytes, rows[i].start as int, rows[i].end as int);
    }
}

/// A character boundary of a valid text is one of each of its prefixes that
/// reaches it, when the prefix ends on a boundary too.
pub proof fn lemma_boundary_in_prefix(bytes: Seq<u8>, from: int, to: int)
    requires
        valid_utf8(bytes),
        0 <= from <= to <= bytes.len(),
        is_char_boundary(bytes, from),
        is_char_boundary(bytes, to),
    ensures
        valid_utf8(bytes.subrange(0, to)),
        is_char_boundary(bytes.subrange(0, to), from),
{
    valid_utf8_split(bytes, to);
    let prefix = bytes.subrange(0, to);
    if from < to {
        is_char_boundary_iff_not_is_continuation_byte(bytes, from);
        assert(prefix[from] == bytes[from]);
        is_char_boundary_iff_not_is_continuation_byte(prefix, from);
    } else {
        is_char_boundary_start_end_of_seq(prefix);
    }
}

/// Counting inside a span of `bytes` is counting in `bytes`.
proof fn lemma_count_shift_prefix(bytes: Seq<u8>, from: int, to: int)
    requires
        0 <= from <= to <= bytes.len(),
    ensures
        count_chars(bytes.subrange(from, to), 0, to - from) == count_chars(bytes, from, to),
    decreases to - from,
{
    if from < to {
        lemma_count_shift_prefix(bytes, from, to - 1);
        lemma_count_same(bytes.subrange(from, to), bytes.subrange(from, to - 1), to - 1 - from);
    }
}

/// Two texts that agree on their first `n` bytes have the same count there.
proof fn lemma_count_same(a: Seq<u8>, b: Seq<u8>, n: int)
    requires
        0 <= n <= a.len(),
        n <= b.len(),
        forall|i: int| 0 <= i < n ==> a[i] == b[i],
    ensures
        count_chars(a, 0, n) == count_chars(b, 0, n),
    decreases n,
{
    if n > 0 {
        lemma_count_same(a, b, n - 1);
    }
}

} // verus!
