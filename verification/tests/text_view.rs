use cursive::align::{Align, HAlign, VAlign};
use cursive::event::{Event, EventResult, Key};
use cursive::lines::Row;
use cursive::printer::{DrawOp, Printer};
use cursive::theme::Theme;
use cursive::vec::Vec2;
use cursive::view::scroll::ScrollBase;
use cursive::view::text_view::{strip_last_newline, TextView};
use cursive::view::{DimensionRequest, Selector, SizeRequest, View};

fn printer(x: usize, y: usize) -> Printer {
    Printer::new(Vec2::new(x, y), Theme { shadow: false })
}

fn text(x: usize, y: usize, s: &str) -> DrawOp {
    DrawOp::Print { pos: Vec2::new(x, y), text: s.to_string() }
}

fn req(w: DimensionRequest, h: DimensionRequest) -> SizeRequest {
    SizeRequest { w, h }
}

fn key(k: Key) -> Event {
    Event::KeyEvent(k)
}

/// Thirty short lines in a view of five rows.
fn long_view() -> TextView {
    let lines: Vec<String> = (0..30).map(|i| format!("line {}", i)).collect();
    let mut view = TextView::new(&lines.join("\n"));
    view.layout(Vec2::new(10, 5));
    view
}

fn row_texts(view: &TextView) -> Vec<String> {
    (0..view.get_rows().len()).map(|i| view.row_text(i).to_string()).collect()
}

#[test]
fn strip_takes_one_trailing_line_feed() {
    assert_eq!(strip_last_newline("abc\n"), "abc");
    assert_eq!(strip_last_newline("abc\n\n"), "abc\n");
    assert_eq!(strip_last_newline("abc"), "abc");
    assert_eq!(strip_last_newline("\n"), "");
    assert_eq!(strip_last_newline(""), "");
    assert_eq!(strip_last_newline("a\nb"), "a\nb");
    assert_eq!(strip_last_newline("été\n"), "été");
}

#[test]
fn new_view_holds_the_stripped_text() {
    let view = TextView::new("Hello Dialog!\n");
    assert_eq!(view.get_content(), "Hello Dialog!");
    assert!(view.get_rows().is_empty());
    assert_eq!(view.get_scroll(), ScrollBase { start_line: 0, content_height: 0, view_height: 0 });
}

#[test]
fn set_content_then_get_content() {
    let mut view = TextView::new("first");
    view.set_content("second\n");
    assert_eq!(view.get_content(), "second");
    view.set_content("third\n\n");
    assert_eq!(view.get_content(), "third\n");
    view.set_content(" spaces kept \t");
    assert_eq!(view.get_content(), " spaces kept \t");
    view.set_content("");
    assert_eq!(view.get_content(), "");
}

#[test]
fn set_content_drops_the_rows() {
    let mut view = long_view();
    assert_eq!(view.get_rows().len(), 30);
    view.on_event(key(Key::End));
    view.set_content("short");
    assert!(view.get_rows().is_empty());
    assert_eq!(view.get_scroll(), ScrollBase { start_line: 0, content_height: 0, view_height: 5 });
    assert_eq!(view.draw(&printer(10, 5)), vec![]);
    view.layout(Vec2::new(10, 5));
    assert_eq!(row_texts(&view), vec!["short"]);
}

#[test]
fn layout_wraps_at_the_width() {
    let mut view = TextView::new("hello world foo");
    view.layout(Vec2::new(5, 3));
    assert_eq!(
        view.get_rows(),
        &vec![Row { start: 0, end: 5 }, Row { start: 6, end: 11 }, Row { start: 12, end: 15 }]
    );
    assert_eq!(row_texts(&view), vec!["hello", "world", "foo"]);
    assert_eq!(view.get_scroll(), ScrollBase { start_line: 0, content_height: 3, view_height: 3 });
}

#[test]
fn layout_leaves_two_columns_when_it_scrolls() {
    let mut view = TextView::new("hello world foo bar");
    view.layout(Vec2::new(11, 1));
    // At 11 columns the text takes two rows, which is more than one: it is
    // wrapped again at 9.
    assert_eq!(row_texts(&view), vec!["hello", "world foo", "bar"]);
    assert_eq!(view.get_scroll(), ScrollBase { start_line: 0, content_height: 3, view_height: 1 });
}

#[test]
fn layout_in_a_degenerate_size() {
    let mut view = TextView::new("abc");
    view.layout(Vec2::new(0, 0));
    assert_eq!(row_texts(&view), vec!["a", "b", "c"]);
    view.layout(Vec2::new(2, 1));
    assert_eq!(row_texts(&view), vec!["a", "b", "c"]);
    let mut empty = TextView::new("");
    empty.layout(Vec2::new(0, 0));
    assert!(empty.get_rows().is_empty());
}

#[test]
fn min_size_without_constraint_is_the_ideal_size() {
    let view = TextView::new("hello world foo");
    let unknown = DimensionRequest::Unknown;
    assert_eq!(view.get_min_size(req(unknown, unknown)), Vec2::new(15, 1));
    assert_eq!(view.get_ideal_size(), Vec2::new(15, 1));
    let view = TextView::new("ab\ncde\nf");
    assert_eq!(view.get_min_size(req(unknown, unknown)), Vec2::new(3, 3));
    let view = TextView::new("héllo\nwörld!");
    assert_eq!(view.get_ideal_size(), Vec2::new(6, 2));
    let view = TextView::new("");
    assert_eq!(view.get_ideal_size(), Vec2::new(0, 1));
    let view = TextView::new("a\n\n");
    assert_eq!(view.get_ideal_size(), Vec2::new(1, 2));
}

#[test]
fn min_size_with_a_fixed_width() {
    let view = TextView::new("hello world foo");
    let unknown = DimensionRequest::Unknown;
    assert_eq!(view.get_min_size(req(DimensionRequest::Fixed(5), unknown)), Vec2::new(5, 3));
    assert_eq!(view.get_min_size(req(DimensionRequest::Fixed(9), unknown)), Vec2::new(9, 2));
    assert_eq!(view.get_min_size(req(DimensionRequest::Fixed(40), unknown)), Vec2::new(40, 1));
    assert_eq!(
        view.get_min_size(req(DimensionRequest::Fixed(5), DimensionRequest::AtMost(2))),
        Vec2::new(5, 3)
    );
    assert_eq!(view.get_num_lines(5), 3);
    assert_eq!(view.get_num_lines(0), view.get_num_lines(1));
}

#[test]
fn min_size_with_both_fixed() {
    let view = TextView::new("hello world foo");
    assert_eq!(
        view.get_min_size(req(DimensionRequest::Fixed(4), DimensionRequest::Fixed(7))),
        Vec2::new(4, 7)
    );
}

#[test]
fn min_size_with_a_fixed_height() {
    let view = TextView::new("hello world foo");
    let unknown = DimensionRequest::Unknown;
    assert_eq!(view.get_min_size(req(unknown, DimensionRequest::Fixed(3))), Vec2::new(5, 3));
    assert_eq!(view.get_min_size(req(unknown, DimensionRequest::Fixed(2))), Vec2::new(9, 2));
    assert_eq!(view.get_min_size(req(unknown, DimensionRequest::Fixed(1))), Vec2::new(15, 1));
    assert_eq!(
        view.get_min_size(req(DimensionRequest::AtMost(4), DimensionRequest::Fixed(2))),
        Vec2::new(9, 2)
    );
    assert_eq!(view.get_num_cols(3), 5);
    assert_eq!(view.get_num_cols(2), 9);
}

#[test]
fn min_size_with_a_height_that_cannot_be_met() {
    let unknown = DimensionRequest::Unknown;
    let view = TextView::new("a\nb\nc");
    assert_eq!(view.get_min_size(req(unknown, DimensionRequest::Fixed(1))), Vec2::new(5, 1));
    assert_eq!(view.get_min_size(req(unknown, DimensionRequest::Fixed(0))), Vec2::new(5, 0));
    let view = TextView::new("");
    assert_eq!(view.get_min_size(req(unknown, DimensionRequest::Fixed(0))), Vec2::new(0, 0));
    assert_eq!(view.get_min_size(req(unknown, DimensionRequest::Fixed(3))), Vec2::new(0, 3));
}

#[test]
fn min_size_with_a_soft_width() {
    let view = TextView::new("hello world foo");
    let unknown = DimensionRequest::Unknown;
    assert_eq!(view.get_min_size(req(DimensionRequest::AtMost(20), unknown)), Vec2::new(15, 1));
    assert_eq!(view.get_min_size(req(DimensionRequest::AtMost(15), unknown)), Vec2::new(15, 1));
    assert_eq!(view.get_min_size(req(DimensionRequest::AtMost(5), unknown)), Vec2::new(5, 3));
    assert_eq!(
        view.get_min_size(req(DimensionRequest::AtMost(5), DimensionRequest::AtMost(1))),
        Vec2::new(5, 3)
    );
}

#[test]
fn min_size_with_a_soft_height_alone() {
    let view = TextView::new("hello world foo");
    assert_eq!(
        view.get_min_size(req(DimensionRequest::Unknown, DimensionRequest::AtMost(1))),
        Vec2::new(15, 1)
    );
}

#[test]
fn min_size_is_the_same_when_asked_again() {
    let view = TextView::new("hello world foo");
    let r = req(DimensionRequest::AtMost(7), DimensionRequest::AtMost(2));
    let first = view.get_min_size(r);
    assert_eq!(view.get_min_size(r), first);
    assert_eq!(view.get_min_size(r), first);
    assert!(view.get_rows().is_empty());
}

#[test]
fn a_view_that_fits_ignores_every_key() {
    let mut view = TextView::new("hello world foo");
    view.layout(Vec2::new(5, 3));
    assert!(!view.take_focus());
    for k in [Key::Home, Key::End, Key::Up, Key::Down, Key::PageUp, Key::PageDown, Key::Enter] {
        assert_eq!(view.on_event(key(k)), EventResult::Ignored);
        assert_eq!(view.get_scroll().start_line, 0);
    }
    assert_eq!(view.on_event(Event::CharEvent('q')), EventResult::Ignored);
}

#[test]
fn a_view_that_was_not_laid_out_ignores_every_key() {
    let mut view = TextView::new("hello world foo");
    assert!(!view.take_focus());
    assert_eq!(view.on_event(key(Key::Down)), EventResult::Ignored);
}

#[test]
fn a_long_view_takes_the_focus() {
    let mut view = long_view();
    assert!(view.take_focus());
    assert_eq!(view.get_scroll(), ScrollBase { start_line: 0, content_height: 30, view_height: 5 });
}

#[test]
fn arrows_scroll_by_one_row() {
    let mut view = long_view();
    assert_eq!(view.on_event(key(Key::Up)), EventResult::Ignored);
    assert_eq!(view.get_scroll().start_line, 0);
    assert_eq!(view.on_event(key(Key::Down)), EventResult::Consumed(None));
    assert_eq!(view.get_scroll().start_line, 1);
    assert_eq!(view.on_event(key(Key::Down)), EventResult::Consumed(None));
    assert_eq!(view.get_scroll().start_line, 2);
    assert_eq!(view.on_event(key(Key::Up)), EventResult::Consumed(None));
    assert_eq!(view.get_scroll().start_line, 1);
    assert_eq!(view.on_event(key(Key::End)), EventResult::Consumed(None));
    assert_eq!(view.on_event(key(Key::Down)), EventResult::Ignored);
    assert_eq!(view.get_scroll().start_line, 25);
}

#[test]
fn page_down_rises_until_the_bottom() {
    let mut view = long_view();
    let mut seen = Vec::new();
    for _ in 0..5 {
        assert_eq!(view.on_event(key(Key::PageDown)), EventResult::Consumed(None));
        seen.push(view.get_scroll().start_line);
    }
    assert_eq!(seen, vec![10, 20, 25, 25, 25]);
}

#[test]
fn page_up_falls_until_the_top() {
    let mut view = long_view();
    view.on_event(key(Key::End));
    let mut seen = Vec::new();
    for _ in 0..4 {
        assert_eq!(view.on_event(key(Key::PageUp)), EventResult::Consumed(None));
        seen.push(view.get_scroll().start_line);
    }
    assert_eq!(seen, vec![15, 5, 0, 0]);
}

#[test]
fn home_and_end_jump() {
    let mut view = long_view();
    view.on_event(key(Key::PageDown));
    view.on_event(key(Key::Down));
    assert_eq!(view.get_scroll().start_line, 11);
    assert_eq!(view.on_event(key(Key::Home)), EventResult::Consumed(None));
    assert_eq!(view.get_scroll().start_line, 0);
    assert_eq!(view.on_event(key(Key::End)), EventResult::Consumed(None));
    assert_eq!(view.get_scroll().start_line, 25);
    assert_eq!(view.on_event(key(Key::Home)), EventResult::Consumed(None));
    assert_eq!(view.get_scroll().start_line, 0);
}

#[test]
fn other_keys_are_ignored_by_a_long_view() {
    let mut view = long_view();
    view.on_event(key(Key::Down));
    assert_eq!(view.on_event(key(Key::Enter)), EventResult::Ignored);
    assert_eq!(view.on_event(key(Key::Left)), EventResult::Ignored);
    assert_eq!(view.on_event(Event::CharEvent(' ')), EventResult::Ignored);
    assert_eq!(view.get_scroll().start_line, 1);
}

#[test]
fn a_new_layout_keeps_the_window_in_the_content() {
    let mut view = long_view();
    view.on_event(key(Key::End));
    view.layout(Vec2::new(10, 20));
    assert_eq!(view.get_scroll(), ScrollBase { start_line: 10, content_height: 30, view_height: 20 });
    view.layout(Vec2::new(10, 40));
    assert_eq!(view.get_scroll(), ScrollBase { start_line: 0, content_height: 30, view_height: 40 });
}

#[test]
fn draw_prints_each_row() {
    let mut view = TextView::new("hello world foo");
    view.layout(Vec2::new(5, 3));
    assert_eq!(
        view.draw(&printer(5, 3)),
        vec![text(0, 0, "hello"), text(0, 1, "world"), text(0, 2, "foo")]
    );
}

#[test]
fn draw_aligns_the_rows() {
    let mut view = TextView::new("hello world foo").h_align(HAlign::Right).v_align(VAlign::Bottom);
    view.layout(Vec2::new(9, 5));
    assert_eq!(row_texts(&view), vec!["hello", "world foo"]);
    assert_eq!(view.draw(&printer(9, 5)), vec![text(4, 3, "hello"), text(0, 4, "world foo")]);
    let mut view = TextView::new("hello world foo").align(Align::center());
    view.layout(Vec2::new(10, 6));
    assert_eq!(view.draw(&printer(10, 6)), vec![text(2, 2, "hello"), text(0, 3, "world foo")]);
}

#[test]
fn draw_shows_the_rows_in_view() {
    let mut view = long_view();
    view.on_event(key(Key::PageDown));
    assert_eq!(
        view.draw(&printer(10, 5)),
        vec![
            text(0, 0, "line 10"),
            text(0, 1, "line 11"),
            text(0, 2, "line 12"),
            text(0, 3, "line 13"),
            text(0, 4, "line 14"),
        ]
    );
}

#[test]
fn draw_keeps_clear_of_the_scroll_bar() {
    let mut view = TextView::new("abcdefgh\nij\nkl");
    view.layout(Vec2::new(8, 2));
    // Three rows in two: wrapped again at 6 columns.
    assert_eq!(row_texts(&view), vec!["abcdef", "gh", "ij", "kl"]);
    assert_eq!(view.draw(&printer(8, 2)), vec![text(0, 0, "abcdef"), text(0, 1, "gh")]);
    // On a narrower printer the rows are cut two columns before its edge.
    assert_eq!(view.draw(&printer(6, 2)), vec![text(0, 0, "abcd"), text(0, 1, "gh")]);
}

#[test]
fn draw_does_not_change_the_view() {
    let mut view = long_view();
    view.on_event(key(Key::Down));
    let before = view.get_scroll();
    let first = view.draw(&printer(10, 5));
    assert_eq!(view.draw(&printer(10, 5)), first);
    assert_eq!(view.get_scroll(), before);
}

#[test]
fn a_text_view_holds_no_tag() {
    let view = TextView::new("hello");
    assert_eq!(view.find(&Selector::id("text")), None);
}

#[test]
fn scroll_base_keeps_its_place() {
    let mut s = ScrollBase::new();
    assert!(!s.scrollable());
    s.set_heights(5, 30);
    assert!(s.scrollable());
    assert!(!s.can_scroll_up());
    assert!(s.can_scroll_down());
    s.scroll_down(7);
    assert_eq!(s.start_line, 7);
    s.scroll_up(3);
    assert_eq!(s.start_line, 4);
    s.scroll_up(30);
    assert_eq!(s.start_line, 0);
    s.scroll_down(usize::MAX);
    assert_eq!(s.start_line, 25);
    assert!(!s.can_scroll_down());
    s.set_heights(5, 12);
    assert_eq!(s.start_line, 7);
    s.scroll_top();
    assert_eq!(s.start_line, 0);
    s.scroll_bottom();
    assert_eq!(s.start_line, 7);
    s.set_heights(12, 12);
    assert_eq!(s.start_line, 0);
    s.scroll_bottom();
    assert_eq!(s.start_line, 0);
}

#[test]
fn scroll_base_draws_the_rows_in_view() {
    let mut s = ScrollBase::new();
    s.set_heights(2, 5);
    s.scroll_down(2);
    let p = printer(10, 4).sub_printer(Vec2::new(1, 1), Vec2::new(8, 3), true);
    let ops = s.draw(&p, |row, i| {
        assert_eq!(row.size, Vec2::new(6, 1));
        row.print(Vec2::new(0, 0), &format!("row {}", i))
    });
    assert_eq!(ops, vec![text(1, 1, "row 2"), text(1, 2, "row 3")]);
}
