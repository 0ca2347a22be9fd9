use cursive::event::{Callback, Event, EventResult, Key};
use cursive::printer::{DrawCmd, DrawOp, Printer};
use cursive::theme::Theme;
use cursive::vec::Vec2;
use cursive::view::id_view::IdView;
use cursive::view::stack_view::StackView;
use cursive::view::text_view::TextView;
use cursive::view::{DimensionRequest, Selector, SizeRequest, View};

/// A view that records what it is asked.
struct Probe {
    name: usize,
    min: Vec2,
    grants: bool,
    events: Vec<Event>,
    focus_calls: usize,
    layouts: Vec<Vec2>,
}

impl Probe {
    fn new(name: usize, min: Vec2) -> Probe {
        Probe { name, min, grants: true, events: Vec::new(), focus_calls: 0, layouts: Vec::new() }
    }
}

impl View for Probe {
    // The seven functions that follow are the trait's mathematical model of
    // a view. They exist for proofs only and are never called.
    fn wf(self) -> bool {
        unreachable!()
    }

    fn min_size(self, _: SizeRequest) -> Vec2 {
        unreachable!()
    }

    fn drawn(self, _: Printer) -> vstd::seq::Seq<DrawCmd> {
        unreachable!()
    }

    fn laid_out(self, _: Vec2, _: Self) -> bool {
        unreachable!()
    }

    fn handled(self, _: Event, _: Self, _: EventResult) -> bool {
        unreachable!()
    }

    fn focus_taken(self, _: Self, _: bool) -> bool {
        unreachable!()
    }

    fn found(self, _: Selector) -> Option<vstd::seq::Seq<usize>> {
        unreachable!()
    }

    fn draw(&self, printer: &Printer) -> Vec<DrawOp> {
        let label = if printer.focused { "active" } else { "idle" };
        printer.print(Vec2::new(0, 0), label)
    }

    fn on_event(&mut self, event: Event) -> EventResult {
        self.events.push(event);
        EventResult::Consumed(Some(Callback { id: self.name }))
    }

    fn layout(&mut self, size: Vec2) {
        self.layouts.push(size);
    }

    fn get_min_size(&self, _req: SizeRequest) -> Vec2 {
        self.min
    }

    fn take_focus(&mut self) -> bool {
        self.focus_calls += 1;
        self.grants
    }

    fn find(&self, _selector: &Selector) -> Option<Vec<usize>> {
        None
    }
}

fn printer(x: usize, y: usize) -> Printer {
    Printer::new(Vec2::new(x, y), Theme { shadow: false })
}

fn text(x: usize, y: usize, s: &str) -> DrawOp {
    DrawOp::Print { pos: Vec2::new(x, y), text: s.to_string() }
}

fn any() -> SizeRequest {
    SizeRequest { w: DimensionRequest::Unknown, h: DimensionRequest::Unknown }
}

fn three() -> StackView<Probe> {
    let mut stack = StackView::new();
    stack.add_layer(Probe::new(1, Vec2::new(4, 2)));
    stack.add_layer(Probe::new(2, Vec2::new(6, 1)));
    stack.add_layer(Probe::new(3, Vec2::new(2, 5)));
    stack
}

fn events_of(stack: &StackView<Probe>) -> Vec<usize> {
    (0..stack.len()).map(|i| stack.layer(i).unwrap().view.events.len()).collect()
}

#[test]
fn a_new_stack_is_empty() {
    let stack: StackView<Probe> = StackView::new();
    assert_eq!(stack.len(), 0);
    assert!(stack.layer(0).is_none());
}

#[test]
fn add_layer_puts_a_new_layer_on_top() {
    let mut stack = StackView::new();
    stack.add_layer(Probe::new(1, Vec2::new(4, 2)));
    stack.add_layer(Probe::new(2, Vec2::new(6, 1)));
    assert_eq!(stack.len(), 2);
    let top = stack.layer(1).unwrap();
    assert_eq!(top.view.name, 2);
    assert_eq!(top.size, Vec2::new(0, 0));
    assert!(top.virgin);
    assert_eq!(stack.layer(0).unwrap().view.name, 1);
    assert!(stack.layer(2).is_none());
}

#[test]
fn events_go_to_the_top_layer_only() {
    let mut stack = three();
    let result = stack.on_event(Event::KeyEvent(Key::Enter));
    assert_eq!(result, EventResult::Consumed(Some(Callback { id: 3 })));
    assert_eq!(events_of(&stack), vec![0, 0, 1]);
    assert_eq!(stack.layer(2).unwrap().view.events, vec![Event::KeyEvent(Key::Enter)]);
}

#[test]
fn after_a_pop_events_go_to_the_layer_below() {
    let mut stack = three();
    stack.on_event(Event::CharEvent('a'));
    stack.pop_layer();
    assert_eq!(stack.len(), 2);
    let result = stack.on_event(Event::CharEvent('b'));
    assert_eq!(result, EventResult::Consumed(Some(Callback { id: 2 })));
    assert_eq!(events_of(&stack), vec![0, 1]);
    assert_eq!(stack.layer(1).unwrap().view.events, vec![Event::CharEvent('b')]);
}

#[test]
fn an_empty_stack_is_neutral() {
    let mut stack = three();
    stack.pop_layer();
    stack.pop_layer();
    stack.pop_layer();
    assert_eq!(stack.len(), 0);
    stack.pop_layer();
    assert_eq!(stack.len(), 0);
    assert_eq!(stack.on_event(Event::KeyEvent(Key::Down)), EventResult::Ignored);
    assert_eq!(stack.on_event(Event::CharEvent('x')), EventResult::Ignored);
    assert!(!stack.take_focus());
    assert_eq!(stack.get_min_size(any()), Vec2::new(1, 1));
    assert_eq!(stack.find(&Selector::id("text")), None);
    stack.layout(Vec2::new(10, 10));
    assert_eq!(stack.draw(&printer(10, 10)), vec![]);
    assert_eq!(stack.len(), 0);
}

#[test]
fn take_focus_asks_the_top_layer_only() {
    let mut stack = three();
    assert!(stack.take_focus());
    let calls: Vec<usize> = (0..3).map(|i| stack.layer(i).unwrap().view.focus_calls).collect();
    assert_eq!(calls, vec![0, 0, 1]);
    stack.view_mut(2).grants = false;
    assert!(!stack.take_focus());
}

#[test]
fn min_size_is_the_largest_of_the_layers() {
    let stack = three();
    assert_eq!(stack.get_min_size(any()), Vec2::new(6, 5));
    let mut small = StackView::new();
    small.add_layer(Probe::new(1, Vec2::new(0, 0)));
    assert_eq!(small.get_min_size(any()), Vec2::new(1, 1));
    small.add_layer(Probe::new(2, Vec2::new(3, 0)));
    assert_eq!(small.get_min_size(any()), Vec2::new(3, 1));
}

#[test]
fn layout_gives_each_layer_what_it_asks_for_at_most() {
    let mut stack = three();
    stack.add_layer(Probe::new(4, Vec2::new(40, 3)));
    stack.layout(Vec2::new(10, 4));
    let sizes: Vec<Vec2> = (0..4).map(|i| stack.layer(i).unwrap().size).collect();
    assert_eq!(sizes, vec![Vec2::new(4, 2), Vec2::new(6, 1), Vec2::new(2, 4), Vec2::new(10, 3)]);
    for i in 0..4 {
        let layer = stack.layer(i).unwrap();
        assert_eq!(layer.view.layouts, vec![layer.size]);
    }
}

#[test]
fn a_fresh_layer_is_centered_and_focused_once() {
    let mut stack = StackView::new();
    stack.add_layer(Probe::new(1, Vec2::new(4, 2)));
    assert!(stack.layer(0).unwrap().virgin);
    stack.layout(Vec2::new(10, 10));
    {
        let layer = stack.layer(0).unwrap();
        assert_eq!(layer.size, Vec2::new(4, 2));
        assert!(!layer.virgin);
        assert_eq!(layer.view.focus_calls, 1);
        assert_eq!(layer.view.layouts, vec![Vec2::new(4, 2)]);
    }
    assert_eq!(stack.draw(&printer(10, 10)), vec![text(3, 4, "acti")]);
    // Later layouts do not offer the focus again.
    stack.layout(Vec2::new(10, 10));
    stack.layout(Vec2::new(8, 8));
    let layer = stack.layer(0).unwrap();
    assert!(!layer.virgin);
    assert_eq!(layer.view.focus_calls, 1);
    assert_eq!(layer.view.layouts.len(), 3);
}

#[test]
fn a_layer_added_later_is_focused_at_the_next_layout() {
    let mut stack = StackView::new();
    stack.add_layer(Probe::new(1, Vec2::new(4, 2)));
    stack.layout(Vec2::new(10, 10));
    stack.add_layer(Probe::new(2, Vec2::new(2, 2)));
    stack.layout(Vec2::new(10, 10));
    assert_eq!(stack.layer(0).unwrap().view.focus_calls, 1);
    assert_eq!(stack.layer(1).unwrap().view.focus_calls, 1);
    assert!(!stack.layer(1).unwrap().virgin);
}

#[test]
fn a_text_layer_is_drawn_in_the_middle() {
    let mut stack = StackView::new();
    stack.add_layer(TextView::new("abcd\nefgh"));
    let bound = SizeRequest { w: DimensionRequest::AtMost(10), h: DimensionRequest::AtMost(10) };
    assert_eq!(stack.get_min_size(bound), Vec2::new(4, 2));
    stack.layout(Vec2::new(10, 10));
    assert_eq!(stack.layer(0).unwrap().size, Vec2::new(4, 2));
    assert!(!stack.layer(0).unwrap().virgin);
    assert_eq!(stack.draw(&printer(10, 10)), vec![text(3, 4, "abcd"), text(3, 5, "efgh")]);
}

#[test]
fn only_the_top_layer_is_drawn_focused() {
    let mut stack = three();
    stack.layout(Vec2::new(10, 10));
    assert_eq!(
        stack.draw(&printer(10, 10)),
        vec![text(3, 4, "idle"), text(2, 4, "idle"), text(4, 2, "ac")]
    );
    let unfocused = printer(10, 10).sub_printer(Vec2::new(0, 0), Vec2::new(10, 10), false);
    assert_eq!(
        stack.draw(&unfocused),
        vec![text(3, 4, "idle"), text(2, 4, "idle"), text(4, 2, "id")]
    );
}

#[test]
fn a_layer_larger_than_the_printer_is_drawn_from_the_corner() {
    let mut stack = StackView::new();
    stack.add_layer(Probe::new(1, Vec2::new(8, 8)));
    stack.layout(Vec2::new(8, 8));
    assert_eq!(stack.draw(&printer(4, 4)), vec![text(0, 0, "acti")]);
}

#[test]
fn find_looks_from_the_bottom_up() {
    let mut stack = StackView::new();
    stack.add_layer(IdView::new("first", TextView::new("one")));
    stack.add_layer(IdView::new("text", TextView::new("two")));
    stack.add_layer(IdView::new("text", TextView::new("three")));
    assert_eq!(stack.find(&Selector::id("text")), Some(vec![1]));
    assert_eq!(stack.find(&Selector::id("first")), Some(vec![0]));
    assert_eq!(stack.find(&Selector::id("none")), None);
}

#[test]
fn find_goes_through_nested_stacks() {
    let mut inner = StackView::new();
    inner.add_layer(IdView::new("a", TextView::new("one")));
    inner.add_layer(IdView::new("b", TextView::new("two")));
    let mut other = StackView::new();
    other.add_layer(IdView::new("c", TextView::new("three")));
    let mut outer = StackView::new();
    outer.add_layer(other);
    outer.add_layer(inner);
    assert_eq!(outer.find(&Selector::id("b")), Some(vec![1, 1]));
    assert_eq!(outer.find(&Selector::id("c")), Some(vec![0, 0]));
    assert_eq!(outer.find(&Selector::id("d")), None);
}

#[test]
fn a_found_view_can_be_changed_in_place() {
    let mut stack = StackView::new();
    stack.add_layer(IdView::new("text", TextView::new("Tak!")));
    let path = stack.find(&Selector::id("text")).unwrap();
    assert_eq!(path, vec![0]);
    let view = stack.view_mut(path[0]).get_view_mut();
    let content: String = view.get_content().chars().rev().collect();
    view.set_content(&content);
    assert_eq!(stack.layer(0).unwrap().view.get_view().get_content(), "!kaT");
}

#[test]
fn a_tagged_view_behaves_as_its_view() {
    let mut tagged = IdView::new("text", TextView::new("hello world foo"));
    let bound = SizeRequest { w: DimensionRequest::Fixed(5), h: DimensionRequest::Unknown };
    assert_eq!(tagged.get_min_size(bound), Vec2::new(5, 3));
    tagged.layout(Vec2::new(5, 3));
    assert_eq!(
        tagged.draw(&printer(5, 3)),
        vec![text(0, 0, "hello"), text(0, 1, "world"), text(0, 2, "foo")]
    );
    assert!(!tagged.take_focus());
    assert_eq!(tagged.on_event(Event::KeyEvent(Key::Down)), EventResult::Ignored);
    assert_eq!(tagged.find(&Selector::id("text")), Some(vec![]));
    assert_eq!(tagged.find(&Selector::id("other")), None);
}

#[test]
fn scrolling_reaches_a_text_on_top_only() {
    let lines: Vec<String> = (0..30).map(|i| format!("line {}", i)).collect();
    let mut stack = StackView::new();
    stack.add_layer(TextView::new(&lines.join("\n")));
    stack.add_layer(TextView::new(&lines.join("\n")));
    stack.layout(Vec2::new(10, 5));
    assert_eq!(stack.on_event(Event::KeyEvent(Key::PageDown)), EventResult::Consumed(None));
    assert_eq!(stack.layer(0).unwrap().view.get_scroll().start_line, 0);
    assert_eq!(stack.layer(1).unwrap().view.get_scroll().start_line, 10);
    assert!(stack.take_focus());
}
