//! A stack of views, of which only the top one is active.

use vstd::prelude::*;
use vstd::view::View as _;
use crate::event::{Event, EventResult};
use crate::printer::{append_ops, cmds, DrawCmd, DrawOp, Printer};
use crate::vec::Vec2;
use crate::view::{DimensionRequest, Selector, SizeRequest, View};

verus! {

/// The request that a stack of the given size hands to its layers.
pub open spec fn at_most(size: Vec2) -> SizeRequest {
    SizeRequest { w: DimensionRequest::AtMost(size.x), h: DimensionRequest::AtMost(size.y) }
}

/// Where a layer of the given size begins, so that it sits in the middle of
/// the area.
pub open spec fn centered(area: Vec2, size: Vec2) -> Vec2 {
    area.spec_minus(size).spec_half()
}

/// One view of the stack.
pub struct Layer<V> {
    pub view: V,
    /// The size that the last layout gave the view.
    pub size: Vec2,
    /// Whether the view has yet to be offered the focus: true from the
    /// moment it is added until its first layout.
    pub virgin: bool,
}

impl<V: View> Layer<V> {
    /// `after` is this layer once the stack was laid out in `size`: the view
    /// has the smaller of `size` and what it asked for, and was offered the
    /// focus if, and only if, this was its first layout.
    pub open spec fn laid_out(self, size: Vec2, after: Layer<V>) -> bool {
        let own = Vec2::spec_min(size, self.view.min_size(at_most(size)));
        &&& after.size == own
        &&& !after.virgin
        &&& if self.virgin {
            exists|mid: V, accepted: bool|
                self.view.laid_out(own, mid) && mid.wf() && #[trigger] mid.focus_taken(
                    after.view,
                    accepted,
                )
        } else {
            self.view.laid_out(own, after.view)
        }
    }

    /// Lays the layer out for a stack of the given size.
    pub fn layout(&mut self, size: Vec2)
        requires
            old(self).view.wf(),
        ensures
            final(self).view.wf(),
            old(self).laid_out(size, *final(self)),
    {
        let req = SizeRequest {
            w: DimensionRequest::AtMost(size.x),
            h: DimensionRequest::AtMost(size.y),
        };
        self.size = Vec2::min(size, self.view.get_min_size(req));
        self.view.layout(self.size);
        if self.virgin {
            let ghost mid = self.view;
            let accepted = self.view.take_focus();
            self.virgin = false;
            assert(mid.focus_taken(self.view, accepted));
        }
    }
}

/// What drawing the first `n` layers emits: each layer in the middle of the
/// printer's area, and only the last layer of the stack focused.
pub open spec fn layers_drawn<V: View>(layers: Seq<Layer<V>>, printer: Printer, n: int) -> Seq<
    DrawCmd,
>
    decreases n,
{
    if n <= 0 {
        Seq::empty()
    } else {
        let layer = layers[n - 1];
        layers_drawn(layers, printer, n - 1) + layer.view.drawn(
            printer.sub(centered(printer.size, layer.size), layer.size, n == layers.len()),
        )
    }
}

/// The largest width and the largest height that any of the first `n` layers
/// asks for, and 1 at least.
pub open spec fn largest<V: View>(layers: Seq<Layer<V>>, req: SizeRequest, n: int) -> Vec2
    decreases n,
{
    if n <= 0 {
        Vec2 { x: 1, y: 1 }
    } else {
        Vec2::spec_max(largest(layers, req, n - 1), layers[n - 1].view.min_size(req))
    }
}

/// The way to the tagged view in the first layer, from layer `i` on, that
/// holds it.
pub open spec fn found_from<V: View>(layers: Seq<Layer<V>>, selector: Selector, i: int) -> Option<
    Seq<usize>,
>
    decreases layers.len() - i,
{
    if i < 0 || i >= layers.len() {
        None
    } else {
        match layers[i].view.found(selector) {
            Some(path) => Some(seq![i as usize] + path),
            None => found_from(layers, selector, i + 1),
        }
    }
}

/// Simple stack of views.
/// Only the top-most view is active and can receive input.
pub struct StackView<V> {
    layers: Vec<Layer<V>>,
}

impl<V: View> StackView<V> {
    /// The layers, bottom first.
    pub closed spec fn layers(&self) -> Seq<Layer<V>> {
        self.layers@
    }

    /// Creates a new empty StackView
    pub fn new() -> (stack: Self)
        ensures
            stack.layers() == Seq::<Layer<V>>::empty(),
            stack.wf(),
    {
        StackView { layers: Vec::new() }
    }

    /// Add new view on top of the stack.
    pub fn add_layer(&mut self, view: V)
        requires
            old(self).wf(),
            view.wf(),
        ensures
            final(self).layers() == old(self).layers().push(
                Layer { view: view, size: Vec2 { x: 0, y: 0 }, virgin: true },
            ),
            final(self).wf(),
    {
        self.layers.push(Layer { view: view, size: Vec2::new(0, 0), virgin: true });
        assert forall|i: int| 0 <= i < self.layers().len() implies (#[trigger] self.layers()[i]).view.wf() by {
            if i < old(self).layers().len() {
                assert(self.layers()[i] == old(self).layers()[i]);
            }
        }
    }

    /// Remove the top-most layer. An empty stack stays empty.
    pub fn pop_layer(&mut self)
        ensures
            old(self).layers().len() > 0 ==> final(self).layers() == old(self).layers().drop_last(),
            old(self).layers().len() == 0 ==> final(self).layers() == old(self).layers(),
            old(self).wf() ==> final(self).wf(),
    {
        self.layers.pop();
    }

    /// The number of layers.
    pub fn len(&self) -> (n: usize)
        ensures
            n == self.layers().len(),
    {
        self.layers.len()
    }

    /// The view of the layer with the given number, to be changed in place.
    pub fn view_mut(&mut self, i: usize) -> (view: &mut V)
        requires
            i < old(self).layers().len(),
        ensures
            *view == old(self).layers()[i as int].view,
            final(self).layers() == old(self).layers().update(
                i as int,
                Layer {
                    view: *final(view),
                    size: old(self).layers()[i as int].size,
                    virgin: old(self).layers()[i as int].virgin,
                },
            ),
    {
        &mut self.layers[i].view
    }

    /// The layer with the given number, the bottom layer being number 0.
    pub fn layer(&self, i: usize) -> (layer: Option<&Layer<V>>)
        ensures
            i < self.layers().len() ==> layer == Some(&self.layers()[i as int]),
            i >= self.layers().len() ==> layer is None,
    {
        if i < self.layers.len() {
            Some(&self.layers[i])
        } else {
            None
        }
    }
}

impl<V: View> View for StackView<V> {
    /// Every layer's view is consistent.
    open spec fn wf(self) -> bool {
        forall|i: int| 0 <= i < self.layers().len() ==> (#[trigger] self.layers()[i]).view.wf()
    }

    /// The largest of what the layers ask for, and (1, 1) at least.
    open spec fn min_size(self, req: SizeRequest) -> Vec2 {
        largest(self.layers(), req, self.layers().len() as int)
    }

    /// Every layer, bottom first.
    open spec fn drawn(self, printer: Printer) -> Seq<DrawCmd> {
        layers_drawn(self.layers(), printer, self.layers().len() as int)
    }

    /// Every layer is laid out.
    open spec fn laid_out(self, size: Vec2, after: StackView<V>) -> bool {
        &&& after.layers().len() == self.layers().len()
        &&& forall|i: int|
            #![trigger self.layers()[i]]
            #![trigger after.layers()[i]]
            0 <= i < self.layers().len() ==> self.layers()[i].laid_out(size, after.layers()[i])
    }

    /// The top layer's view handles the event, and nothing else changes; an
    /// empty stack ignores it.
    open spec fn handled(self, event: Event, after: StackView<V>, result: EventResult) -> bool {
        let n = self.layers().len() as int;
        if n == 0 {
            after.layers() == self.layers() && result == EventResult::Ignored
        } else {
            &&& after.layers().len() == n
            &&& forall|i: int| 0 <= i < n - 1 ==> #[trigger] after.layers()[i] == self.layers()[i]
            &&& after.layers()[n - 1].size == self.layers()[n - 1].size
            &&& after.layers()[n - 1].virgin == self.layers()[n - 1].virgin
            &&& self.layers()[n - 1].view.handled(event, after.layers()[n - 1].view, result)
        }
    }

    /// The top layer's view is offered the focus, and nothing else changes;
    /// an empty stack refuses it.
    open spec fn focus_taken(self, after: StackView<V>, accepted: bool) -> bool {
        let n = self.layers().len() as int;
        if n == 0 {
            after.layers() == self.layers() && !accepted
        } else {
            &&& after.layers().len() == n
            &&& forall|i: int| 0 <= i < n - 1 ==> #[trigger] after.layers()[i] == self.layers()[i]
            &&& after.layers()[n - 1].size == self.layers()[n - 1].size
            &&& after.layers()[n - 1].virgin == self.layers()[n - 1].virgin
            &&& self.layers()[n - 1].view.focus_taken(after.layers()[n - 1].view, accepted)
        }
    }

    /// The tag is looked for layer by layer, bottom first.
    open spec fn found(self, selector: Selector) -> Option<Seq<usize>> {
        found_from(self.layers(), selector, 0)
    }

    fn draw(&self, printer: &Printer) -> (ops: Vec<DrawOp>)
        ensures
            cmds(ops@) == layers_drawn(self.layers(), *printer, self.layers().len() as int),
    {
        let last: usize = self.layers.len();
        let mut ops: Vec<DrawOp> = Vec::new();
        let mut i: usize = 0;
        while i < last
            invariant
                i <= last,
                last == self.layers().len(),
                self.wf(),
                printer.wf(),
                cmds(ops@) == layers_drawn(self.layers(), *printer, i as int),
            decreases last - i,
        {
            let layer = &self.layers[i];
            // Center the view
            let size = layer.size;
            let offset = printer.size.minus(size).half();
            let sub = printer.sub_printer(offset, size, i + 1 == last);
            assert(self.layers()[i as int].view.wf());
            let more = layer.view.draw(&sub);
            append_ops(&mut ops, more);
            i = i + 1;
        }
        ops
    }

    fn on_event(&mut self, event: Event) -> (result: EventResult)
        ensures
            final(self).layers().len() == old(self).layers().len(),
            old(self).layers().len() == 0 ==> result == EventResult::Ignored && final(self).layers()
                == old(self).layers(),
            old(self).layers().len() > 0 ==> {
                &&& final(self).layers().drop_last() == old(self).layers().drop_last()
                &&& final(self).layers().last().size == old(self).layers().last().size
                &&& final(self).layers().last().virgin == old(self).layers().last().virgin
                &&& old(self).layers().last().view.handled(
                    event,
                    final(self).layers().last().view,
                    result,
                )
            },
    {
        let n: usize = self.layers.len();
        if n == 0 {
            return EventResult::Ignored;
        }
        assert(self.layers()[n - 1].view.wf());
        let result = self.layers[n - 1].view.on_event(event);
        assert(self.layers().drop_last() =~= old(self).layers().drop_last());
        result
    }

    fn layout(&mut self, size: Vec2)
        ensures
            final(self).layers().len() == old(self).layers().len(),
            forall|i: int|
                #![trigger old(self).layers()[i]]
                #![trigger final(self).layers()[i]]
                0 <= i < old(self).layers().len() ==> old(self).layers()[i].laid_out(
                    size,
                    final(self).layers()[i],
                ),
    {
        let n: usize = self.layers.len();
        let mut i: usize = 0;
        while i < n
            invariant
                i <= n,
                n == self.layers().len(),
                n == old(self).layers().len(),
                self.wf(),
                forall|j: int|
                    0 <= j < i ==> (#[trigger] old(self).layers()[j]).laid_out(
                        size,
                        self.layers()[j],
                    ),
                forall|j: int| i <= j < n ==> #[trigger] self.layers()[j] == old(self).layers()[j],
            decreases n - i,
        {
            assert(self.layers()[i as int].view.wf());
            self.layers[i].layout(size);
            i = i + 1;
        }
    }

    fn get_min_size(&self, req: SizeRequest) -> (size: Vec2)
        ensures
            size == largest(self.layers(), req, self.layers().len() as int),
    {
        // The min size is the max of all children's
        let mut s = Vec2::new(1, 1);
        let n: usize = self.layers.len();
        let mut i: usize = 0;
        while i < n
            invariant
                i <= n,
                n == self.layers().len(),
                self.wf(),
                s == largest(self.layers(), req, i as int),
            decreases n - i,
        {
            assert(self.layers()[i as int].view.wf());
            let vs = self.layers[i].view.get_min_size(req);
            s = Vec2::max(s, vs);
            i = i + 1;
        }
        s
    }

    fn take_focus(&mut self) -> (accepted: bool)
        ensures
            final(self).layers().len() == old(self).layers().len(),
            old(self).layers().len() == 0 ==> !accepted && final(self).layers() == old(
                self,
            ).layers(),
            old(self).layers().len() > 0 ==> {
                &&& final(self).layers().drop_last() == old(self).layers().drop_last()
                &&& final(self).layers().last().size == old(self).layers().last().size
                &&& final(self).layers().last().virgin == old(self).layers().last().virgin
                &&& old(self).layers().last().view.focus_taken(
                    final(self).layers().last().view,
                    accepted,
                )
            },
    {
        let n: usize = self.layers.len();
        if n == 0 {
            return false;
        }
        assert(self.layers()[n - 1].view.wf());
        let accepted = self.layers[n - 1].view.take_focus();
        assert(self.layers().drop_last() =~= old(self).layers().drop_last());
        accepted
    }

    fn find(&self, selector: &Selector) -> (path: Option<Vec<usize>>)
        ensures
            match path {
                Some(p) => found_from(self.layers(), *selector, 0) == Some(p@),
                None => found_from(self.layers(), *selector, 0) is None,
            },
    {
        let n: usize = self.layers.len();
        let mut i: usize = 0;
        while i < n
            invariant
                i <= n,
                n == self.layers().len(),
                self.wf(),
                found_from(self.layers(), *selector, 0) == found_from(
                    self.layers(),
                    *selector,
                    i as int,
                ),
            decreases n - i,
        {
            assert(self.layers()[i as int].view.wf());
            match self.layers[i].view.find(selector) {
                Some(rest) => {
                    let mut rest = rest;
                    let mut path: Vec<usize> = Vec::new();
                    path.push(i);
                    path.append(&mut rest);
                    return Some(path);
                },
                None => {},
            }
            i = i + 1;
        }
        None
    }
}

/// What a stack asks for is at least one cell, and at least as wide and as
/// high as what each of its layers asks for.
pub proof fn lemma_largest_covers_every_layer<V: View>(
    layers: Seq<Layer<V>>,
    req: SizeRequest,
    n: int,
)
    requires
        0 <= n <= layers.len(),
    ensures
        largest(layers, req, n).x >= 1,
        largest(layers, req, n).y >= 1,
        forall|i: int|
            0 <= i < n ==> {
                &&& largest(layers, req, n).x >= (#[trigger] layers[i]).view.min_size(req).x
                &&& largest(layers, req, n).y >= layers[i].view.min_size(req).y
            },
    decreases n,
{
    if n > 0 {
        lemma_largest_covers_every_layer(layers, req, n - 1);
    }
}

/// An empty stack ignores every event, refuses the focus, finds nothing and
/// asks for one cell.
pub proof fn lemma_empty_stack_is_neutral<V: View>(
    stack: StackView<V>,
    after: StackView<V>,
    event: Event,
    result: EventResult,
    accepted: bool,
    req: SizeRequest,
    selector: Selector,
)
    requires
        stack.layers().len() == 0,
    ensures
        stack.handled(event, after, result) <==> after.layers() == stack.layers() && result
            == EventResult::Ignored,
        stack.focus_taken(after, accepted) <==> after.layers() == stack.layers() && !accepted,
        stack.min_size(req) == (Vec2 { x: 1, y: 1 }),
        stack.found(selector) is None,
{
}

/// An event reaches the top layer and no other: every layer below is after
/// the event what it was before, and the top layer's view is after the event
/// what its own handling of the event made of it.
pub proof fn lemma_event_goes_to_top<V: View>(
    stack: StackView<V>,
    event: Event,
    after: StackView<V>,
    result: EventResult,
)
    requires
        stack.layers().len() > 0,
        stack.handled(event, after, result),
    ensures
        after.layers().len() == stack.layers().len(),
        after.layers().drop_last() == stack.layers().drop_last(),
        stack.layers().last().view.handled(event, after.layers().last().view, result),
{
    assert(after.layers().drop_last() =~= stack.layers().drop_last());
}

/// Once the top layer is popped, an event reaches the layer that was below
/// it and no other.
pub proof fn lemma_event_after_pop<V: View>(
    stack: StackView<V>,
    popped: StackView<V>,
    event: Event,
    after: StackView<V>,
    result: EventResult,
)
    requires
        stack.layers().len() >= 2,
        popped.layers() == stack.layers().drop_last(),
        popped.handled(event, after, result),
    ensures
        after.layers().len() == stack.layers().len() - 1,
        forall|i: int|
            0 <= i < stack.layers().len() - 2 ==> #[trigger] after.layers()[i] == stack.layers()[i],
        stack.layers()[stack.layers().len() - 2].view.handled(
            event,
            after.layers().last().view,
            result,
        ),
{
    let n = stack.layers().len() as int;
    assert(popped.layers()[n - 2] == stack.layers()[n - 2]);
    assert forall|i: int| 0 <= i < n - 2 implies #[trigger] after.layers()[i] == stack.layers()[i] by {
        assert(popped.layers()[i] == stack.layers()[i]);
    }
}

/// A layer is offered the focus at its first layout and at no later one: a
/// layer that was laid out is no longer new, and laying it out again only
/// lays its view out.
pub proof fn lemma_focus_is_offered_once<V: View>(
    fresh: Layer<V>,
    first: Layer<V>,
    second: Layer<V>,
    size: Vec2,
    again: Vec2,
)
    requires
        fresh.laid_out(size, first),
        first.laid_out(again, second),
    ensures
        !first.virgin,
        !second.virgin,
        first.view.laid_out(second.size, second.view),
{
}

} // verus!
