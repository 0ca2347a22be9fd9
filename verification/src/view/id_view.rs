//! A view with a tag, by which it is found in a tree of views.

use vstd::prelude::*;
use vstd::string::*;
use vstd::view::View as _;
use crate::event::{Event, EventResult};
use crate::printer::{cmds, DrawCmd, DrawOp, Printer};
use crate::vec::Vec2;
use crate::view::{Selector, SizeRequest, View};

verus! {

/// Wraps a view and gives it a tag. In everything but `find` the wrapper
/// behaves as the view it holds.
pub struct IdView<V> {
    id: String,
    view: V,
}

impl<V: View> IdView<V> {
    /// The tag.
    pub closed spec fn tag(&self) -> Seq<char> {
        self.id@
    }

    /// The view that is tagged.
    pub closed spec fn inner(&self) -> V {
        self.view
    }

    /// Tags `view` with `id`.
    pub fn new(id: &str, view: V) -> (tagged: Self)
        ensures
            tagged.tag() == id@,
            tagged.inner() == view,
    {
        IdView { id: id.to_owned(), view: view }
    }

    /// The view that is tagged.
    pub fn get_view(&self) -> (view: &V)
        ensures
            *view == self.inner(),
    {
        &self.view
    }

    /// The view that is tagged, to be changed in place.
    pub fn get_view_mut(&mut self) -> (view: &mut V)
        ensures
            *view == old(self).inner(),
            final(self).inner() == *final(view),
            final(self).tag() == old(self).tag(),
    {
        &mut self.view
    }
}

impl<V: View> View for IdView<V> {
    open spec fn wf(self) -> bool {
        self.inner().wf()
    }

    open spec fn min_size(self, req: SizeRequest) -> Vec2 {
        self.inner().min_size(req)
    }

    open spec fn drawn(self, printer: Printer) -> Seq<DrawCmd> {
        self.inner().drawn(printer)
    }

    open spec fn laid_out(self, size: Vec2, after: IdView<V>) -> bool {
        after.tag() == self.tag() && self.inner().laid_out(size, after.inner())
    }

    open spec fn handled(self, event: Event, after: IdView<V>, result: EventResult) -> bool {
        after.tag() == self.tag() && self.inner().handled(event, after.inner(), result)
    }

    open spec fn focus_taken(self, after: IdView<V>, accepted: bool) -> bool {
        after.tag() == self.tag() && self.inner().focus_taken(after.inner(), accepted)
    }

    /// The wrapper itself is found under its tag, by the empty way; any
    /// other tag is looked for in the view it holds.
    open spec fn found(self, selector: Selector) -> Option<Seq<usize>> {
        if selector.tag() == self.tag() {
            Some(Seq::empty())
        } else {
            self.inner().found(selector)
        }
    }

    fn draw(&self, printer: &Printer) -> (ops: Vec<DrawOp>)
        ensures
            cmds(ops@) == self.inner().drawn(*printer),
    {
        self.view.draw(printer)
    }

    fn on_event(&mut self, event: Event) -> (result: EventResult)
        ensures
            final(self).tag() == old(self).tag(),
            old(self).inner().handled(event, final(self).inner(), result),
    {
        self.view.on_event(event)
    }

    fn layout(&mut self, size: Vec2)
        ensures
            final(self).tag() == old(self).tag(),
            old(self).inner().laid_out(size, final(self).inner()),
    {
        self.view.layout(size)
    }

    fn get_min_size(&self, req: SizeRequest) -> (size: Vec2)
        ensures
            size == self.inner().min_size(req),
    {
        self.view.get_min_size(req)
    }

    fn take_focus(&mut self) -> (accepted: bool)
        ensures
            final(self).tag() == old(self).tag(),
            old(self).inner().focus_taken(final(self).inner(), accepted),
    {
        self.view.take_focus()
    }

    fn find(&self, selector: &Selector) -> (path: Option<Vec<usize>>)
        ensures
            selector.tag() == self.tag() ==> (path matches Some(p) && p@ == Seq::<usize>::empty()),
            selector.tag() != self.tag() ==> match path {
                Some(p) => self.inner().found(*selector) == Some(p@),
                None => self.inner().found(*selector) is None,
            },
    {
        match selector {
            Selector::Id(id) => {
                if *id == self.id {
                    return Some(Vec::new());
                }
            },
        }
        self.view.find(selector)
    }
}

} // verus!
