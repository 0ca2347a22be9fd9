//! What every view can do, and the size requests that containers hand down.

use vstd::prelude::*;
use vstd::view::View as _;
use crate::event::{Event, EventResult};
use crate::printer::{cmds, DrawCmd, DrawOp, Printer};
use crate::vec::Vec2;

pub mod id_view;
pub mod scroll;
pub mod stack_view;
pub mod text_view;

verus! {

/// What a parent asks of one axis of a child.
#[derive(Clone, Copy, Debug, PartialEq, Eq, Structural)]
pub enum DimensionRequest {
    /// No constraint: the view reports its ideal extent.
    Unknown,
    /// A soft upper bound: the view may use less, and more only if it must.
    AtMost(usize),
    /// A hard constraint.
    Fixed(usize),
}

/// A request for both axes.
#[derive(Clone, Copy, Debug, PartialEq, Eq, Structural)]
pub struct SizeRequest {
    pub w: DimensionRequest,
    pub h: DimensionRequest,
}

/// Names a view in a tree of views.
#[derive(Debug)]
pub enum Selector {
    /// The view that was given this tag.
    Id(String),
}

impl Selector {
    /// A selector for the view with the given tag.
    pub fn id(tag: &str) -> (selector: Selector)
        ensures
            selector.tag() == tag@,
    {
        Selector::Id(tag.to_owned())
    }

    /// The tag that is looked for.
    pub open spec fn tag(&self) -> Seq<char> {
        match self {
            Selector::Id(id) => id@,
        }
    }
}

/// A rectangular unit that draws itself, takes a size, handles events and
/// can hold the focus.
///
/// The state of a view after a call is described by a relation between the
/// view before and the view after, so that a container can say what it did
/// to its children whatever they are.
pub trait View: Sized {
    /// The view's own state is consistent.
    spec fn wf(self) -> bool;

    /// The size that `get_min_size` answers with.
    spec fn min_size(self, req: SizeRequest) -> Vec2;

    /// The operations that `draw` emits.
    spec fn drawn(self, printer: Printer) -> Seq<DrawCmd>;

    /// `after` is this view once `layout` has given it `size`.
    spec fn laid_out(self, size: Vec2, after: Self) -> bool;

    /// `after` is this view once it was handed `event` and answered `result`.
    spec fn handled(self, event: Event, after: Self, result: EventResult) -> bool;

    /// `after` is this view once it was offered the focus and answered
    /// `accepted`.
    spec fn focus_taken(self, after: Self, accepted: bool) -> bool;

    /// The way to the tagged view, as the index of the child to enter at
    /// each container on the way, where the tag is in this view's tree.
    spec fn found(self, selector: Selector) -> Option<Seq<usize>>;

    /// Draws the view. The view itself stays as it is.
    fn draw(&self, printer: &Printer) -> (ops: Vec<DrawOp>)
        requires
            self.wf(),
            printer.wf(),
        ensures
            cmds(ops@) == self.drawn(*printer),
    ;

    /// Hands an event to the view.
    fn on_event(&mut self, event: Event) -> (result: EventResult)
        requires
            old(self).wf(),
        ensures
            final(self).wf(),
            old(self).handled(event, *final(self), result),
    ;

    /// Gives the view its final size.
    fn layout(&mut self, size: Vec2)
        requires
            old(self).wf(),
        ensures
            final(self).wf(),
            old(self).laid_out(size, *final(self)),
    ;

    /// Asks the view how much room it would like under the given request.
    fn get_min_size(&self, req: SizeRequest) -> (size: Vec2)
        requires
            self.wf(),
        ensures
            size == self.min_size(req),
    ;

    /// Offers the focus to the view.
    fn take_focus(&mut self) -> (accepted: bool)
        requires
            old(self).wf(),
        ensures
            final(self).wf(),
            old(self).focus_taken(*final(self), accepted),
    ;

    /// Looks for the view with the given tag.
    fn find(&self, selector: &Selector) -> (path: Option<Vec<usize>>)
        requires
            self.wf(),
        ensures
            match path {
                Some(p) => self.found(*selector) == Some(p@),
                None => self.found(*selector) is None,
            },
    ;
}

} // verus!
