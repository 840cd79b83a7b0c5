//! The rectangle handed to the compositor for one window.

use crate::protocol::Request;
use vstd::prelude::*;

verus! {

/// Position and size of one window inside the usable area of an output.
#[derive(Clone, Copy, Debug, PartialEq, Eq, Structural)]
pub struct View {
    pub x: i32,
    pub y: i32,
    pub width: u32,
    pub height: u32,
}

/// A rectangle over the mathematical integers: what a [`View`] stands for.
pub struct Rect {
    pub x: int,
    pub y: int,
    pub width: int,
    pub height: int,
}

impl View {
    /// The rectangle this view denotes.
    pub open spec fn rect(self) -> Rect {
        Rect {
            x: self.x as int,
            y: self.y as int,
            width: self.width as int,
            height: self.height as int,
        }
    }

    /// The request that proposes this view's dimensions in answer to the
    /// layout demand numbered `serial`.
    pub fn send(self, serial: u32) -> (request: Request)
        ensures
            request == (Request::PushViewDimensions {
                x: self.x,
                y: self.y,
                width: self.width,
                height: self.height,
                serial,
            }),
    {
        Request::PushViewDimensions {
            x: self.x,
            y: self.y,
            width: self.width,
            height: self.height,
            serial,
        }
    }
}

/// The rectangles that a sequence of views denotes, in order.
pub open spec fn rects(views: Seq<View>) -> Seq<Rect> {
    Seq::new(views.len(), |i: int| views[i].rect())
}

/// Two views that denote the same rectangle are the same view.
pub proof fn lemma_rect_determines_view(a: View, b: View)
    requires
        a.rect() == b.rect(),
    ensures
        a == b,
{
}

} // verus!
