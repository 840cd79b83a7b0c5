//! The messages exchanged with the compositor, as plain values.

use crate::view::Rect;
use vstd::prelude::*;

verus! {

/// One demand for a layout: how many windows to place, and where.
#[derive(Clone, Copy, Debug, PartialEq, Eq, Structural)]
pub struct LayoutRequest {
    pub view_count: u32,
    pub usable_width: u32,
    pub usable_height: u32,
    pub tag_mask: u32,
    pub serial: u32,
}

/// What the compositor tells a layout session.
#[derive(Debug, PartialEq, Eq)]
pub enum Event {
    /// Another client already holds the session's namespace.
    NamespaceInUse,
    /// The compositor wants a layout.
    LayoutDemand(LayoutRequest),
    /// The user typed a command.
    UserCommand { command: String },
    /// The tags that later commands apply to.
    UserCommandTags { tags: u32 },
}

/// What a layout session tells the compositor.
#[derive(Debug, PartialEq, Eq)]
pub enum Request {
    /// Propose the dimensions of the next window of the demand `serial`.
    PushViewDimensions { x: i32, y: i32, width: u32, height: u32, serial: u32 },
    /// Close the answer to the demand `serial`.
    Commit { layout_name: String, serial: u32 },
}

impl Request {
    /// The request that proposes `rect` in answer to the demand `serial`.
    pub open spec fn push(rect: Rect, serial: u32) -> Request {
        Request::PushViewDimensions {
            x: rect.x as i32,
            y: rect.y as i32,
            width: rect.width as u32,
            height: rect.height as u32,
            serial,
        }
    }
}

/// Why a session cannot go on.
#[derive(Clone, Copy, Debug, PartialEq, Eq, Structural)]
pub enum Failure {
    /// Another client already holds the session's namespace.
    NamespaceInUse,
    /// The arrangement holds a position beyond what a view can hold.
    OutOfRange,
    /// The arrangement holds another number of windows than was demanded.
    WrongCount,
}

} // verus!
