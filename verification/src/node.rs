//! One element of the layout tree: what the caller declares of it and what
//! the engine resolves.

use crate::color::RGBA;
use crate::geom::{Axis, Point, Size};
use crate::id::Id;
use vstd::prelude::*;

verus! {

/// What the caller asks of a node's extent along one axis.
#[derive(Debug, Clone, Copy, PartialEq, Eq, Structural)]
pub enum SizingMode {
    /// Nothing was asked; the node is fitted like `Fit`.
    Null,
    /// As large as the content and the padding need.
    Fit,
    /// As `Fit`, and then a share of what the parent has left.
    Grow,
    /// The given extent in place of the content's.
    Fixed(u32),
}

/// Space kept free inside a node's four edges.
#[derive(Debug, Clone, Copy, PartialEq, Eq, Structural)]
pub struct Padding {
    pub left: u32,
    pub right: u32,
    pub top: u32,
    pub bottom: u32,
}

impl Padding {
    /// The same padding on all four edges.
    pub fn all(v: u32) -> (p: Padding)
        ensures
            p == (Padding { left: v, right: v, top: v, bottom: v }),
    {
        Padding { left: v, right: v, top: v, bottom: v }
    }

    /// The padding before the content along `axis`: left or top.
    pub open spec fn spec_lead(self, axis: Axis) -> u32 {
        match axis {
            Axis::X => self.left,
            Axis::Y => self.top,
        }
    }

    /// The padding before the content along `axis`: left or top.
    #[verifier::when_used_as_spec(spec_lead)]
    pub fn lead(self, axis: Axis) -> (r: u32)
        ensures
            r == self.spec_lead(axis),
    {
        match axis {
            Axis::X => self.left,
            Axis::Y => self.top,
        }
    }

    /// The padding after the content along `axis`: right or bottom.
    pub open spec fn spec_trail(self, axis: Axis) -> u32 {
        match axis {
            Axis::X => self.right,
            Axis::Y => self.bottom,
        }
    }

    /// The padding after the content along `axis`: right or bottom.
    #[verifier::when_used_as_spec(spec_trail)]
    pub fn trail(self, axis: Axis) -> (r: u32)
        ensures
            r == self.spec_trail(axis),
    {
        match axis {
            Axis::X => self.right,
            Axis::Y => self.bottom,
        }
    }

    /// Both paddings along `axis` together.
    pub open spec fn spec_along(self, axis: Axis) -> i64 {
        (self.spec_lead(axis) + self.spec_trail(axis)) as i64
    }

    /// Both paddings along `axis` together.
    #[verifier::when_used_as_spec(spec_along)]
    pub fn along(self, axis: Axis) -> (r: i64)
        ensures
            r == self.spec_along(axis),
            r == self.spec_lead(axis) + self.spec_trail(axis),
    {
        self.lead(axis) as i64 + self.trail(axis) as i64
    }
}

/// A line drawn along a rectangle's edge.
#[derive(Debug, Clone, Copy, PartialEq, Eq, Structural)]
pub struct Outline {
    pub color: RGBA,
    pub width: u32,
}

/// What the caller declares of a node each frame.
#[derive(Debug, Clone, Copy, PartialEq, Eq, Structural)]
pub struct Style {
    /// The sizing along the horizontal axis.
    pub sizing_x: SizingMode,
    /// The sizing along the vertical axis.
    pub sizing_y: SizingMode,
    pub padding: Padding,
    /// The space between two children that follow each other.
    pub gap: u32,
    /// The axis along which the children follow each other.
    pub axis: Axis,
    /// The extent of the node's own content, such as measured text.
    pub content_w: u32,
    pub content_h: u32,
    /// A position that replaces the one the parent would give.
    pub fixed_pos: Option<Point>,
    pub fill: Option<RGBA>,
    pub outline: Option<Outline>,
    pub corner_radius: u32,
}

impl Style {
    /// The style that asks for nothing: no sizing, no padding, no gap,
    /// children in a row, no content, nothing drawn.
    pub open spec fn spec_plain() -> Style {
        Style {
            sizing_x: SizingMode::Null,
            sizing_y: SizingMode::Null,
            padding: Padding { left: 0, right: 0, top: 0, bottom: 0 },
            gap: 0,
            axis: Axis::X,
            content_w: 0,
            content_h: 0,
            fixed_pos: None,
            fill: None,
            outline: None,
            corner_radius: 0,
        }
    }

    /// The style that asks for nothing.
    #[verifier::when_used_as_spec(spec_plain)]
    pub fn plain() -> (s: Style)
        ensures
            s == Style::spec_plain(),
    {
        Style {
            sizing_x: SizingMode::Null,
            sizing_y: SizingMode::Null,
            padding: Padding { left: 0, right: 0, top: 0, bottom: 0 },
            gap: 0,
            axis: Axis::X,
            content_w: 0,
            content_h: 0,
            fixed_pos: None,
            fill: None,
            outline: None,
            corner_radius: 0,
        }
    }

    /// The sizing along `axis`.
    pub open spec fn spec_sizing(self, axis: Axis) -> SizingMode {
        match axis {
            Axis::X => self.sizing_x,
            Axis::Y => self.sizing_y,
        }
    }

    /// The sizing along `axis`.
    #[verifier::when_used_as_spec(spec_sizing)]
    pub fn sizing(self, axis: Axis) -> (r: SizingMode)
        ensures
            r == self.spec_sizing(axis),
    {
        match axis {
            Axis::X => self.sizing_x,
            Axis::Y => self.sizing_y,
        }
    }

    /// The extent of the node's own content along `axis`.
    pub open spec fn spec_content(self, axis: Axis) -> u32 {
        match axis {
            Axis::X => self.content_w,
            Axis::Y => self.content_h,
        }
    }

    /// The extent of the node's own content along `axis`.
    #[verifier::when_used_as_spec(spec_content)]
    pub fn content(self, axis: Axis) -> (r: u32)
        ensures
            r == self.spec_content(axis),
    {
        match axis {
            Axis::X => self.content_w,
            Axis::Y => self.content_h,
        }
    }

    /// Whether the node takes a share of leftover space along `axis`.
    pub open spec fn spec_grows(self, axis: Axis) -> bool {
        self.spec_sizing(axis) == SizingMode::Grow
    }

    /// Whether the node takes a share of leftover space along `axis`.
    #[verifier::when_used_as_spec(spec_grows)]
    pub fn grows(self, axis: Axis) -> (r: bool)
        ensures
            r == self.spec_grows(axis),
    {
        match self.sizing(axis) {
            SizingMode::Grow => true,
            _ => false,
        }
    }
}

/// One node of a frame's tree. The links are positions in the frame's table
/// of nodes, which lists the nodes in the order in which they were begun.
#[derive(Debug, Clone, Copy, PartialEq, Eq, Structural)]
pub struct Node {
    pub id: Id,
    pub parent: Option<usize>,
    pub first_child: Option<usize>,
    pub last_child: Option<usize>,
    pub next_sibling: Option<usize>,
    pub prev_sibling: Option<usize>,
    pub child_count: usize,
    pub style: Style,
    /// The extent measured from the content, the sizing and the padding.
    pub fit: Size,
    /// The resolved extent: the measured one, grown where the node grows.
    pub size: Size,
    /// The resolved position of the node's near corner.
    pub pos: Point,
    /// The frame in which the node was begun last.
    pub last_touched: u64,
}

impl Node {
    /// A node without links and geometry.
    pub open spec fn spec_empty(id: Id) -> Node {
        Node {
            id,
            parent: None,
            first_child: None,
            last_child: None,
            next_sibling: None,
            prev_sibling: None,
            child_count: 0,
            style: Style::spec_plain(),
            fit: Size { w: 0, h: 0 },
            size: Size { w: 0, h: 0 },
            pos: Point { x: 0, y: 0 },
            last_touched: 0,
        }
    }

    /// A node without links and geometry.
    #[verifier::when_used_as_spec(spec_empty)]
    pub fn empty(id: Id) -> (n: Node)
        ensures
            n == Node::spec_empty(id),
    {
        Node {
            id,
            parent: None,
            first_child: None,
            last_child: None,
            next_sibling: None,
            prev_sibling: None,
            child_count: 0,
            style: Style::plain(),
            fit: Size { w: 0, h: 0 },
            size: Size { w: 0, h: 0 },
            pos: Point { x: 0, y: 0 },
            last_touched: 0,
        }
    }

    /// Whether the node was begun in `frame`.
    pub open spec fn spec_touched_in(&self, frame: u64) -> bool {
        self.last_touched == frame
    }

    /// Whether the node was begun in `frame`.
    #[verifier::when_used_as_spec(spec_touched_in)]
    pub fn touched_in(&self, frame: u64) -> (r: bool)
        ensures
            r == self.spec_touched_in(frame),
    {
        self.last_touched == frame
    }

    /// The rectangle that the node covers, its far corner saturating.
    pub fn rect(&self) -> (r: crate::geom::Rect)
        ensures
            r == self.spec_rect(),
    {
        crate::geom::Rect::from_min_size(self.pos, self.size)
    }

    /// The rectangle that the node covers, its far corner saturating.
    pub open spec fn spec_rect(&self) -> crate::geom::Rect {
        crate::geom::Rect {
            min: self.pos,
            max: Point {
                x: crate::geom::sat(self.pos.x + self.size.w) as i64,
                y: crate::geom::sat(self.pos.y + self.size.h) as i64,
            },
        }
    }
}

} // verus!
