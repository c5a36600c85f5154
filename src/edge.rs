use vstd::prelude::*;

verus! {

/// The edge or corner a window is being resized by.
///
/// Only the four single edges and the four corner composites exist; the
/// wire encoding is the `xdg_toplevel.resize_edge` bit set
/// (top = 1, bottom = 2, left = 4, right = 8).
#[derive(Clone, Copy, Debug, PartialEq, Eq, Structural)]
pub enum ResizeEdge {
    Top,
    Bottom,
    Left,
    TopLeft,
    BottomLeft,
    Right,
    TopRight,
    BottomRight,
}

/// The wire values that name a single edge or a corner.
pub open spec fn is_edge_bits(bits: u32) -> bool {
    bits == 1 || bits == 2 || bits == 4 || bits == 5 || bits == 6 || bits == 8 || bits == 9
        || bits == 10
}

impl ResizeEdge {
    /// Whether the left edge moves with the drag (so the x position must follow).
    pub open spec fn spec_has_left(self) -> bool {
        self is Left || self is TopLeft || self is BottomLeft
    }

    /// Whether the top edge moves with the drag (so the y position must follow).
    pub open spec fn spec_has_top(self) -> bool {
        self is Top || self is TopLeft || self is TopRight
    }

    /// The wire value of this edge set.
    pub open spec fn spec_bits(self) -> u32 {
        match self {
            ResizeEdge::Top => 1,
            ResizeEdge::Bottom => 2,
            ResizeEdge::Left => 4,
            ResizeEdge::TopLeft => 5,
            ResizeEdge::BottomLeft => 6,
            ResizeEdge::Right => 8,
            ResizeEdge::TopRight => 9,
            ResizeEdge::BottomRight => 10,
        }
    }

    pub fn has_left(&self) -> (r: bool)
        ensures
            r == self.spec_has_left(),
    {
        match self {
            ResizeEdge::Left | ResizeEdge::TopLeft | ResizeEdge::BottomLeft => true,
            _ => false,
        }
    }

    pub fn has_top(&self) -> (r: bool)
        ensures
            r == self.spec_has_top(),
    {
        match self {
            ResizeEdge::Top | ResizeEdge::TopLeft | ResizeEdge::TopRight => true,
            _ => false,
        }
    }

    pub fn bits(&self) -> (r: u32)
        ensures
            r == self.spec_bits(),
    {
        match self {
            ResizeEdge::Top => 1,
            ResizeEdge::Bottom => 2,
            ResizeEdge::Left => 4,
            ResizeEdge::TopLeft => 5,
            ResizeEdge::BottomLeft => 6,
            ResizeEdge::Right => 8,
            ResizeEdge::TopRight => 9,
            ResizeEdge::BottomRight => 10,
        }
    }

    /// Decodes a wire value; `None` for the empty set and for any combination
    /// that is not a single edge or a corner.
    pub fn from_bits(bits: u32) -> (r: Option<ResizeEdge>)
        ensures
            r matches Some(e) ==> e.spec_bits() == bits,
            r is None <==> !is_edge_bits(bits),
    {
        if bits == 1 {
            Some(ResizeEdge::Top)
        } else if bits == 2 {
            Some(ResizeEdge::Bottom)
        } else if bits == 4 {
            Some(ResizeEdge::Left)
        } else if bits == 5 {
            Some(ResizeEdge::TopLeft)
        } else if bits == 6 {
            Some(ResizeEdge::BottomLeft)
        } else if bits == 8 {
            Some(ResizeEdge::Right)
        } else if bits == 9 {
            Some(ResizeEdge::TopRight)
        } else if bits == 10 {
            Some(ResizeEdge::BottomRight)
        } else {
            None
        }
    }
}

} // verus!
