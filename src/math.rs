use vstd::prelude::*;

verus! {

/// A pair of unsigned 16-bit coordinates (a position or a size on the grid).
#[derive(Debug, Default, Clone, Copy, PartialEq, Eq, Structural, PartialOrd, Ord, Hash)]
pub struct Vec2 {
    pub x: u16,
    pub y: u16,
}

/// Creates a `Vec2` from its two coordinates.
pub fn vec2(x: u16, y: u16) -> (r: Vec2)
    ensures
        r.x == x,
        r.y == y,
{
    Vec2 { x, y }
}

impl From<(u16, u16)> for Vec2 {
    fn from(value: (u16, u16)) -> (r: Vec2) {
        vec2(value.0, value.1)
    }
}

impl vstd::std_specs::convert::FromSpecImpl<(u16, u16)> for Vec2 {
    open spec fn obeys_from_spec() -> bool {
        true
    }

    open spec fn from_spec(v: (u16, u16)) -> Vec2 {
        Vec2 { x: v.0, y: v.1 }
    }
}

impl From<u16> for Vec2 {
    fn from(value: u16) -> (r: Vec2) {
        vec2(value, value)
    }
}

impl vstd::std_specs::convert::FromSpecImpl<u16> for Vec2 {
    open spec fn obeys_from_spec() -> bool {
        true
    }

    open spec fn from_spec(v: u16) -> Vec2 {
        Vec2 { x: v, y: v }
    }
}

impl std::ops::Add for Vec2 {
    type Output = Vec2;

    /// Adds the coordinates pairwise; neither sum may pass `u16::MAX`.
    fn add(self, rhs: Vec2) -> (r: Vec2) {
        vec2(self.x + rhs.x, self.y + rhs.y)
    }
}

impl vstd::std_specs::ops::AddSpecImpl for Vec2 {
    open spec fn obeys_add_spec() -> bool {
        true
    }

    open spec fn add_req(self, rhs: Vec2) -> bool {
        self.x + rhs.x <= u16::MAX && self.y + rhs.y <= u16::MAX
    }

    open spec fn add_spec(self, rhs: Vec2) -> Vec2 {
        Vec2 { x: (self.x + rhs.x) as u16, y: (self.y + rhs.y) as u16 }
    }
}

} // verus!
