use vstd::prelude::*;

verus! {

/// An 8-bit label attached to triangles and voxel spans that controls
/// walkability: the zero value marks unwalkable space, every other value
/// is a walkable area class.
#[derive(Debug, Clone, Copy, PartialEq, Eq, Structural)]
pub struct AreaType(pub u8);

impl AreaType {
    /// The area value of unwalkable space.
    pub open spec fn null_area() -> AreaType {
        AreaType(0)
    }

    /// Whether this area value marks walkable space.
    pub open spec fn is_walkable_spec(self) -> bool {
        self.0 != 0
    }

    /// Returns the area value of unwalkable space.
    pub fn null() -> (r: AreaType)
        ensures
            r == AreaType::null_area(),
    {
        AreaType(0)
    }

    /// Returns the default walkable area value.
    pub fn default_walkable() -> (r: AreaType)
        ensures
            r.0 == 63,
            r.is_walkable_spec(),
    {
        AreaType(63)
    }

    /// Whether this area value marks walkable space.
    pub fn is_walkable(&self) -> (r: bool)
        ensures
            r == self.is_walkable_spec(),
    {
        self.0 != 0
    }
}

} // verus!
