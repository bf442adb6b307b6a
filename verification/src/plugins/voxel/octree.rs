//! Octree address: a thin extension of the quadtree address with a radial
//! layer index. Most chunks sit at layer 0 (the surface); further layers
//! exist only where the player digs or where subsurface features are.
use vstd::prelude::*;
use crate::plugins::quadtree::QuadtreeAddress;

verus! {

/// Extends QuadtreeAddress with a radial (depth) index for 3D chunks
#[derive(Debug, Clone, Copy, PartialEq, Eq, Hash, Structural)]
pub struct OctreeAddress {
    /// The surface-level quadtree address (face, depth, morton)
    pub surface_address: QuadtreeAddress,
    /// Radial index: 0 = surface layer, positive = above, negative = below
    pub radial_index: i8,
}

impl OctreeAddress {
    /// The same chunk one radial layer up.
    pub open spec fn spec_above(self) -> OctreeAddress {
        OctreeAddress { surface_address: self.surface_address, radial_index: (self.radial_index + 1) as i8 }
    }

    /// The same chunk one radial layer down.
    pub open spec fn spec_below(self) -> OctreeAddress {
        OctreeAddress { surface_address: self.surface_address, radial_index: (self.radial_index - 1) as i8 }
    }

    /// Create an octree address for the surface layer
    pub fn surface(surface_address: QuadtreeAddress) -> (r: Self)
        ensures
            r == (OctreeAddress { surface_address, radial_index: 0 }),
    {
        Self { surface_address, radial_index: 0 }
    }

    /// Create an address for a subsurface layer
    pub fn subsurface(surface_address: QuadtreeAddress, depth: i8) -> (r: Self)
        ensures
            r == (OctreeAddress { surface_address, radial_index: depth }),
    {
        Self { surface_address, radial_index: depth }
    }

    /// Whether this is the surface layer (most common case)
    pub fn is_surface(&self) -> (r: bool)
        ensures
            r == (self.radial_index == 0),
    {
        self.radial_index == 0
    }

    /// The adjacent layer above
    pub fn above(&self) -> (r: Self)
        requires
            self.radial_index < 127,
        ensures
            r == self.spec_above(),
    {
        Self { surface_address: self.surface_address, radial_index: self.radial_index + 1 }
    }

    /// The adjacent layer below
    pub fn below(&self) -> (r: Self)
        requires
            self.radial_index > -128,
        ensures
            r == self.spec_below(),
    {
        Self { surface_address: self.surface_address, radial_index: self.radial_index - 1 }
    }
}

/// Law: going one layer up and then one layer down returns to the same
/// address, and so does the reverse.
pub proof fn law_above_below_inverse(a: OctreeAddress)
    ensures
        a.radial_index < 127 ==> a.spec_above().spec_below() == a,
        a.radial_index > -128 ==> a.spec_below().spec_above() == a,
{
}

} // verus!
