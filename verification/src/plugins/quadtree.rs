//! Quadtree chunk addressing for a cube-sphere planet.
//!
//! Each of the six cube faces starts as a single root chunk; a chunk
//! subdivides into four children. A chunk is named by its face, its depth
//! and a Morton code (Z-order path): each level appends two bits, the
//! quadrant (0 = SW, 1 = SE, 2 = NW, 3 = NE).
use vstd::prelude::*;
use vstd::arithmetic::div_mod::{lemma_mod_breakdown, lemma_div_denominator};

verus! {

/// 2 to the power `n`.
pub open spec fn pow2(n: nat) -> nat
    decreases n,
{
    if n == 0 {
        1
    } else {
        2 * pow2((n - 1) as nat)
    }
}

/// 4 to the power `n`: the number of chunks of a face at depth `n`.
pub open spec fn pow4(n: nat) -> nat
    decreases n,
{
    if n == 0 {
        1
    } else {
        4 * pow4((n - 1) as nat)
    }
}

/// The bits of `m` at even positions 0, 2, .., 2(d-1), packed into the low `d` bits.
pub open spec fn even_bits(m: nat, d: nat) -> nat
    decreases d,
{
    if d == 0 {
        0
    } else {
        m % 2 + 2 * even_bits(m / 4, (d - 1) as nat)
    }
}

/// The bits of `m` at odd positions 1, 3, .., 2d-1, packed into the low `d` bits.
pub open spec fn odd_bits(m: nat, d: nat) -> nat {
    even_bits(m / 2, d)
}

/// The Morton interleaving of the low `d` bits of `x` and `y`:
/// bit i of `x` lands at bit 2i and bit i of `y` at bit 2i + 1.
pub open spec fn interleave(x: nat, y: nat, d: nat) -> nat
    decreases d,
{
    if d == 0 {
        0
    } else {
        x % 2 + 2 * (y % 2) + 4 * interleave(x / 2, y / 2, (d - 1) as nat)
    }
}

/// Quadtree node address: uniquely identifies a chunk at any subdivision level.
#[derive(Debug, Clone, Copy, PartialEq, Eq, Hash, Structural)]
pub struct QuadtreeAddress {
    /// Face of the cube sphere (0-5)
    pub face: u8,
    /// Subdivision depth (0 = root covering the entire face)
    pub depth: u8,
    /// Morton code encoding the path through the quadtree
    pub morton: u64,
}

impl QuadtreeAddress {
    /// A well-formed address has a Morton code that names one of the
    /// `4^depth` chunks of its depth, at a depth that a 64-bit code can hold.
    pub open spec fn wf(self) -> bool {
        &&& self.depth <= 31
        &&& self.morton < pow4(self.depth as nat)
    }

    /// The root chunk of a face.
    pub open spec fn spec_root(face: u8) -> QuadtreeAddress {
        QuadtreeAddress { face, depth: 0, morton: 0 }
    }

    /// The child in `quadrant`: the Morton code gains two low bits (in 64-bit arithmetic).
    pub open spec fn spec_child(self, quadrant: u8) -> QuadtreeAddress {
        QuadtreeAddress {
            face: self.face,
            depth: (self.depth + 1) as u8,
            morton: ((self.morton * 4 + quadrant) % 0x1_0000_0000_0000_0000) as u64,
        }
    }

    /// The parent chunk, none for a root.
    pub open spec fn spec_parent(self) -> Option<QuadtreeAddress> {
        if self.depth == 0 {
            None
        } else {
            Some(
                QuadtreeAddress {
                    face: self.face,
                    depth: (self.depth - 1) as u8,
                    morton: self.morton / 4,
                },
            )
        }
    }

    /// The ancestor `k` levels up (the address itself for `k == 0`).
    pub open spec fn ancestor_at(self, k: nat) -> QuadtreeAddress {
        QuadtreeAddress {
            face: self.face,
            depth: (self.depth - k) as u8,
            morton: (self.morton as nat / pow4(k)) as u64,
        }
    }

    /// Grid coordinates (x, y) of the chunk within its face, each in `[0, 2^depth)`.
    pub open spec fn spec_to_xy(self) -> (nat, nat) {
        (even_bits(self.morton as nat, self.depth as nat), odd_bits(self.morton as nat, self.depth as nat))
    }

    /// The address at `depth` whose grid coordinates are the low `depth` bits of `x` and `y`.
    pub open spec fn spec_from_xy(face: u8, depth: u8, x: u32, y: u32) -> QuadtreeAddress {
        QuadtreeAddress {
            face,
            depth,
            morton: interleave(x as nat, y as nat, depth as nat) as u64,
        }
    }

    /// Create the root node for a face
    pub fn root(face: u8) -> (r: Self)
        ensures
            r == Self::spec_root(face),
    {
        Self { face, depth: 0, morton: 0 }
    }

    /// Create a child at the given quadrant (0-3)
    pub fn child(&self, quadrant: u8) -> (r: Self)
        requires
            quadrant < 4,
            self.depth < 31,
        ensures
            r == self.spec_child(quadrant),
    {
        let m = self.morton;
        let q = quadrant as u64;
        assert(((m << 2u64) | q) == ((m * 4 + q) % 0x1_0000_0000_0000_0000) as u64) by (bit_vector)
            requires
                q < 4,
        ;
        Self { face: self.face, depth: self.depth + 1, morton: (m << 2u64) | q }
    }

    /// Get all 4 children of this node
    pub fn children(&self) -> (r: [Self; 4])
        requires
            self.depth < 31,
        ensures
            forall|q: int| 0 <= q < 4 ==> #[trigger] r@[q] == self.spec_child(q as u8),
    {
        let r = [self.child(0), self.child(1), self.child(2), self.child(3)];
        assert forall|q: int| 0 <= q < 4 implies #[trigger] r@[q] == self.spec_child(q as u8) by {
            if q == 0 {
            } else if q == 1 {
            } else if q == 2 {
            } else {
            }
        }
        r
    }

    /// Get the parent node (returns None for root)
    pub fn parent(&self) -> (r: Option<Self>)
        ensures
            r == self.spec_parent(),
    {
        if self.depth == 0 {
            None
        } else {
            let m = self.morton;
            assert(m >> 2u64 == m / 4) by (bit_vector);
            Some(Self { face: self.face, depth: self.depth - 1, morton: m >> 2u64 })
        }
    }

    /// Get all ancestors from root to this node (inclusive)
    pub fn ancestors(&self) -> (r: Vec<Self>)
        ensures
            r.len() == self.depth + 1,
            forall|i: int| 0 <= i <= self.depth ==> #[trigger] r@[i] == self.ancestor_at((self.depth - i) as nat),
    {
        // Walk up from this node to the root ...
        let mut chain: Vec<Self> = Vec::with_capacity(self.depth as usize + 1);
        let mut current = *self;
        chain.push(current);
        proof {
            assert(pow4(0) == 1);
            assert(self.ancestor_at(0) == *self);
        }
        while current.depth > 0
            invariant
                1 <= chain.len() <= self.depth + 1,
                current.depth == self.depth - (chain.len() - 1),
                current == self.ancestor_at((chain.len() - 1) as nat),
                forall|k: int| 0 <= k < chain.len() ==> #[trigger] chain@[k] == self.ancestor_at(k as nat),
            decreases current.depth,
        {
            let parent = current.parent().unwrap();
            proof {
                let k = (chain.len() - 1) as nat;
                lemma_pow4_positive(k);
                lemma_div_denominator(self.morton as int, pow4(k) as int, 4);
                assert(pow4(k + 1) == pow4(k) * 4);
                assert(parent == self.ancestor_at(k + 1));
            }
            current = parent;
            chain.push(current);
        }
        // ... then reverse the chain so that it runs from the root down.
        let mut result: Vec<Self> = Vec::with_capacity(chain.len());
        let mut k = chain.len();
        while k > 0
            invariant
                chain.len() == self.depth + 1,
                k <= chain.len(),
                result.len() == chain.len() - k,
                forall|k: int| 0 <= k < chain.len() ==> #[trigger] chain@[k] == self.ancestor_at(k as nat),
                forall|i: int| 0 <= i < result.len() ==> #[trigger] result@[i] == self.ancestor_at((self.depth - i) as nat),
            decreases k,
        {
            k = k - 1;
            result.push(chain[k]);
        }
        result
    }

    /// Convert Morton code to (x, y) coordinates at this depth.
    /// Returns coordinates in range [0, 2^depth).
    pub fn to_xy(&self) -> (r: (u32, u32))
        requires
            self.depth <= 32,
        ensures
            r.0 == self.spec_to_xy().0,
            r.1 == self.spec_to_xy().1,
    {
        let ghost m0 = self.morton as nat;
        let ghost d = self.depth as nat;
        let mut x: u64 = 0;
        let mut y: u64 = 0;
        let mut morton: u64 = self.morton;
        let mut bit: u64 = 1;
        let mut i: u8 = 0;
        proof {
            assert(pow2(0) == 1);
        }
        while i < self.depth
            invariant
                d == self.depth,
                m0 == self.morton,
                i <= d <= 32,
                bit == pow2(i as nat),
                x < bit,
                y < bit,
                even_bits(m0, d) == x + bit * even_bits(morton as nat, (d - i) as nat),
                odd_bits(m0, d) == y + bit * odd_bits(morton as nat, (d - i) as nat),
            decreases d - i,
        {
            proof {
                lemma_pow2_bound(i as nat);
                let rest = (d - i - 1) as nat;
                let mm = morton as nat;
                assert(even_bits(mm, (d - i) as nat) == mm % 2 + 2 * even_bits(mm / 4, rest));
                assert(odd_bits(mm, (d - i) as nat) == (mm / 2) % 2 + 2 * even_bits((mm / 2) / 4, rest));
                assert((mm / 2) / 4 == (mm / 4) / 2);
                lemma_scale_step(x as int, bit as int, (mm % 2) as int, even_bits(mm / 4, rest) as int);
                lemma_scale_step(y as int, bit as int, ((mm / 2) % 2) as int, odd_bits(mm / 4, rest) as int);
            }
            x = x + (morton % 2) * bit;
            morton = morton / 2;
            y = y + (morton % 2) * bit;
            morton = morton / 2;
            bit = bit * 2;
            i = i + 1;
        }
        proof {
            assert(i == d);
            assert(even_bits(morton as nat, 0) == 0);
            assert(odd_bits(morton as nat, 0) == 0);
            assert(bit * even_bits(morton as nat, 0) == 0);
            assert(bit * odd_bits(morton as nat, 0) == 0);
            assert(even_bits(m0, d) == x);
            assert(odd_bits(m0, d) == y);
            lemma_pow2_bound(d);
        }
        (x as u32, y as u32)
    }

    /// Create address from (x, y) coordinates at given depth
    pub fn from_xy(face: u8, depth: u8, x: u32, y: u32) -> (r: Self)
        requires
            depth <= 32,
        ensures
            r == Self::spec_from_xy(face, depth, x, y),
    {
        let ghost d = depth as nat;
        let mut morton: u128 = 0;
        let mut xr: u32 = x;
        let mut yr: u32 = y;
        let mut scale: u128 = 1;
        let mut i: u8 = 0;
        proof {
            assert(pow4(0) == 1);
        }
        while i < depth
            invariant
                d == depth,
                i <= d <= 32,
                scale == pow4(i as nat),
                morton < scale,
                interleave(x as nat, y as nat, d) == morton + scale * interleave(xr as nat, yr as nat, (d - i) as nat),
            decreases d - i,
        {
            proof {
                lemma_pow4_bound(i as nat);
                let rest = (d - i - 1) as nat;
                assert(interleave(xr as nat, yr as nat, (d - i) as nat) == xr % 2 + 2 * (yr % 2) + 4 * interleave((xr / 2) as nat, (yr / 2) as nat, rest));
                lemma_interleave_step(morton as int, scale as int, (xr % 2) as int, (yr % 2) as int, interleave((xr / 2) as nat, (yr / 2) as nat, rest) as int);
            }
            morton = morton + ((xr % 2) as u128) * scale + ((yr % 2) as u128) * 2 * scale;
            xr = xr / 2;
            yr = yr / 2;
            scale = scale * 4;
            i = i + 1;
        }
        proof {
            assert(i == d);
            assert(interleave(xr as nat, yr as nat, 0) == 0);
            let z = interleave(xr as nat, yr as nat, 0);
            assert(scale * z == 0) by (nonlinear_arith)
                requires
                    z == 0,
            ;
            assert(interleave(x as nat, y as nat, d) == morton);
            lemma_pow4_bound(d);
            lemma_interleave_bound(x as nat, y as nat, d);
        }
        Self { face, depth, morton: morton as u64 }
    }
}

proof fn lemma_scale_step(acc: int, bit: int, b: int, rest: int)
    requires
        0 <= acc < bit,
        0 <= b < 2,
        rest >= 0,
    ensures
        acc + bit * (b + 2 * rest) == (acc + b * bit) + (bit * 2) * rest,
        acc + b * bit < bit * 2,
{
    assert(bit * (b + 2 * rest) == b * bit + (bit * 2) * rest) by (nonlinear_arith);
    assert(b * bit <= bit) by (nonlinear_arith)
        requires
            0 <= b < 2,
            bit > 0,
    ;
}

proof fn lemma_interleave_step(acc: int, scale: int, bx: int, by: int, rest: int)
    requires
        0 <= acc < scale,
        0 <= bx < 2,
        0 <= by < 2,
        rest >= 0,
    ensures
        acc + scale * (bx + 2 * by + 4 * rest) == (acc + bx * scale + by * 2 * scale) + (scale * 4) * rest,
        acc + bx * scale + by * 2 * scale < scale * 4,
{
    assert(scale * (bx + 2 * by + 4 * rest) == bx * scale + by * 2 * scale + (scale * 4) * rest) by (nonlinear_arith);
    assert(bx * scale <= scale) by (nonlinear_arith)
        requires
            0 <= bx < 2,
            scale > 0,
    ;
    assert(by * 2 * scale <= 2 * scale) by (nonlinear_arith)
        requires
            0 <= by < 2,
            scale > 0,
    ;
}

pub proof fn lemma_pow2_positive(n: nat)
    ensures
        pow2(n) > 0,
    decreases n,
{
    if n > 0 {
        lemma_pow2_positive((n - 1) as nat);
    }
}

pub proof fn lemma_pow4_positive(n: nat)
    ensures
        pow4(n) > 0,
    decreases n,
{
    if n > 0 {
        lemma_pow4_positive((n - 1) as nat);
    }
}

/// `2^n` and `4^n` grow with `n`.
pub proof fn lemma_pow_monotonic(m: nat, n: nat)
    requires
        m <= n,
    ensures
        pow2(m) <= pow2(n),
        pow4(m) <= pow4(n),
    decreases n,
{
    lemma_pow2_positive(n);
    lemma_pow4_positive(n);
    if m < n {
        lemma_pow_monotonic(m, (n - 1) as nat);
    }
}

proof fn lemma_pow2_bound(n: nat)
    requires
        n <= 32,
    ensures
        pow2(n) <= 0x1_0000_0000,
{
    lemma_pow_monotonic(n, 32);
    assert(pow2(32) == 0x1_0000_0000) by {
        reveal_with_fuel(pow2, 33);
    }
}

proof fn lemma_pow4_bound(n: nat)
    requires
        n <= 32,
    ensures
        pow4(n) <= 0x1_0000_0000_0000_0000,
{
    lemma_pow_monotonic(n, 32);
    assert(pow4(32) == 0x1_0000_0000_0000_0000) by {
        reveal_with_fuel(pow4, 33);
    }
}

/// An interleaving of `d` bit pairs is below `4^d`.
pub proof fn lemma_interleave_bound(x: nat, y: nat, d: nat)
    ensures
        interleave(x, y, d) < pow4(d),
    decreases d,
{
    if d > 0 {
        lemma_interleave_bound(x / 2, y / 2, (d - 1) as nat);
    }
}

/// The packed even bits of `d` bit pairs are below `2^d`.
pub proof fn lemma_even_bits_bound(m: nat, d: nat)
    ensures
        even_bits(m, d) < pow2(d),
    decreases d,
{
    if d > 0 {
        lemma_even_bits_bound(m / 4, (d - 1) as nat);
    }
}

/// 4^30 = 2^60: the Morton codes of well-formed addresses below depth 31 leave room for two more bits.
proof fn lemma_pow4_30()
    ensures
        pow4(30) == 0x1000_0000_0000_0000,
{
    reveal_with_fuel(pow4, 31);
}

/// Law: the parent of a child is the node itself, and a child of a
/// well-formed address is well-formed.
pub proof fn law_parent_of_child(a: QuadtreeAddress, quadrant: u8)
    requires
        a.wf(),
        a.depth < 31,
        quadrant < 4,
    ensures
        a.spec_child(quadrant).wf(),
        a.spec_child(quadrant).spec_parent() == Some(a),
{
    lemma_pow_monotonic(a.depth as nat, 30);
    lemma_pow4_30();
    let m = a.morton as int;
    assert(m * 4 + quadrant < 0x1_0000_0000_0000_0000);
    assert((m * 4 + quadrant) % 0x1_0000_0000_0000_0000 == m * 4 + quadrant);
    assert(pow4((a.depth + 1) as nat) == 4 * pow4(a.depth as nat));
}

/// Law: the four children of a well-formed address are pairwise distinct.
pub proof fn law_children_distinct(a: QuadtreeAddress, q1: u8, q2: u8)
    requires
        a.wf(),
        a.depth < 31,
        q1 < 4,
        q2 < 4,
        q1 != q2,
    ensures
        a.spec_child(q1) != a.spec_child(q2),
{
    law_parent_of_child(a, q1);
    law_parent_of_child(a, q2);
    lemma_pow_monotonic(a.depth as nat, 30);
    lemma_pow4_30();
}

/// Law: `k + 1` levels up is the parent of `k` levels up, below the root.
pub proof fn law_ancestor_chain(a: QuadtreeAddress, k: nat)
    requires
        k < a.depth,
    ensures
        a.ancestor_at(k).spec_parent() == Some(a.ancestor_at(k + 1)),
{
    lemma_pow4_positive(k);
    lemma_div_denominator(a.morton as int, pow4(k) as int, 4);
    assert(pow4(k + 1) == pow4(k) * 4);
}

/// Law: the topmost ancestor of a well-formed address is the root of its face.
pub proof fn law_ancestor_root(a: QuadtreeAddress)
    requires
        a.wf(),
    ensures
        a.ancestor_at(a.depth as nat) == QuadtreeAddress::spec_root(a.face),
{
    let p = pow4(a.depth as nat) as int;
    let m = a.morton as int;
    assert(m / p == 0) by (nonlinear_arith)
        requires
            0 <= m < p,
    ;
}

proof fn lemma_deinterleave(x: nat, y: nat, d: nat)
    ensures
        even_bits(interleave(x, y, d), d) == x % pow2(d),
        odd_bits(interleave(x, y, d), d) == y % pow2(d),
    decreases d,
{
    if d == 0 {
    } else {
        let rest = (d - 1) as nat;
        let i = interleave(x / 2, y / 2, rest);
        let low = x % 2 + 2 * (y % 2);
        lemma_deinterleave(x / 2, y / 2, rest);
        lemma_pow2_positive(rest);
        assert((low + 4 * i) % 2 == x % 2);
        assert((low + 4 * i) / 4 == i);
        assert((low + 4 * i) / 2 == y % 2 + 2 * i);
        assert((y % 2 + 2 * i) % 2 == y % 2);
        assert((y % 2 + 2 * i) / 4 == i / 2);
        lemma_mod_breakdown(x as int, 2, pow2(rest) as int);
        lemma_mod_breakdown(y as int, 2, pow2(rest) as int);
        assert(even_bits(y % 2 + 2 * i, d) == y % 2 + 2 * even_bits(i / 2, rest));
    }
}

proof fn lemma_reinterleave(m: nat, d: nat)
    ensures
        interleave(even_bits(m, d), odd_bits(m, d), d) == m % pow4(d),
    decreases d,
{
    if d == 0 {
    } else {
        let rest = (d - 1) as nat;
        lemma_reinterleave(m / 4, rest);
        lemma_pow4_positive(rest);
        let e = even_bits(m, d);
        let o = odd_bits(m, d);
        assert(e == m % 2 + 2 * even_bits(m / 4, rest));
        assert(o == (m / 2) % 2 + 2 * even_bits((m / 2) / 4, rest));
        assert((m / 2) / 4 == (m / 4) / 2);
        assert(e % 2 == m % 2);
        assert(e / 2 == even_bits(m / 4, rest));
        assert(o % 2 == (m / 2) % 2);
        assert(o / 2 == odd_bits(m / 4, rest));
        lemma_mod_breakdown(m as int, 2, 2);
        lemma_mod_breakdown(m as int, 4, pow4(rest) as int);
    }
}

/// Law: converting grid coordinates to an address and back gives the
/// coordinates reduced to the depth (`(x, y)` itself when both are below `2^depth`).
pub proof fn law_xy_round_trip(face: u8, depth: u8, x: u32, y: u32)
    requires
        depth <= 32,
    ensures
        QuadtreeAddress::spec_from_xy(face, depth, x, y).spec_to_xy() == (
            x as nat % pow2(depth as nat),
            y as nat % pow2(depth as nat),
        ),
{
    lemma_interleave_bound(x as nat, y as nat, depth as nat);
    lemma_pow4_bound(depth as nat);
    lemma_deinterleave(x as nat, y as nat, depth as nat);
}

/// Law: the grid coordinates of a well-formed address lead back to the same address.
pub proof fn law_address_round_trip(a: QuadtreeAddress)
    requires
        a.wf(),
    ensures
        a.spec_to_xy().0 < pow2(a.depth as nat),
        a.spec_to_xy().1 < pow2(a.depth as nat),
        QuadtreeAddress::spec_from_xy(a.face, a.depth, a.spec_to_xy().0 as u32, a.spec_to_xy().1 as u32) == a,
{
    let m = a.morton as nat;
    let d = a.depth as nat;
    lemma_even_bits_bound(m, d);
    lemma_even_bits_bound(m / 2, d);
    lemma_pow2_bound(d);
    lemma_reinterleave(m, d);
    let p = pow4(d) as int;
    assert(m as int % p == m) by (nonlinear_arith)
        requires
            0 <= m < p,
    ;
}

} // verus!

pub use crate::plugins::quadtree_manager::{
    chunks_to_spawn, ChunkEntities, ChunkState, MetricsTable, NodeMap, NodeMetrics, QuadtreeManager,
    QuadtreeNode,
};
