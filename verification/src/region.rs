//! Points and axis-aligned bounding regions.
//!
//! Coordinates are fixed-point world units held in `i64`; the host quantizes
//! its floating-point coordinates to this grid before handing them in. A
//! `Region` is the axis-aligned rectangle `{min, max}` in a unit's local
//! space, grown point by point and never shrunk.

use vstd::prelude::*;

verus! {

/// Largest magnitude accepted for a coordinate handed in by the host.
/// Stored unit translations stay within twice this bound, so every
/// difference or sum the crate forms fits comfortably in an `i64`.
pub const MAX_COORD: i64 = 1_000_000_000_000_000;

#[derive(Debug, Clone, Copy, PartialEq)]
pub struct Point {
    pub x: i64,
    pub y: i64,
}

impl Point {
    /// Both coordinates within the bound the host must respect.
    pub open spec fn in_bounds(self) -> bool {
        -MAX_COORD <= self.x <= MAX_COORD && -MAX_COORD <= self.y <= MAX_COORD
    }

    /// Within twice the host bound: the range of a stored unit translation.
    pub open spec fn in_translation_bounds(self) -> bool {
        -2 * MAX_COORD <= self.x <= 2 * MAX_COORD && -2 * MAX_COORD <= self.y <= 2 * MAX_COORD
    }

    /// Componentwise sum; exact whenever the sums fit in `i64`.
    pub open spec fn spec_add(self, other: Point) -> Point {
        Point { x: (self.x + other.x) as i64, y: (self.y + other.y) as i64 }
    }

    /// Componentwise difference; exact whenever the differences fit in `i64`.
    pub open spec fn spec_sub(self, other: Point) -> Point {
        Point { x: (self.x - other.x) as i64, y: (self.y - other.y) as i64 }
    }

    /// Componentwise sum.
    pub fn add(self, other: Point) -> (r: Point)
        requires
            i64::MIN <= self.x + other.x <= i64::MAX,
            i64::MIN <= self.y + other.y <= i64::MAX,
        ensures
            r == self.spec_add(other),
    {
        Point { x: self.x + other.x, y: self.y + other.y }
    }

    /// Componentwise difference.
    pub fn sub(self, other: Point) -> (r: Point)
        requires
            i64::MIN <= self.x - other.x <= i64::MAX,
            i64::MIN <= self.y - other.y <= i64::MAX,
        ensures
            r == self.spec_sub(other),
    {
        Point { x: self.x - other.x, y: self.y - other.y }
    }
}

/// The axis-aligned bounding box of the points fed into it, in a unit's
/// local coordinate space. Well-formed when `min` is componentwise at most
/// `max`; `from_point` establishes that and `union_point` preserves it.
#[derive(Debug, Clone, Copy, PartialEq)]
pub struct Region {
    pub min: Point,
    pub max: Point,
}

impl Region {
    pub open spec fn wf(self) -> bool {
        self.min.x <= self.max.x && self.min.y <= self.max.y
    }

    /// Closed-interval membership: the boundary counts as inside.
    pub open spec fn spec_contains(self, p: Point) -> bool {
        self.min.x <= p.x <= self.max.x && self.min.y <= p.y <= self.max.y
    }

    /// Every point of `inner` is a point of `self`.
    pub open spec fn encloses(self, inner: Region) -> bool {
        self.min.x <= inner.min.x && self.min.y <= inner.min.y && inner.max.x <= self.max.x
            && inner.max.y <= self.max.y
    }

    pub open spec fn spec_from_point(p: Point) -> Region {
        Region { min: p, max: p }
    }

    /// Componentwise min/max against `p`: the smallest well-formed rectangle
    /// holding both the old rectangle and `p`.
    pub open spec fn spec_union_point(self, p: Point) -> Region {
        Region {
            min: Point {
                x: if p.x < self.min.x { p.x } else { self.min.x },
                y: if p.y < self.min.y { p.y } else { self.min.y },
            },
            max: Point {
                x: if p.x > self.max.x { p.x } else { self.max.x },
                y: if p.y > self.max.y { p.y } else { self.max.y },
            },
        }
    }

    /// The degenerate rectangle at a single point.
    pub fn from_point(point: Point) -> (r: Region)
        ensures
            r == Region::spec_from_point(point),
            r.wf(),
            r.spec_contains(point),
    {
        Region { min: point, max: point }
    }

    /// A rectangle with the given corners, taken as they are.
    pub fn new(min: Point, max: Point) -> (r: Region)
        ensures
            r == (Region { min, max }),
    {
        Region { min, max }
    }

    /// Expand to include `p`.
    pub fn union_point(self, p: Point) -> (r: Region)
        ensures
            r == self.spec_union_point(p),
            r.spec_contains(p),
            self.wf() ==> r.wf(),
            forall|q: Point| self.spec_contains(q) ==> r.spec_contains(q),
    {
        Region {
            min: Point {
                x: if p.x < self.min.x { p.x } else { self.min.x },
                y: if p.y < self.min.y { p.y } else { self.min.y },
            },
            max: Point {
                x: if p.x > self.max.x { p.x } else { self.max.x },
                y: if p.y > self.max.y { p.y } else { self.max.y },
            },
        }
    }

    /// True iff `p` lies inside the rectangle, boundary included.
    pub fn contains(&self, p: Point) -> (r: bool)
        ensures
            r == self.spec_contains(p),
    {
        self.min.x <= p.x && p.x <= self.max.x && self.min.y <= p.y && p.y <= self.max.y
    }
}

/// The rectangle after unioning each point of `ps` in order into `r`.
pub open spec fn region_union_all(r: Region, ps: Seq<Point>) -> Region
    decreases ps.len(),
{
    if ps.len() == 0 {
        r
    } else {
        region_union_all(r, ps.drop_last()).spec_union_point(ps.last())
    }
}

/// Unioning a sequence of points keeps the rectangle well-formed, keeps every
/// point it already contained, contains every point of the sequence, and adds
/// nothing more: any well-formed rectangle that encloses the start and
/// contains all the points encloses the result.
pub proof fn lemma_union_all_bounds(r0: Region, ps: Seq<Point>)
    requires
        r0.wf(),
    ensures
        region_union_all(r0, ps).wf(),
        region_union_all(r0, ps).encloses(r0),
        forall|i: int| 0 <= i < ps.len() ==> region_union_all(r0, ps).spec_contains(ps[i]),
        forall|r2: Region|
            (r2.wf() && r2.encloses(r0) && (forall|i: int|
                0 <= i < ps.len() ==> r2.spec_contains(#[trigger] ps[i])))
                ==> #[trigger] r2.encloses(region_union_all(r0, ps)),
    decreases ps.len(),
{
    if ps.len() > 0 {
        lemma_union_all_bounds(r0, ps.drop_last());
        let prev = region_union_all(r0, ps.drop_last());
        let r = region_union_all(r0, ps);
        assert forall|i: int| 0 <= i < ps.len() implies r.spec_contains(ps[i]) by {
            if i < ps.len() - 1 {
                assert(prev.spec_contains(ps.drop_last()[i]));
            }
        }
        assert forall|r2: Region|
            r2.wf() && r2.encloses(r0) && (forall|i: int|
                0 <= i < ps.len() ==> r2.spec_contains(#[trigger] ps[i])) implies #[trigger] r2
            .encloses(r) by {
            assert forall|i: int| 0 <= i < ps.drop_last().len() implies r2.spec_contains(
                #[trigger] ps.drop_last()[i],
            ) by {
                assert(ps.drop_last()[i] == ps[i]);
            }
            assert(r2.encloses(prev));
            assert(r2.spec_contains(ps.last()));
        }
    }
}

/// Law: the bounding rectangle grown from a first point by unioning a
/// sequence of further points contains each of those points, and is minimal:
/// no smaller axis-aligned rectangle contains them all, since any well-formed
/// rectangle containing them all encloses it.
pub proof fn lemma_region_of_points_minimal(p0: Point, ps: Seq<Point>)
    ensures
        region_union_all(Region::spec_from_point(p0), ps).wf(),
        region_union_all(Region::spec_from_point(p0), ps).spec_contains(p0),
        forall|i: int|
            0 <= i < ps.len() ==> region_union_all(Region::spec_from_point(p0), ps).spec_contains(
                ps[i],
            ),
        forall|r2: Region|
            (r2.wf() && r2.spec_contains(p0) && (forall|i: int|
                0 <= i < ps.len() ==> r2.spec_contains(#[trigger] ps[i])))
                ==> #[trigger] r2.encloses(region_union_all(Region::spec_from_point(p0), ps)),
{
    let r0 = Region::spec_from_point(p0);
    lemma_union_all_bounds(r0, ps);
    assert(region_union_all(r0, ps).encloses(r0));
    assert forall|r2: Region|
        r2.wf() && r2.spec_contains(p0) && (forall|i: int|
            0 <= i < ps.len() ==> r2.spec_contains(#[trigger] ps[i])) implies #[trigger] r2
        .encloses(region_union_all(r0, ps)) by {
        assert(r2.encloses(r0));
    }
}

/// Law: unioning points is commutative, and a point already inside a
/// well-formed rectangle changes nothing when unioned in again.
pub proof fn lemma_union_point_algebra(r: Region, p: Point, q: Point)
    ensures
        r.spec_union_point(p).spec_union_point(q) == r.spec_union_point(q).spec_union_point(p),
        r.wf() && r.spec_contains(p) ==> r.spec_union_point(p) == r,
{
}

/// Law: membership is reflexive for construction and union. The degenerate
/// rectangle at `p` contains `p`, a rectangle unioned with `p` contains `p`,
/// and the union keeps every point the rectangle already contained.
pub proof fn lemma_contains_reflexive(r: Region, p: Point)
    ensures
        Region::spec_from_point(p).spec_contains(p),
        r.spec_union_point(p).spec_contains(p),
        forall|q: Point| r.spec_contains(q) ==> #[trigger] r.spec_union_point(p).spec_contains(q),
{
}

} // verus!
