//! Planar geometry, as far as the curve algorithms look into it.
//!
//! The coordinates are floating-point numbers and all arithmetic on them is
//! done by the `geo` crate. The types of this module carry `geo` values
//! through verified code without opening them; the functions below are the
//! only places that call into `geo`, and what their contracts say of it is
//! taken on trust. A length, a distance or a fraction that `geo` measured
//! comes out by its bits, untouched.

use crate::binary64::Binary64;
use geo::kernels::{Kernel, RobustKernel};
use geo::line_intersection::LineIntersection;
use geo::{
    Contains, CoordsIter, EuclideanDistance, EuclideanLength, LineLocatePoint,
    LineStringSegmentize,
};
use vstd::prelude::*;

verus! {

/// An ordered sequence of coordinates, joined by straight segments.
#[verifier::external_body]
#[derive(Debug)]
pub struct Polyline(pub geo::LineString);

/// A coordinate pair.
#[verifier::external_body]
#[derive(Debug)]
pub struct Position(pub geo::Point);

/// A straight segment between two coordinate pairs.
#[verifier::external_body]
#[derive(Debug)]
pub struct Segment(pub geo::Line);

/// On which side of the directed line through two points a third point lies.
#[derive(Clone, Copy, Debug, PartialEq, Eq, Structural)]
pub enum Orientation {
    CounterClockwise,
    Clockwise,
    Collinear,
}

/// How two segments meet.
#[derive(Debug)]
pub enum Crossing {
    /// They share exactly one point.
    SinglePoint { intersection: Position, is_proper: bool },
    /// They lie on one line and overlap along a segment.
    Collinear { overlap: Segment },
    /// They share nothing.
    Disjoint,
}

/// The coordinates of a polyline, in order.
pub uninterp spec fn vertices(geom: Polyline) -> Seq<Position>;

/// Whether two coordinate pairs compare equal, number by number.
pub uninterp spec fn coincide(a: Position, b: Position) -> bool;

/// The Euclidean length of a polyline.
pub uninterp spec fn length_of(geom: Polyline) -> Binary64;

/// The location on a polyline that is nearest to a point, as a fraction of
/// the length of the polyline, if there is one.
pub uninterp spec fn location_of(geom: Polyline, point: Position) -> Option<Binary64>;

/// The orientation of `r` against the directed line from `p` to `q`.
pub uninterp spec fn orientation(p: Position, q: Position, r: Position) -> Orientation;

/// The Euclidean distance from a point to a polyline.
pub uninterp spec fn distance_of(point: Position, geom: Polyline) -> Binary64;

/// The segments of a polyline, from its first coordinate to its last.
pub uninterp spec fn legs(geom: Polyline) -> Seq<Segment>;

/// How segment `a` meets segment `b`.
pub uninterp spec fn crossing(a: Segment, b: Segment) -> Crossing;

/// Whether a point lies on a segment, its end points excepted unless the
/// segment is a single point.
pub uninterp spec fn on_segment(leg: Segment, point: Position) -> bool;

/// The location on a segment that is nearest to a point, as a fraction of
/// the length of the segment, if there is one.
pub uninterp spec fn position_on(leg: Segment, point: Position) -> Option<Binary64>;

/// The pieces into which a polyline is split when `count` pieces of equal
/// length are asked for, in order, if it can be split so.
pub uninterp spec fn pieces_of(geom: Polyline, count: usize) -> Option<Seq<Polyline>>;

/// Whether a polyline can be asked for `count` pieces: no piece, one piece
/// and the largest count are answered at once; any other count must be one
/// that a vector can hold, and must leave each piece at least about half a
/// unit of a length that is finite.
pub open spec fn splittable(geom: Polyline, count: usize) -> bool {
    count <= 1 || count == usize::MAX || {
        &&& count <= isize::MAX
        &&& !length_of(geom).is_negative()
        &&& !length_of(geom).is_nan()
        &&& !length_of(geom).is_infinite()
        &&& count <= 2 * length_of(geom).whole_part()
    }
}

/// Whether a polyline ends where it starts. One without coordinates counts
/// as closed.
pub open spec fn is_loop(geom: Polyline) -> bool {
    vertices(geom).len() == 0 || coincide(vertices(geom).first(), vertices(geom).last())
}

/// Calls `CoordsIter::coords_count` of `geo` on the line string: the number
/// of coordinates it holds.
#[verifier::external_body]
pub(crate) fn coords_count(geom: &Polyline) -> (count: usize)
    ensures
        count == vertices(*geom).len(),
{
    geom.0.coords_count()
}

/// Calls `LineString::is_closed` of `geo`, which compares the first
/// coordinate with the last and takes an empty line string for closed.
#[verifier::external_body]
pub(crate) fn is_closed(geom: &Polyline) -> (closed: bool)
    ensures
        closed == (vertices(*geom).len() == 0 || coincide(
            vertices(*geom).first(),
            vertices(*geom).last(),
        )),
{
    geom.0.is_closed()
}

/// Calls `EuclideanLength::euclidean_length` of `geo` on the line string and
/// hands the sum over by its bits. The sum runs over the segments, so it is
/// zero where there is none; a single segment between two equal coordinates
/// has length zero, or no length at all where they are infinite. Either way
/// the whole part is zero.
#[verifier::external_body]
pub(crate) fn euclidean_length(geom: &Polyline) -> (length: Binary64)
    ensures
        length == length_of(*geom),
        vertices(*geom).len() < 2 ==> length.truncated() == 0,
        vertices(*geom).len() == 2 && is_loop(*geom) ==> length.truncated() == 0,
{
    Binary64 { bits: geom.0.euclidean_length().to_bits() }
}

/// Calls `LineLocatePoint::line_locate_point` of `geo` on the line string and
/// hands the fraction over by its bits, or `None` where `geo` found none.
/// The fraction is a length reached along the line string over the total
/// length, the first never above the second, so it lies between zero and
/// one; where the total is infinite the quotient may be no number.
#[verifier::external_body]
pub(crate) fn line_locate_point(geom: &Polyline, point: &Position) -> (location: Option<Binary64>)
    ensures
        location == location_of(*geom, *point),
        location matches Some(fraction) ==> fraction.is_nan() || fraction.is_fraction(),
{
    match geom.0.line_locate_point(&point.0) {
        Some(fraction) => Some(Binary64 { bits: fraction.to_bits() }),
        None => None,
    }
}

/// Takes the first item of `LineString::coords` of `geo`: the first
/// coordinate, if there is one.
#[verifier::external_body]
pub(crate) fn first_coord(geom: &Polyline) -> (first: Option<Position>)
    ensures
        first == (if vertices(*geom).len() > 0 {
            Some(vertices(*geom).first())
        } else {
            None
        }),
{
    match geom.0.coords().next() {
        Some(coord) => Some(Position(geo::Point(*coord))),
        None => None,
    }
}

/// Takes the last item of `LineString::coords` of `geo`: the last
/// coordinate, if there is one.
#[verifier::external_body]
pub(crate) fn last_coord(geom: &Polyline) -> (last: Option<Position>)
    ensures
        last == (if vertices(*geom).len() > 0 {
            Some(vertices(*geom).last())
        } else {
            None
        }),
{
    match geom.0.coords().next_back() {
        Some(coord) => Some(Position(geo::Point(*coord))),
        None => None,
    }
}

/// Calls `RobustKernel::orient2d` of `geo` on the three coordinates and
/// hands its answer over variant by variant.
#[verifier::external_body]
pub(crate) fn orient2d(p: &Position, q: &Position, r: &Position) -> (side: Orientation)
    ensures
        side == orientation(*p, *q, *r),
{
    match RobustKernel::orient2d(p.0.0, q.0.0, r.0.0) {
        geo::kernels::Orientation::CounterClockwise => Orientation::CounterClockwise,
        geo::kernels::Orientation::Clockwise => Orientation::Clockwise,
        geo::kernels::Orientation::Collinear => Orientation::Collinear,
    }
}

/// Calls `EuclideanDistance::euclidean_distance` of `geo` from the point to
/// the line string and hands the distance over by its bits.
#[verifier::external_body]
pub(crate) fn euclidean_distance(point: &Position, geom: &Polyline) -> (distance: Binary64)
    ensures
        distance == distance_of(*point, *geom),
{
    Binary64 { bits: point.0.euclidean_distance(&geom.0).to_bits() }
}

/// Collects `LineString::lines` of `geo`: one segment for each pair of
/// neighbouring coordinates, in order. So there is none below two
/// coordinates, and otherwise one fewer than there are coordinates.
#[verifier::external_body]
pub(crate) fn lines(geom: &Polyline) -> (all: Vec<Segment>)
    ensures
        all@ == legs(*geom),
        vertices(*geom).len() < 2 ==> all.len() == 0,
        vertices(*geom).len() >= 2 ==> all.len() == vertices(*geom).len() - 1,
{
    geom.0.lines().map(Segment).collect()
}

/// Calls `line_intersection` of `geo` on the two segments and hands its
/// answer over variant by variant.
#[verifier::external_body]
pub(crate) fn line_intersection(a: &Segment, b: &Segment) -> (met: Crossing)
    ensures
        met == crossing(*a, *b),
{
    match geo::line_intersection::line_intersection(a.0, b.0) {
        Some(LineIntersection::SinglePoint { intersection, is_proper }) => Crossing::SinglePoint {
            intersection: Position(geo::Point(intersection)),
            is_proper,
        },
        Some(LineIntersection::Collinear { intersection }) => Crossing::Collinear {
            overlap: Segment(intersection),
        },
        None => Crossing::Disjoint,
    }
}

/// Calls `LineLocatePoint::line_locate_point` of `geo` on the segment and
/// hands the fraction over by its bits, or `None` where `geo` found none.
#[verifier::external_body]
pub(crate) fn segment_locate_point(leg: &Segment, point: &Position) -> (position: Option<Binary64>)
    ensures
        position == position_on(*leg, *point),
{
    match leg.0.line_locate_point(&point.0) {
        Some(fraction) => Some(Binary64 { bits: fraction.to_bits() }),
        None => None,
    }
}

/// Calls `LineStringSegmentize::line_segmentize` of `geo` and hands the
/// line strings of its answer over, in order. `geo` answers `None` to a
/// count of zero and to the largest count, and hands the line string back
/// for a count of one. For any other count it cuts pieces of the total
/// length over the count. It stops where that is not a distance above zero,
/// and where a segment would take more cuts than 64 bits count: the counts
/// that `splittable` admits keep the distance near half a unit or above and
/// the cuts of a segment near the count or below. How many pieces come out
/// is left open. Memory is taken as given, as for any vector.
#[verifier::external_body]
pub(crate) fn line_segmentize(geom: &Polyline, count: usize) -> (pieces: Option<Vec<Polyline>>)
    requires
        splittable(*geom, count),
    ensures
        match pieces {
            Some(split) => pieces_of(*geom, count) == Some(split@),
            None => pieces_of(*geom, count) is None,
        },
        count == 0 || count == usize::MAX ==> pieces is None,
{
    match geom.0.line_segmentize(count) {
        Some(multi) => Some(multi.0.into_iter().map(Polyline).collect()),
        None => None,
    }
}

/// Calls `Contains::contains` of `geo`: whether the segment contains the
/// point.
#[verifier::external_body]
pub(crate) fn contains(leg: &Segment, point: &Position) -> (inside: bool)
    ensures
        inside == on_segment(*leg, *point),
{
    leg.0.contains(&point.0)
}

} // verus!
