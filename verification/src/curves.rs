//! A curve and the primitive operations on it: projecting a point onto the
//! curve and, the other way round, finding where a distance along the curve
//! lies.
//!
//! Distances along a curve and offsets from it are whole numbers. What has to
//! be computed on coordinates (interpolating a point, buffering a bounding
//! box, building a normal) is left to the caller; the operations here decide
//! on the whole numbers and on what the geometry answers.

use crate::binary64::{fraction_stays_within_the_number, pieces_cover_the_whole_part, Binary64};
use crate::geometry::{
    contains, coords_count, crossing, distance_of, euclidean_distance, euclidean_length,
    first_coord, is_closed, is_loop, last_coord, legs, length_of, line_intersection,
    line_locate_point, line_segmentize, lines, location_of, on_segment, orient2d, orientation,
    pieces_of, position_on, segment_locate_point, vertices, Crossing, Orientation, Polyline,
    Position, Segment,
};
use vstd::prelude::*;

verus! {

/// Errors when manipulating the curves.
#[derive(Clone, Copy, Debug, PartialEq, Eq, Structural)]
pub enum CurveError {
    /// To be valid, a curve must have at least two distinct points.
    InvalidGeometry,
    /// At least one coordinate is not a finite number.
    NotFiniteCoordinates,
    /// A considered point is not on the curve.
    NotOnTheCurve,
}

/// A point in space projected on the curve.
#[derive(Clone, Copy, Debug, PartialEq, Eq, Structural)]
pub struct CurveProjection {
    /// How far from the curve start the point is located. If the curve is
    /// part of a larger curve, its `start_offset` is included.
    pub distance_along_curve: usize,
    /// How far the point is from the curve. It is positive if the point is
    /// located on the left of the curve and negative if it is on the right.
    pub offset: isize,
}

/// A place on a curve, as a fraction of the curve's length from its start.
#[derive(Clone, Copy, Debug, PartialEq, Eq, Structural)]
pub struct CurveFraction {
    /// The distance from the start of the curve.
    pub numerator: usize,
    /// The length of the curve.
    pub denominator: usize,
}

/// The offset of a point that lies `distance` away from a curve: the
/// distance cut down to a whole number, positive where the orientation test
/// came out clockwise and negative otherwise, and kept within the range of
/// `isize`. A distance that is itself negative turns the sign once more.
pub open spec fn signed_distance(side: Orientation, distance: Binary64) -> int {
    let whole = distance.magnitude().truncated();
    if (side == Orientation::Clockwise) != distance.is_negative() {
        if whole <= isize::MAX {
            whole as int
        } else {
            isize::MAX as int
        }
    } else {
        if whole <= isize::MAX {
            -(whole as int)
        } else {
            isize::MIN as int
        }
    }
}

/// Where on a curve of `length` that begins at `start_offset` the absolute
/// `distance` lies: the fraction `(distance - start_offset) / length`, unless
/// it falls outside `[0, 1]` or the curve has no length.
pub open spec fn fraction_at(distance: usize, start_offset: usize, length: usize) -> Result<
    CurveFraction,
    CurveError,
> {
    if start_offset <= distance && distance - start_offset <= length && 0 < length {
        Ok(CurveFraction { numerator: (distance - start_offset) as usize, denominator: length })
    } else {
        Err(CurveError::NotOnTheCurve)
    }
}

impl CurveProjection {
    /// The projection of a point whose nearest location lies `along` from
    /// the start of a curve that itself begins at `start_offset`, and whose
    /// distance from the curve is `distance`, on the side that `side` tells.
    pub fn at(along: usize, start_offset: usize, side: Orientation, distance: Binary64) -> (projection:
        CurveProjection)
        requires
            along + start_offset <= usize::MAX,
        ensures
            projection.distance_along_curve == along + start_offset,
            projection.offset == signed_distance(side, distance),
    {
        let whole = distance.abs().truncate();
        let fits = whole <= isize::MAX as usize;
        let clockwise = match side {
            Orientation::Clockwise => true,
            _ => false,
        };
        let offset: isize = if clockwise != distance.negative() {
            if fits {
                whole as isize
            } else {
                isize::MAX
            }
        } else {
            if fits {
                -(whole as isize)
            } else {
                isize::MIN
            }
        };
        CurveProjection { distance_along_curve: along + start_offset, offset }
    }
}

impl CurveFraction {
    /// A fraction between zero and one.
    pub open spec fn wf(&self) -> bool {
        self.numerator <= self.denominator && 0 < self.denominator
    }

    /// Where on a curve of `length` that begins at `start_offset` the
    /// absolute `distance` lies.
    pub fn of(distance: usize, start_offset: usize, length: usize) -> (place: Result<
        CurveFraction,
        CurveError,
    >)
        ensures
            place == fraction_at(distance, start_offset, length),
            place matches Ok(fraction) ==> fraction.wf(),
    {
        if start_offset <= distance && distance - start_offset <= length && 0 < length {
            Ok(CurveFraction { numerator: distance - start_offset, denominator: length })
        } else {
            Err(CurveError::NotOnTheCurve)
        }
    }
}

impl Crossing {
    /// The point of a crossing that is a single point.
    pub open spec fn point(self) -> Option<Position> {
        match self {
            Crossing::SinglePoint { intersection, .. } => Some(intersection),
            _ => None,
        }
    }
}

/// The point of the first crossing, in the order given, that is a single
/// point. Segments that overlap along a line give none.
pub fn first_single_point(crossings: Vec<Crossing>) -> (found: Option<Position>)
    ensures
        found is None <==> forall|i: int|
            0 <= i < crossings.len() ==> (#[trigger] crossings[i]).point() is None,
        found is Some ==> exists|i: int|
            0 <= i < crossings.len() && (#[trigger] crossings[i]).point() == found && forall|j: int|
                0 <= j < i ==> (#[trigger] crossings[j]).point() is None,
{
    let ghost all = crossings@;
    let mut rest = crossings;
    let mut found: Option<Position> = None;
    while rest.len() > 0
        invariant
            rest.len() <= all.len(),
            rest@ == all.take(rest.len() as int),
            found is None <==> forall|i: int|
                rest.len() <= i < all.len() ==> (#[trigger] all[i]).point() is None,
            found is Some ==> exists|i: int|
                rest.len() <= i < all.len() && (#[trigger] all[i]).point() == found && forall|j: int|
                    rest.len() <= j < i ==> (#[trigger] all[j]).point() is None,
        decreases rest.len(),
    {
        let last = rest.pop().unwrap();
        match last {
            Crossing::SinglePoint { intersection, .. } => {
                found = Some(intersection);
            },
            _ => {},
        }
    }
    found
}

/// The index of the first flag that is set.
pub fn first_set(flags: &Vec<bool>) -> (found: Option<usize>)
    ensures
        match found {
            Some(i) => i < flags.len() && flags[i as int] && forall|j: int|
                0 <= j < i ==> !flags[j],
            None => forall|j: int| 0 <= j < flags.len() ==> !flags[j],
        },
{
    let mut i: usize = 0;
    while i < flags.len()
        invariant
            i <= flags.len(),
            forall|j: int| 0 <= j < i ==> !flags[j],
        decreases flags.len() - i,
    {
        if flags[i] {
            return Some(i);
        }
        i += 1;
    }
    None
}

/// A curve is the fundamental building block of a linear referencing system.
/// It provides the primitives to locate and project points on it. A curve
/// can be a piece of a longer curve.
pub struct Curve {
    /// When the curve is a piece of a longer curve, how far along the longer
    /// curve it begins.
    pub start_offset: usize,
    /// The largest distance that is considered as being part of the curve.
    /// It serves to compute the bounding box.
    pub max_extent: usize,
    /// The coordinates are planar. All distances and lengths are in units of
    /// those coordinates.
    pub geom: Polyline,
}

impl Curve {
    /// A curve is valid when it has at least two coordinates and, if it has
    /// exactly two, they differ.
    pub open spec fn valid(&self) -> bool {
        vertices(self.geom).len() >= 2 && (vertices(self.geom).len() > 2 || !is_loop(self.geom))
    }

    /// The length of the curve, in whole units.
    pub open spec fn whole_length(&self) -> usize {
        length_of(self.geom).truncated()
    }

    /// How far from the start of the geometry the location nearest to
    /// `point` lies, in whole units: the fraction that the metric kernel found,
    /// times the length, cut down. `None` where the kernel found no location.
    pub open spec fn located(&self, point: Position) -> Option<usize> {
        match location_of(self.geom, point) {
            Some(location) => Some(location.truncated_times(length_of(self.geom))),
            None => None,
        }
    }

    /// Whether the distance along the curve of the projection of `point`
    /// fits in `usize`.
    pub open spec fn projection_fits(&self, point: Position) -> bool {
        self.valid() ==> (self.located(point) matches Some(along) ==> along + self.start_offset
            <= usize::MAX)
    }

    /// The projection of `point`.
    pub open spec fn projected(&self, point: Position) -> Result<CurveProjection, CurveError> {
        if !self.valid() {
            Err(CurveError::InvalidGeometry)
        } else {
            match self.located(point) {
                None => Err(CurveError::NotFiniteCoordinates),
                Some(along) => Ok(
                    CurveProjection {
                        distance_along_curve: (along + self.start_offset) as usize,
                        offset: signed_distance(
                            orientation(
                                point,
                                vertices(self.geom).last(),
                                vertices(self.geom).first(),
                            ),
                            distance_of(point, self.geom),
                        ) as isize,
                    },
                ),
            }
        }
    }

    /// Whether the segment at `index` is the first that contains `point`.
    pub open spec fn holds_first(&self, point: Position, index: int) -> bool {
        &&& 0 <= index < legs(self.geom).len()
        &&& on_segment(legs(self.geom)[index], point)
        &&& forall|j: int| 0 <= j < index ==> !on_segment(#[trigger] legs(self.geom)[j], point)
    }

    /// Whether no segment contains `point`.
    pub open spec fn holds_nowhere(&self, point: Position) -> bool {
        forall|j: int|
            0 <= j < legs(self.geom).len() ==> !on_segment(#[trigger] legs(self.geom)[j], point)
    }

    /// Where on the curve a projection lies.
    pub open spec fn resolved(&self, projection: CurveProjection) -> Result<
        CurveFraction,
        CurveError,
    > {
        fraction_at(projection.distance_along_curve, self.start_offset, self.whole_length())
    }

    /// Builds a new curve from a polyline. `max_extent` is the largest
    /// distance that is considered to be on the curve; it plays a role in the
    /// bounding box.
    pub fn new(geom: Polyline, max_extent: usize) -> (curve: Curve)
        ensures
            curve.start_offset == 0,
            curve.max_extent == max_extent,
            curve.geom == geom,
    {
        Curve { start_offset: 0, max_extent, geom }
    }

    /// Into how many pieces a polyline is to be split so that none is longer
    /// than `max_len`: the length over `max_len`, and the least whole number
    /// that is not below it. A polyline without length is split into none.
    pub fn fragment_count(geom: &Polyline, max_len: usize) -> (count: usize)
        ensures
            count == length_of(*geom).ceiling_divided(max_len),
    {
        euclidean_length(geom).ceiling_divide(max_len)
    }

    /// Splits the polyline into smaller curves of at most `max_len` length,
    /// in the order of the polyline. Each starts at offset zero: whoever
    /// chains them sets the offsets. A polyline that cannot be split gives
    /// no curves: one without length, one whose length is not finite, and
    /// one that would take more pieces than a vector can hold.
    pub fn new_fragmented(geom: Polyline, max_len: usize, max_extent: usize) -> (curves: Vec<Curve>)
        ensures
            length_of(geom).ceiling_divided(max_len) <= isize::MAX ==> match pieces_of(
                geom,
                length_of(geom).ceiling_divided(max_len),
            ) {
                Some(split) => curves.len() == split.len() && forall|i: int|
                    0 <= i < split.len() ==> {
                        &&& (#[trigger] curves[i]).geom == split[i]
                        &&& curves[i].start_offset == 0
                        &&& curves[i].max_extent == max_extent
                    },
                None => curves.len() == 0,
            },
            length_of(geom).ceiling_divided(max_len) > isize::MAX ==> curves.len() == 0,
            length_of(geom).ceiling_divided(max_len) == 0 ==> curves.len() == 0,
    {
        let count = Curve::fragment_count(&geom, max_len);
        if count > isize::MAX as usize {
            return Vec::new();
        }
        proof {
            if count >= 2 {
                let length = length_of(geom);
                pieces_cover_the_whole_part(length, max_len);
                assert(count - 1 <= length.whole_part()) by (nonlinear_arith)
                    requires
                        (count - 1) * max_len <= length.whole_part(),
                        max_len >= 1,
                        count >= 1,
                ;
            }
        }
        Curve::from_pieces(line_segmentize(&geom, count), max_extent)
    }

    /// Turns the pieces into which a polyline was split into curves, in the
    /// same order. Each starts at offset zero. Where the polyline could not
    /// be split there are no curves.
    pub fn from_pieces(pieces: Option<Vec<Polyline>>, max_extent: usize) -> (curves: Vec<Curve>)
        ensures
            pieces is None ==> curves.len() == 0,
            pieces matches Some(split) ==> curves.len() == split.len() && forall|i: int|
                0 <= i < split.len() ==> {
                    &&& (#[trigger] curves[i]).geom == split[i]
                    &&& curves[i].start_offset == 0
                    &&& curves[i].max_extent == max_extent
                },
    {
        let mut reversed: Vec<Curve> = Vec::new();
        let mut curves: Vec<Curve> = Vec::new();
        if let Some(split) = pieces {
            let ghost all = split@;
            let mut rest = split;
            while rest.len() > 0
                invariant
                    rest.len() + reversed.len() == all.len(),
                    rest@ == all.take(rest.len() as int),
                    forall|i: int|
                        0 <= i < reversed.len() ==> {
                            &&& (#[trigger] reversed[i]).geom == all[all.len() - 1 - i]
                            &&& reversed[i].start_offset == 0
                            &&& reversed[i].max_extent == max_extent
                        },
                decreases rest.len(),
            {
                let piece = rest.pop().unwrap();
                reversed.push(Curve::new(piece, max_extent));
            }
            let ghost turned = reversed@;
            while reversed.len() > 0
                invariant
                    turned.len() == all.len(),
                    reversed.len() + curves.len() == all.len(),
                    reversed@ == turned.take(reversed.len() as int),
                    forall|i: int|
                        0 <= i < turned.len() ==> {
                            &&& (#[trigger] turned[i]).geom == all[all.len() - 1 - i]
                            &&& turned[i].start_offset == 0
                            &&& turned[i].max_extent == max_extent
                        },
                    forall|i: int|
                        0 <= i < curves.len() ==> {
                            &&& (#[trigger] curves[i]).geom == all[i]
                            &&& curves[i].start_offset == 0
                            &&& curves[i].max_extent == max_extent
                        },
                decreases reversed.len(),
            {
                let curve = reversed.pop().unwrap();
                curves.push(curve);
            }
        }
        curves
    }

    /// Is the geometry valid? It must have at least two coordinates. If
    /// there are exactly two coordinates, they must be different.
    pub fn is_valid(&self) -> (valid: bool)
        ensures
            valid == self.valid(),
    {
        let count = coords_count(&self.geom);
        count >= 2 && (count > 2 || !is_closed(&self.geom))
    }

    /// The length of the curve, in whole units: what comes after the point is
    /// dropped. A curve that is not valid has length zero.
    pub fn length(&self) -> (length: usize)
        ensures
            length == self.whole_length(),
            !self.valid() ==> length == 0,
    {
        euclidean_length(&self.geom).truncate()
    }

    /// Projects the point to the closest position on the curve. Fails if
    /// the curve is invalid, or if the metric kernel finds no nearest
    /// location because a coordinate is not finite. If the curve is a piece
    /// of a larger curve (`start_offset > 0`), `distance_along_curve` counts
    /// from the start of the whole curve, and it never lies past the end of
    /// this piece: where the curve has a length, `resolve` takes it back.
    /// The point may be arbitrarily far away.
    pub fn project(&self, point: &Position) -> (projection: Result<CurveProjection, CurveError>)
        requires
            self.projection_fits(*point),
        ensures
            projection == self.projected(*point),
            !self.valid() ==> projection == Err::<CurveProjection, CurveError>(
                CurveError::InvalidGeometry,
            ),
            projection matches Ok(found) ==> self.start_offset <= found.distance_along_curve
                <= self.start_offset + self.whole_length(),
            projection matches Ok(found) ==> 0 < self.whole_length() ==> self.resolved(found)
                is Ok,
    {
        self.checked_project(point).unwrap()
    }

    /// Projects the point as `project` does, for every curve and every
    /// point: `None` tells that the distance along the curve does not fit in
    /// `usize`.
    pub fn checked_project(&self, point: &Position) -> (projection: Option<
        Result<CurveProjection, CurveError>,
    >)
        ensures
            projection == (if self.projection_fits(*point) {
                Some(self.projected(*point))
            } else {
                None
            }),
            projection matches Some(Ok(found)) ==> self.start_offset
                <= found.distance_along_curve <= self.start_offset + self.whole_length(),
            projection matches Some(Ok(found)) ==> 0 < self.whole_length() ==> self.resolved(
                found,
            ) is Ok,
    {
        if !self.is_valid() {
            return Some(Err(CurveError::InvalidGeometry));
        }
        match line_locate_point(&self.geom, point) {
            Some(location) => {
                let length = euclidean_length(&self.geom);
                let along = location.truncate_times(length);
                proof {
                    fraction_stays_within_the_number(location, length);
                }
                if along > usize::MAX - self.start_offset {
                    return None;
                }
                let begin = first_coord(&self.geom).unwrap();
                let end = last_coord(&self.geom).unwrap();
                let side = orient2d(point, &end, &begin);
                let distance = euclidean_distance(point, &self.geom);
                Some(Ok(CurveProjection::at(along, self.start_offset, side, distance)))
            },
            None => Some(Err(CurveError::NotFiniteCoordinates)),
        }
    }

    /// Where on the curve the projection lies, as a fraction of the curve's
    /// length that is ready to be interpolated. Only the distance along the
    /// curve counts: the offset of the projection is ignored. Fails if the
    /// distance does not fall on this curve; on a curve that is not valid no
    /// distance does.
    pub fn resolve(&self, projection: &CurveProjection) -> (place: Result<
        CurveFraction,
        CurveError,
    >)
        ensures
            place == self.resolved(*projection),
            place matches Ok(fraction) ==> fraction.wf(),
            !self.valid() ==> place == Err::<CurveFraction, CurveError>(CurveError::NotOnTheCurve),
    {
        CurveFraction::of(projection.distance_along_curve, self.start_offset, self.length())
    }

    /// Returns the point where the curve and the segment intersect. If the
    /// segment intersects the curve several times, the intersection with the
    /// first segment of the curve that it meets in a single point is
    /// returned. Where the segment is collinear with a segment of the curve,
    /// that segment of the curve is passed over. A curve without two
    /// coordinates has no segment and is never crossed.
    pub fn intersect_segment(&self, segment: Segment) -> (found: Option<Position>)
        ensures
            found is None <==> forall|i: int|
                0 <= i < legs(self.geom).len() ==> (#[trigger] crossing(
                    segment,
                    legs(self.geom)[i],
                )).point() is None,
            found is Some ==> exists|i: int|
                0 <= i < legs(self.geom).len() && (#[trigger] crossing(
                    segment,
                    legs(self.geom)[i],
                )).point() == found && forall|j: int|
                    0 <= j < i ==> (#[trigger] crossing(segment, legs(self.geom)[j])).point()
                        is None,
            vertices(self.geom).len() < 2 ==> found is None,
    {
        let curve_lines = lines(&self.geom);
        let mut crossings: Vec<Crossing> = Vec::new();
        let mut i: usize = 0;
        while i < curve_lines.len()
            invariant
                i <= curve_lines.len(),
                curve_lines@ == legs(self.geom),
                crossings.len() == i,
                forall|k: int|
                    0 <= k < i ==> (#[trigger] crossings[k]) == crossing(segment, curve_lines[k]),
            decreases curve_lines.len() - i,
        {
            crossings.push(line_intersection(&segment, &curve_lines[i]));
            i += 1;
        }
        let ghost met = crossings@;
        let found = first_single_point(crossings);
        proof {
            if found is Some {
                let i = choose|i: int|
                    0 <= i < met.len() && (#[trigger] met[i]).point() == found && forall|j: int|
                        0 <= j < i ==> (#[trigger] met[j]).point() is None;
                assert(crossing(segment, legs(self.geom)[i]) == met[i]);
                assert forall|j: int| 0 <= j < i implies (#[trigger] crossing(
                    segment,
                    legs(self.geom)[j],
                )).point() is None by {
                    assert(met[j].point() is None);
                }
            } else {
                assert forall|k: int| 0 <= k < legs(self.geom).len() implies (#[trigger] crossing(
                    segment,
                    legs(self.geom)[k],
                )).point() is None by {
                    assert(met[k].point() is None);
                }
            }
        }
        found
    }

    /// The first segment of the curve that contains the point. Fails if no
    /// segment contains it, as on a curve without two coordinates.
    pub fn containing_segment(&self, point: &Position) -> (found: Result<Segment, CurveError>)
        ensures
            match found {
                Ok(leg) => exists|i: int| #[trigger] self.holds_first(*point, i) && legs(self.geom)[i] == leg,
                Err(error) => error == CurveError::NotFiniteCoordinates && self.holds_nowhere(
                    *point,
                ),
            },
            vertices(self.geom).len() < 2 ==> found is Err,
    {
        let mut curve_lines = lines(&self.geom);
        let mut holds: Vec<bool> = Vec::new();
        let mut i: usize = 0;
        while i < curve_lines.len()
            invariant
                i <= curve_lines.len(),
                curve_lines@ == legs(self.geom),
                holds.len() == i,
                forall|k: int| 0 <= k < i ==> holds[k] == on_segment(#[trigger] curve_lines[k], *point),
            decreases curve_lines.len() - i,
        {
            holds.push(contains(&curve_lines[i], point));
            i += 1;
        }
        match first_set(&holds) {
            Some(index) => {
                assert(self.holds_first(*point, index as int));
                Ok(curve_lines.remove(index))
            },
            None => Err(CurveError::NotFiniteCoordinates),
        }
    }

    /// The segment on which a normal at `point` stands, and where on the
    /// segment the point lies, as a fraction of the segment: the first
    /// segment of the curve that contains the point. Fails if no segment
    /// contains it, or if the metric kernel finds no location on that
    /// segment.
    pub fn located_segment(&self, point: &Position) -> (found: Result<
        (Segment, Binary64),
        CurveError,
    >)
        ensures
            match found {
                Ok((leg, position)) => position_on(leg, *point) == Some(position) && exists|i: int|
                    #[trigger] self.holds_first(*point, i) && legs(self.geom)[i] == leg,
                Err(error) => error == CurveError::NotFiniteCoordinates && (self.holds_nowhere(
                    *point,
                ) || exists|i: int| #[trigger]
                    self.holds_first(*point, i) && position_on(legs(self.geom)[i], *point)
                        is None),
            },
            vertices(self.geom).len() < 2 ==> found is Err,
    {
        match self.containing_segment(point) {
            Ok(leg) => match segment_locate_point(&leg, point) {
                Some(position) => Ok((leg, position)),
                None => Err(CurveError::NotFiniteCoordinates),
            },
            Err(error) => Err(error),
        }
    }
}

/// A curve that is not valid projects no point: whatever the point, the
/// projection fails with `InvalidGeometry`.
pub proof fn invalid_curve_projects_nothing(curve: Curve, point: Position)
    requires
        !curve.valid(),
    ensures
        curve.projection_fits(point),
        curve.projected(point) == Err::<CurveProjection, CurveError>(CurveError::InvalidGeometry),
{
}

/// On a valid curve a projection fails only where the metric kernel found no
/// nearest location, and then with `NotFiniteCoordinates`. No distance from
/// the curve is too large. A projection that succeeds lies at or beyond the
/// start offset of the curve.
pub proof fn valid_curve_projects_every_located_point(curve: Curve, point: Position)
    requires
        curve.valid(),
        curve.projection_fits(point),
    ensures
        location_of(curve.geom, point) is Some <==> curve.projected(point) is Ok,
        location_of(curve.geom, point) is None <==> curve.projected(point) == Err::<
            CurveProjection,
            CurveError,
        >(CurveError::NotFiniteCoordinates),
        curve.projected(point) matches Ok(projection) ==> projection.distance_along_curve
            >= curve.start_offset,
{
}

/// Moving the start of a curve by `shift` moves every projection by as much
/// along the curve and leaves its offset, and whether it fails, as they were.
pub proof fn start_offset_shifts_projection(
    curve: Curve,
    shifted: Curve,
    shift: nat,
    point: Position,
)
    requires
        shifted.geom == curve.geom,
        shifted.start_offset == curve.start_offset + shift,
        shifted.projection_fits(point),
    ensures
        curve.projection_fits(point),
        match (curve.projected(point), shifted.projected(point)) {
            (Ok(before), Ok(after)) => {
                &&& after.distance_along_curve == before.distance_along_curve + shift
                &&& after.offset == before.offset
            },
            (Err(before), Err(after)) => before == after,
            _ => false,
        },
{
}

/// A projection is a function of the geometry, of the start offset and of
/// the point: two curves that agree on the first two project alike, whatever
/// their `max_extent`.
pub proof fn projection_is_determined(one: Curve, other: Curve, point: Position)
    requires
        one.geom == other.geom,
        one.start_offset == other.start_offset,
    ensures
        one.projection_fits(point) == other.projection_fits(point),
        one.projected(point) == other.projected(point),
{
}

/// Where a projection resolves to is a function of the geometry, of the
/// start offset and of the distance along the curve: neither the offset of
/// the projection nor the `max_extent` of the curve counts.
pub proof fn resolution_is_determined(
    one: Curve,
    other: Curve,
    projection: CurveProjection,
    sibling: CurveProjection,
)
    requires
        one.geom == other.geom,
        one.start_offset == other.start_offset,
        projection.distance_along_curve == sibling.distance_along_curve,
    ensures
        one.resolved(projection) == other.resolved(sibling),
{
}

/// A projection resolves exactly when the curve has a length and the
/// distance lies between the start offset and the start offset plus that
/// length, both included. Every other distance fails with `NotOnTheCurve`.
pub proof fn resolution_bounds(curve: Curve, projection: CurveProjection)
    ensures
        curve.resolved(projection) is Ok <==> {
            &&& 0 < curve.whole_length()
            &&& curve.start_offset <= projection.distance_along_curve
            &&& projection.distance_along_curve <= curve.start_offset + curve.whole_length()
        },
        curve.resolved(projection) is Err ==> curve.resolved(projection) == Err::<
            CurveFraction,
            CurveError,
        >(CurveError::NotOnTheCurve),
        curve.resolved(projection) matches Ok(fraction) ==> {
            &&& fraction.wf()
            &&& fraction.numerator == projection.distance_along_curve - curve.start_offset
            &&& fraction.denominator == curve.whole_length()
        },
{
}

/// What `project` yields, `resolve` takes back. Where the metric kernel
/// located the point at a fraction of the length, a fraction that lies
/// between zero and one or is no number, the projection lies between the
/// start offset and the start offset plus the length of the curve; and where
/// the curve has a length, it resolves on that curve.
pub proof fn projection_resolves(curve: Curve, point: Position)
    requires
        curve.valid(),
        curve.projection_fits(point),
        location_of(curve.geom, point) matches Some(location) && (location.is_nan()
            || location.is_fraction()),
    ensures
        curve.projected(point) matches Ok(projection) && {
            &&& curve.start_offset <= projection.distance_along_curve
            &&& projection.distance_along_curve <= curve.start_offset + curve.whole_length()
            &&& 0 < curve.whole_length() ==> curve.resolved(projection) is Ok
        },
{
    fraction_stays_within_the_number(location_of(curve.geom, point).unwrap(), length_of(curve.geom));
}

/// What `fragment_count` counts fits what `length` measures: that many
/// pieces of `max_len` cover the curve, and one fewer would not. The count is
/// zero exactly where the length itself is zero, not only its whole part.
pub proof fn fragment_count_fits_the_length(curve: Curve, max_len: usize)
    requires
        max_len > 0,
        !length_of(curve.geom).is_negative(),
        !length_of(curve.geom).is_nan(),
        !length_of(curve.geom).is_infinite(),
        length_of(curve.geom).whole_part() <= usize::MAX,
        length_of(curve.geom).ceiling_divided(max_len) < usize::MAX,
    ensures
        curve.whole_length() <= length_of(curve.geom).ceiling_divided(max_len) * max_len,
        length_of(curve.geom).ceiling_divided(max_len) > 0 ==> (length_of(
            curve.geom,
        ).ceiling_divided(max_len) - 1) * max_len <= curve.whole_length(),
        length_of(curve.geom).ceiling_divided(max_len) == 0 <==> length_of(curve.geom).is_zero(),
{
    pieces_cover_the_whole_part(length_of(curve.geom), max_len);
}

/// The offset of a projection tells the side: for a distance that is not
/// negative it is never negative where the orientation test came out
/// clockwise and never positive otherwise. It is zero exactly where the
/// distance has no whole part, it always fits in `isize`, and it is never
/// larger than the distance.
pub proof fn offset_sign_follows_side(side: Orientation, distance: Binary64)
    ensures
        !distance.is_negative() && side == Orientation::Clockwise ==> signed_distance(
            side,
            distance,
        ) >= 0,
        !distance.is_negative() && side != Orientation::Clockwise ==> signed_distance(
            side,
            distance,
        ) <= 0,
        signed_distance(side, distance) == 0 <==> distance.magnitude().truncated() == 0,
        isize::MIN <= signed_distance(side, distance) <= isize::MAX,
        -distance.magnitude().truncated() <= signed_distance(side, distance)
            <= distance.magnitude().truncated(),
{
}

} // verus!
