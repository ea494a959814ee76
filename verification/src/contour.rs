//! Traced borders and the records built from them.
//!
//! A traced border carries pixel coordinates, its kind and the index of the
//! border that encloses it. Its record holds the reduced curve in the
//! coordinates of the simplifier, the kind as a flag, and the same index.

use crate::geometry::{in_range, lemma_in_range_distance_fits, Point, MAX_COORD};
use crate::hierarchy::is_forest;
use crate::simplify::{distances_fit, line_simplification, simplified};
use vstd::prelude::*;

verus! {

/// The tolerance, in pixels, within which borders are reduced.
pub const LINE_LEN: u32 = 2;

/// Whether a border bounds a foreground region from outside, or a background
/// region that the foreground encloses.
#[derive(Debug, Clone, Copy, PartialEq, Eq, Structural)]
pub enum BorderType {
    Outer,
    Hole,
}

/// A pixel position on a traced border.
#[derive(Debug, Clone, Copy, PartialEq, Eq, Structural)]
pub struct TracedPoint {
    pub x: u32,
    pub y: u32,
}

/// One traced border: its points in walking order, its kind, and the index
/// of the enclosing border in the same collection, if there is one.
#[derive(Debug, Clone, PartialEq, Eq)]
pub struct TracedContour {
    pub points: Vec<TracedPoint>,
    pub border_type: BorderType,
    pub parent: Option<usize>,
}

/// A traced border as a mathematical value.
pub struct ContourView {
    pub points: Seq<TracedPoint>,
    pub border_type: BorderType,
    pub parent: Option<usize>,
}

impl View for TracedContour {
    type V = ContourView;

    open spec fn view(&self) -> ContourView {
        ContourView { points: self.points@, border_type: self.border_type, parent: self.parent }
    }
}

/// The record of one border: the reduced curve, `true` for an outer border
/// and `false` for a hole, and the index of the enclosing border's record.
#[derive(Debug, Clone, PartialEq, Eq)]
pub struct Area {
    pub points: Vec<Point>,
    pub border: bool,
    pub parent: Option<usize>,
}

/// A record as a mathematical value.
pub struct AreaView {
    pub points: Seq<Point>,
    pub border: bool,
    pub parent: Option<usize>,
}

impl View for Area {
    type V = AreaView;

    open spec fn view(&self) -> AreaView {
        AreaView { points: self.points@, border: self.border, parent: self.parent }
    }
}

/// A point of a border lies beyond the coordinates that the simplifier
/// supports. `point` is the index of the first such point.
#[derive(Debug, Clone, Copy, PartialEq, Eq, Structural)]
pub struct CoordinateOutOfRange {
    pub point: usize,
}

/// A border of a collection has a point beyond the supported coordinates.
/// `contour` is the index of the first such border, `point` that of its first
/// such point.
#[derive(Debug, Clone, Copy, PartialEq, Eq, Structural)]
pub struct ContourOutOfRange {
    pub contour: usize,
    pub point: usize,
}

/// Both coordinates of `p` are at most `MAX_COORD`.
pub open spec fn fits(p: TracedPoint) -> bool {
    p.x <= MAX_COORD && p.y <= MAX_COORD
}

/// Every point of `points` fits.
pub open spec fn all_fit(points: Seq<TracedPoint>) -> bool {
    forall|j: int| 0 <= j < points.len() ==> fits(#[trigger] points[j])
}

/// `at` is the index of the first point of `points` that does not fit.
pub open spec fn first_misfit(points: Seq<TracedPoint>, at: int) -> bool {
    &&& 0 <= at < points.len()
    &&& !fits(points[at])
    &&& forall|j: int| 0 <= j < at ==> fits(#[trigger] points[j])
}

/// The point `p` in the coordinates of the simplifier.
pub open spec fn narrowed(p: TracedPoint) -> Point {
    Point { x: p.x as i32, y: p.y as i32 }
}

/// The points of a border in the coordinates of the simplifier.
pub open spec fn narrowed_points(points: Seq<TracedPoint>) -> Seq<Point> {
    Seq::new(points.len(), |j: int| narrowed(points[j]))
}

/// The flag that stands for a border's kind.
pub open spec fn is_outer(border_type: BorderType) -> bool {
    border_type == BorderType::Outer
}

/// The record of the border `c`, reduced within `dist`.
pub open spec fn area_of(c: ContourView, dist: nat) -> AreaView {
    AreaView {
        points: simplified(narrowed_points(c.points), dist),
        border: is_outer(c.border_type),
        parent: c.parent,
    }
}

/// The pixel position `p` as a point of the simplifier, where it fits.
pub fn narrow_point(p: TracedPoint) -> (r: Option<Point>)
    ensures
        r == if fits(p) {
            Some(narrowed(p))
        } else {
            None::<Point>
        },
        r is Some ==> in_range(r->Some_0),
{
    if p.x <= 32767 && p.y <= 32767 {
        Some(Point { x: p.x as i32, y: p.y as i32 })
    } else {
        None
    }
}

/// The points of a border in the coordinates of the simplifier, or the index
/// of the first point that does not fit.
pub fn narrow_points(points: &Vec<TracedPoint>) -> (r: Result<Vec<Point>, CoordinateOutOfRange>)
    ensures
        match r {
            Ok(narrow) => all_fit(points@) && narrow@ == narrowed_points(points@) && distances_fit(
                narrow@,
            ),
            Err(e) => first_misfit(points@, e.point as int),
        },
{
    let mut narrow: Vec<Point> = Vec::new();
    let mut i: usize = 0;
    while i < points.len()
        invariant
            0 <= i <= points.len(),
            narrow.len() == i,
            forall|j: int| 0 <= j < i ==> fits(#[trigger] points@[j]),
            forall|j: int| 0 <= j < i ==> #[trigger] narrow@[j] == narrowed(points@[j]),
            forall|j: int| 0 <= j < i ==> in_range(#[trigger] narrow@[j]),
        decreases points.len() - i,
    {
        match narrow_point(points[i]) {
            Some(p) => {
                narrow.push(p);
            },
            None => {
                return Err(CoordinateOutOfRange { point: i });
            },
        }
        i = i + 1;
    }
    proof {
        assert(narrow@ =~= narrowed_points(points@));
        assert forall|a: int, b: int| 0 <= a < narrow@.len() && 0 <= b < narrow@.len() implies
            crate::geometry::squared_distance(#[trigger] narrow@[a], #[trigger] narrow@[b])
            <= i32::MAX by {
            lemma_in_range_distance_fits(narrow@[a], narrow@[b]);
        }
    }
    Ok(narrow)
}

/// The flag for a border's kind: `true` for an outer border.
pub fn border_flag(border_type: BorderType) -> (flag: bool)
    ensures
        flag == is_outer(border_type),
{
    match border_type {
        BorderType::Hole => false,
        BorderType::Outer => true,
    }
}

/// Builds the record of one border: its points narrowed and reduced within
/// `LINE_LEN`, its kind as a flag, its parent link as it came. Fails where a
/// point does not fit, and only there.
pub fn turn_into_area(c: &TracedContour) -> (r: Result<Area, CoordinateOutOfRange>)
    ensures
        r is Ok <==> all_fit(c@.points),
        match r {
            Ok(area) => area@ == area_of(c@, LINE_LEN as nat),
            Err(e) => first_misfit(c@.points, e.point as int),
        },
{
    match narrow_points(&c.points) {
        Ok(narrow) => {
            let points = line_simplification(&narrow, LINE_LEN);
            Ok(Area { points, border: border_flag(c.border_type), parent: c.parent })
        },
        Err(e) => Err(e),
    }
}

/// The views of a collection of borders.
pub open spec fn contour_views(contours: Seq<TracedContour>) -> Seq<ContourView> {
    Seq::new(contours.len(), |i: int| contours[i]@)
}

/// The views of a collection of records.
pub open spec fn area_views(areas: Seq<Area>) -> Seq<AreaView> {
    Seq::new(areas.len(), |i: int| areas[i]@)
}

/// `areas` holds the records of `contours`, one for each and in their order.
pub open spec fn areas_match(contours: Seq<ContourView>, dist: nat, areas: Seq<AreaView>) -> bool {
    &&& areas.len() == contours.len()
    &&& forall|i: int| 0 <= i < contours.len() ==> #[trigger] areas[i] == area_of(contours[i], dist)
}

/// Every point of every border of `contours` fits.
pub open spec fn all_contours_fit(contours: Seq<ContourView>) -> bool {
    forall|i: int| 0 <= i < contours.len() ==> all_fit(#[trigger] contours[i].points)
}

/// `e` names the first border of `contours` that has a point which does not
/// fit, and the first such point of that border.
pub open spec fn first_misfit_contour(contours: Seq<ContourView>, e: ContourOutOfRange) -> bool {
    &&& 0 <= e.contour < contours.len()
    &&& first_misfit(contours[e.contour as int].points, e.point as int)
    &&& forall|i: int| 0 <= i < e.contour ==> all_fit(#[trigger] contours[i].points)
}

/// The parent links of a collection of borders.
pub open spec fn contour_parents(contours: Seq<ContourView>) -> Seq<Option<usize>> {
    Seq::new(contours.len(), |i: int| contours[i].parent)
}

/// The parent links of a collection of records.
pub open spec fn area_parents(areas: Seq<AreaView>) -> Seq<Option<usize>> {
    Seq::new(areas.len(), |i: int| areas[i].parent)
}

/// Records keep the parent links of their borders: there are as many
/// records as borders, and where the borders' links form a forest, so do the
/// records'.
pub proof fn lemma_records_keep_links(contours: Seq<ContourView>, dist: nat, areas: Seq<AreaView>)
    requires
        areas_match(contours, dist, areas),
    ensures
        areas.len() == contours.len(),
        area_parents(areas) == contour_parents(contours),
        is_forest(contour_parents(contours)) ==> is_forest(area_parents(areas)),
{
    assert(area_parents(areas) =~= contour_parents(contours));
}

/// Builds the records of a collection of borders, one for each and in their
/// order, so that a parent link names the record of the border it named.
/// Fails where a point of a border does not fit, and only there.
pub fn areas_from_contours(contours: &Vec<TracedContour>) -> (r: Result<
    Vec<Area>,
    ContourOutOfRange,
>)
    ensures
        r is Ok <==> all_contours_fit(contour_views(contours@)),
        match r {
            Ok(areas) => {
                &&& areas_match(contour_views(contours@), LINE_LEN as nat, area_views(areas@))
                &&& area_parents(area_views(areas@)) == contour_parents(contour_views(contours@))
                &&& is_forest(contour_parents(contour_views(contours@))) ==> is_forest(
                    area_parents(area_views(areas@)),
                )
            },
            Err(e) => first_misfit_contour(contour_views(contours@), e),
        },
{
    let ghost views = contour_views(contours@);
    let mut areas: Vec<Area> = Vec::new();
    let mut i: usize = 0;
    while i < contours.len()
        invariant
            0 <= i <= contours.len(),
            views == contour_views(contours@),
            areas.len() == i,
            forall|j: int| 0 <= j < i ==> all_fit(#[trigger] views[j].points),
            forall|j: int|
                0 <= j < i ==> (#[trigger] areas@[j])@ == area_of(views[j], LINE_LEN as nat),
        decreases contours.len() - i,
    {
        assert(views[i as int] == contours@[i as int]@);
        match turn_into_area(&contours[i]) {
            Ok(area) => {
                areas.push(area);
            },
            Err(e) => {
                return Err(ContourOutOfRange { contour: i, point: e.point });
            },
        }
        i = i + 1;
    }
    proof {
        lemma_records_keep_links(views, LINE_LEN as nat, area_views(areas@));
    }
    Ok(areas)
}

} // verus!
