//! From a grayscale raster to the records of its borders.

use crate::contour::{
    all_contours_fit, area_parents, area_views, areas_from_contours, areas_match, contour_parents,
    contour_views, first_misfit_contour, Area, BorderType, ContourOutOfRange, ContourView,
    TracedContour, TracedPoint, LINE_LEN,
};
use crate::geometry::MAX_COORD;
use crate::hierarchy::{is_forest, lemma_earlier_parents_form_forest, parents_earlier};
use vstd::prelude::*;

verus! {

/// The most pixels a raster may hold: the tracer keeps pixel positions in
/// an `i32`, and numbers its borders, of which there is at most one for each
/// pixel, in an `i32` and from two on.
pub const MAX_PIXELS: usize = 0x7fff_fffe;

/// A grayscale raster: `height` rows of `width` pixels each, row after row.
/// A pixel other than zero belongs to the foreground.
pub struct Raster {
    width: u32,
    height: u32,
    pixels: Vec<u8>,
}

/// A raster as a mathematical value.
pub struct RasterView {
    pub width: u32,
    pub height: u32,
    pub pixels: Seq<u8>,
}

/// The pixels are as many as the sides say, and no more than `MAX_PIXELS`.
pub open spec fn raster_shaped(width: u32, height: u32, pixels: Seq<u8>) -> bool {
    pixels.len() == width * height && pixels.len() <= MAX_PIXELS
}

impl View for Raster {
    type V = RasterView;

    closed spec fn view(&self) -> RasterView {
        RasterView { width: self.width, height: self.height, pixels: self.pixels@ }
    }
}

impl Raster {
    #[verifier::type_invariant]
    spec fn shaped(&self) -> bool {
        raster_shaped(self.width, self.height, self.pixels@)
    }

    /// The raster of the given sides and pixels, where they agree.
    pub fn new(width: u32, height: u32, pixels: Vec<u8>) -> (r: Option<Raster>)
        ensures
            r is Some <==> raster_shaped(width, height, pixels@),
            r matches Some(raster) ==> raster@ == (RasterView { width, height, pixels: pixels@ }),
    {
        let wide: u64 = width as u64;
        let high: u64 = height as u64;
        assert(wide * high <= 0xffff_ffff * 0xffff_ffff) by (nonlinear_arith)
            requires
                0 <= wide <= 0xffff_ffff,
                0 <= high <= 0xffff_ffff,
        ;
        let count: u64 = wide * high;
        if pixels.len() <= MAX_PIXELS && pixels.len() as u64 == count {
            Some(Raster { width, height, pixels })
        } else {
            None
        }
    }

    /// The number of pixels in a row.
    pub fn width(&self) -> (w: u32)
        ensures
            w == self@.width,
    {
        self.width
    }

    /// The number of rows.
    pub fn height(&self) -> (h: u32)
        ensures
            h == self@.height,
    {
        self.height
    }

    /// The pixels, row after row: as many as the sides say.
    pub fn pixels(&self) -> (p: &Vec<u8>)
        ensures
            p@ == self@.pixels,
            raster_shaped(self@.width, self@.height, p@),
    {
        proof {
            use_type_invariant(self);
        }
        &self.pixels
    }
}

/// The borders of the foreground regions of a raster, in the order in which
/// the tracer finds them.
pub uninterp spec fn traced_contours(width: u32, height: u32, pixels: Seq<u8>) -> Seq<ContourView>;

/// Every point of every border lies on the raster.
pub open spec fn points_within(contours: Seq<ContourView>, width: u32, height: u32) -> bool {
    forall|i: int, j: int|
        0 <= i < contours.len() && 0 <= j < contours[i].points.len() ==> (
        #[trigger] contours[i].points[j]).x < width && contours[i].points[j].y < height
}

/// Calls `imageproc::contours::find_contours` on the raster as an
/// `image::GrayImage` and hands its borders out as values of this library.
/// Taken on trust: the borders are a function of the raster alone; a border's
/// parent was found before the border itself; every point is a pixel position
/// of the raster.
#[verifier::external_body]
fn trace_borders(width: u32, height: u32, pixels: &Vec<u8>) -> (traced: Vec<TracedContour>)
    requires
        raster_shaped(width, height, pixels@),
    ensures
        contour_views(traced@) == traced_contours(width, height, pixels@),
        parents_earlier(contour_parents(contour_views(traced@))),
        points_within(contour_views(traced@), width, height),
{
    let image = image::GrayImage::from_raw(width, height, pixels.clone()).unwrap();
    imageproc::contours::find_contours::<u32>(&image).into_iter().map(
        |c| TracedContour {
            points: c.points.into_iter().map(|p| TracedPoint { x: p.x, y: p.y }).collect(),
            border_type: match c.border_type {
                imageproc::contours::BorderType::Outer => BorderType::Outer,
                imageproc::contours::BorderType::Hole => BorderType::Hole,
            },
            parent: c.parent,
        },
    ).collect()
}

/// Traces the borders of the raster's foreground regions and builds their
/// records, one for each border and in the tracer's order. The parent links
/// of the records form a forest. Fails where a border has a point beyond
/// `MAX_COORD`, which no raster with sides up to `MAX_COORD + 1` has.
pub fn generate_contours(img: &Raster) -> (r: Result<Vec<Area>, ContourOutOfRange>)
    ensures
        r is Ok <==> all_contours_fit(traced_contours(img@.width, img@.height, img@.pixels)),
        img@.width <= MAX_COORD + 1 && img@.height <= MAX_COORD + 1 ==> r is Ok,
        match r {
            Ok(areas) => {
                &&& areas_match(
                    traced_contours(img@.width, img@.height, img@.pixels),
                    LINE_LEN as nat,
                    area_views(areas@),
                )
                &&& parents_earlier(area_parents(area_views(areas@)))
                &&& is_forest(area_parents(area_views(areas@)))
            },
            Err(e) => first_misfit_contour(
                traced_contours(img@.width, img@.height, img@.pixels),
                e,
            ),
        },
{
    proof {
        use_type_invariant(img);
    }
    let traced = trace_borders(img.width, img.height, &img.pixels);
    let r = areas_from_contours(&traced);
    proof {
        let views = contour_views(traced@);
        if img@.width <= MAX_COORD + 1 && img@.height <= MAX_COORD + 1 {
            assert forall|i: int| 0 <= i < views.len() implies crate::contour::all_fit(
                #[trigger] views[i].points,
            ) by {
                assert forall|j: int| 0 <= j < views[i].points.len() implies crate::contour::fits(
                    #[trigger] views[i].points[j],
                ) by {}
            }
        }
        if r is Ok {
            let parents = area_parents(area_views(r->Ok_0@));
            assert(parents =~= contour_parents(views));
            lemma_earlier_parents_form_forest(parents);
        }
    }
    r
}

} // verus!
