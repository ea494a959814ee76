use contour_simplify::contour::{
    areas_from_contours, border_flag, narrow_point, narrow_points, turn_into_area, Area,
    BorderType, ContourOutOfRange, CoordinateOutOfRange, TracedContour, TracedPoint, LINE_LEN,
};
use contour_simplify::geometry::Point;
use contour_simplify::tracing::{generate_contours, Raster, MAX_PIXELS};

fn traced(coords: &[(u32, u32)]) -> Vec<TracedPoint> {
    coords.iter().map(|&(x, y)| TracedPoint { x, y }).collect()
}

fn pts(coords: &[(i32, i32)]) -> Vec<Point> {
    coords.iter().map(|&(x, y)| Point { x, y }).collect()
}

#[test]
fn default_tolerance_is_two() {
    assert_eq!(LINE_LEN, 2);
}

#[test]
fn border_kind_becomes_a_flag() {
    assert!(border_flag(BorderType::Outer));
    assert!(!border_flag(BorderType::Hole));
}

#[test]
fn narrowing_keeps_coordinates_in_range() {
    assert_eq!(narrow_point(TracedPoint { x: 0, y: 32767 }), Some(Point { x: 0, y: 32767 }));
    assert_eq!(narrow_point(TracedPoint { x: 17, y: 4 }), Some(Point { x: 17, y: 4 }));
}

#[test]
fn narrowing_refuses_coordinates_out_of_range() {
    assert_eq!(narrow_point(TracedPoint { x: 32768, y: 0 }), None);
    assert_eq!(narrow_point(TracedPoint { x: 0, y: 32768 }), None);
    assert_eq!(narrow_point(TracedPoint { x: u32::MAX, y: 1 }), None);
    assert_eq!(narrow_point(TracedPoint { x: 0x8000_0001, y: 1 }), None);
}

#[test]
fn narrowing_names_the_first_point_out_of_range() {
    let points = traced(&[(1, 1), (2, 40000), (70000, 3)]);
    assert_eq!(narrow_points(&points), Err(CoordinateOutOfRange { point: 1 }));
    let fine = traced(&[(1, 1), (2, 4), (7, 3)]);
    assert_eq!(narrow_points(&fine), Ok(pts(&[(1, 1), (2, 4), (7, 3)])));
}

#[test]
fn record_of_an_outer_border() {
    let c = TracedContour {
        points: traced(&[(0, 0), (1, 0), (2, 0), (3, 0)]),
        border_type: BorderType::Outer,
        parent: None,
    };
    let area = turn_into_area(&c).unwrap();
    assert_eq!(area, Area { points: pts(&[(0, 0), (3, 0)]), border: true, parent: None });
}

#[test]
fn record_of_a_hole() {
    let c = TracedContour {
        points: traced(&[(0, 0), (0, 10), (10, 10)]),
        border_type: BorderType::Hole,
        parent: Some(4),
    };
    let area = turn_into_area(&c).unwrap();
    assert_eq!(
        area,
        Area { points: pts(&[(0, 0), (0, 10), (10, 10)]), border: false, parent: Some(4) }
    );
}

#[test]
fn record_of_an_empty_border() {
    let c = TracedContour { points: Vec::new(), border_type: BorderType::Outer, parent: None };
    let area = turn_into_area(&c).unwrap();
    assert_eq!(area, Area { points: Vec::new(), border: true, parent: None });
}

#[test]
fn record_fails_on_a_coordinate_out_of_range() {
    let c = TracedContour {
        points: traced(&[(0, 0), (5, 5), (5, 32768)]),
        border_type: BorderType::Outer,
        parent: None,
    };
    assert_eq!(turn_into_area(&c), Err(CoordinateOutOfRange { point: 2 }));
}

#[test]
fn records_keep_the_order_and_the_links() {
    let contours = vec![
        TracedContour {
            points: traced(&[(0, 0), (9, 0), (9, 9), (0, 9)]),
            border_type: BorderType::Outer,
            parent: None,
        },
        TracedContour {
            points: traced(&[(2, 2), (2, 3), (2, 4), (2, 7)]),
            border_type: BorderType::Hole,
            parent: Some(0),
        },
        TracedContour {
            points: traced(&[(4, 4)]),
            border_type: BorderType::Outer,
            parent: Some(1),
        },
    ];
    let areas = areas_from_contours(&contours).unwrap();
    assert_eq!(areas.len(), 3);
    assert_eq!(
        areas[0],
        Area { points: pts(&[(0, 0), (9, 0), (9, 9), (0, 9)]), border: true, parent: None }
    );
    assert_eq!(areas[1], Area { points: pts(&[(2, 2), (2, 7)]), border: false, parent: Some(0) });
    assert_eq!(areas[2], Area { points: pts(&[(4, 4)]), border: true, parent: Some(1) });
}

#[test]
fn records_of_no_borders() {
    assert_eq!(areas_from_contours(&Vec::new()), Ok(Vec::new()));
}

#[test]
fn records_fail_on_the_first_border_out_of_range() {
    let contours = vec![
        TracedContour {
            points: traced(&[(0, 0), (9, 0)]),
            border_type: BorderType::Outer,
            parent: None,
        },
        TracedContour {
            points: traced(&[(2, 2), (40000, 3), (50000, 4)]),
            border_type: BorderType::Hole,
            parent: Some(0),
        },
        TracedContour {
            points: traced(&[(99999, 4)]),
            border_type: BorderType::Outer,
            parent: None,
        },
    ];
    assert_eq!(areas_from_contours(&contours), Err(ContourOutOfRange { contour: 1, point: 1 }));
}

#[test]
fn raster_needs_as_many_pixels_as_its_sides_say() {
    assert!(Raster::new(3, 2, vec![0; 6]).is_some());
    assert!(Raster::new(3, 2, vec![0; 5]).is_none());
    assert!(Raster::new(3, 2, vec![0; 7]).is_none());
    assert!(Raster::new(0, 0, Vec::new()).is_some());
    assert!(Raster::new(0, 5, Vec::new()).is_some());
    assert!(Raster::new(u32::MAX, u32::MAX, vec![0; 1]).is_none());
    assert_eq!(MAX_PIXELS, 2147483646);
    let raster = Raster::new(3, 2, vec![1, 2, 3, 4, 5, 6]).unwrap();
    assert_eq!(raster.width(), 3);
    assert_eq!(raster.height(), 2);
    assert_eq!(raster.pixels(), &vec![1, 2, 3, 4, 5, 6]);
}

#[test]
fn blank_raster_has_no_records() {
    let raster = Raster::new(4, 4, vec![0; 16]).unwrap();
    assert_eq!(generate_contours(&raster), Ok(Vec::new()));
}

#[test]
fn single_pixel_gives_one_outer_record() {
    let mut pixels = vec![0u8; 9];
    pixels[4] = 255;
    let raster = Raster::new(3, 3, pixels).unwrap();
    let areas = generate_contours(&raster).unwrap();
    assert_eq!(areas, vec![Area { points: pts(&[(1, 1)]), border: true, parent: None }]);
}

#[test]
fn hole_names_the_outer_border_as_its_parent() {
    let width = 12u32;
    let height = 12u32;
    let mut pixels = vec![0u8; 144];
    for y in 2..10u32 {
        for x in 2..10u32 {
            let inside = (4..8).contains(&x) && (4..8).contains(&y);
            if !inside {
                pixels[(y * width + x) as usize] = 200;
            }
        }
    }
    let raster = Raster::new(width, height, pixels).unwrap();
    let areas = generate_contours(&raster).unwrap();
    assert_eq!(areas.len(), 2);
    assert!(areas[0].border);
    assert_eq!(areas[0].parent, None);
    assert!(!areas[1].border);
    assert_eq!(areas[1].parent, Some(0));
    assert_eq!(areas[0].points, pts(&[(2, 2), (2, 9), (9, 9), (9, 2), (3, 2)]));
    assert_eq!(areas[1].points, pts(&[(3, 4), (8, 4), (7, 8), (4, 8), (3, 5)]));
}

#[test]
fn nested_regions_link_to_earlier_records() {
    // a filled frame, a hole in it, and an island in the hole
    let width = 9u32;
    let mut pixels = vec![0u8; 81];
    for y in 1..8u32 {
        for x in 1..8u32 {
            let hole = (2..7).contains(&x) && (2..7).contains(&y);
            let island = x == 4 && y == 4;
            if !hole || island {
                pixels[(y * width + x) as usize] = 1;
            }
        }
    }
    let raster = Raster::new(width, 9, pixels).unwrap();
    let areas = generate_contours(&raster).unwrap();
    assert_eq!(areas.len(), 3);
    for (i, area) in areas.iter().enumerate() {
        if let Some(p) = area.parent {
            assert!(p < i);
        }
    }
    assert_eq!(areas[0].parent, None);
    assert_eq!(areas[1].parent, Some(0));
    assert_eq!(areas[2].parent, Some(1));
    assert_eq!(areas[2].points, pts(&[(4, 4)]));
    assert_eq!(
        areas.iter().map(|a| a.border).collect::<Vec<bool>>(),
        vec![true, false, true]
    );
}
