use takeoff::contour::{ContourInput, ContourLineInput, SurfaceMesh, Point3};
use takeoff::error::TakeoffError;
use takeoff::frac::Frac;
use takeoff::geometry::{twice_signed_area, FracPoint, Point2};
use takeoff::measurement::Measurement;
use takeoff::scale::{resolve_scale, real_area_of, real_length_of, Scale, ScaleDefinition};
use takeoff::simplify::simplify_polyline;
use takeoff::unit::Unit;
use takeoff::volume::{volume_against, ReferenceSurface};
use takeoff::group::{sum_points, sum_present};

fn p(x: i64, y: i64) -> Point2 {
    Point2 { x, y }
}

fn rect_measurement() -> Measurement {
    Measurement::Rectangle {
        id: "1".to_string(),
        page_id: "1".to_string(),
        group_id: "1".to_string(),
        points: (p(0, 0), p(100, 50)),
    }
}

fn meters_scale() -> Scale {
    Scale::Default {
        id: "1".to_string(),
        page_id: "1".to_string(),
        scale: ScaleDefinition {
            pixel_distance: Frac::from_int(100),
            real_distance: Frac::from_int(2),
            unit: Unit::Meters,
        },
    }
}

#[test]
fn test_calculate_area() {
    // A 100 x 50 rectangle under a 100 px : 2 m scale has 2 square metres of
    // area and a 6 metre perimeter.
    let m = rect_measurement();
    let raw = m.pixel_area().unwrap();
    assert!(raw.eq_value(Frac::from_int(5000)).unwrap());
    let ratio = meters_scale().ratio().unwrap();
    assert!(ratio.eq_value(Frac::from_int(50)).unwrap());
    let area = real_area_of(raw, ratio).unwrap();
    assert!(area.eq_value(Frac::from_int(2)).unwrap());
    let perim = m.pixel_perimeter().unwrap();
    assert!(perim.eq_value(Frac::from_int(300)).unwrap());
    let length = real_length_of(perim, ratio).unwrap();
    assert!(length.eq_value(Frac::from_int(6)).unwrap());
}

#[test]
fn test_pixel_perimeter_polyline() {
    // A unit segment has raw perimeter one; with no scale on the page nothing
    // binds, so no real length is derivable.
    let m = Measurement::Polyline {
        id: "1".to_string(),
        page_id: "1".to_string(),
        group_id: "1".to_string(),
        points: vec![p(0, 0), p(0, 1)],
    };
    let raw = m.pixel_perimeter().unwrap();
    assert!(raw.eq_value(Frac::from_int(1)).unwrap());
    let scales: Vec<Scale> = Vec::new();
    assert_eq!(resolve_scale(&scales, &m.to_geometry().unwrap()), None);
}

#[test]
fn test_invalid_scale_ratio() {
    let bad = ScaleDefinition {
        pixel_distance: Frac::from_int(0),
        real_distance: Frac::from_int(10),
        unit: Unit::Feet,
    };
    assert!(matches!(bad.validate(), Err(TakeoffError::InvalidScale { .. })));
    assert!(matches!(bad.ratio(), Err(TakeoffError::InvalidScale { .. })));
    let bad2 = ScaleDefinition {
        pixel_distance: Frac::from_int(100),
        real_distance: Frac::new(-10, 1),
        unit: Unit::Feet,
    };
    assert!(matches!(bad2.validate(), Err(TakeoffError::InvalidScale { .. })));
    let good = ScaleDefinition {
        pixel_distance: Frac::from_int(120),
        real_distance: Frac::from_int(1),
        unit: Unit::Feet,
    };
    assert!(good.validate().is_ok());
    assert!(good.ratio().unwrap().eq_value(Frac::from_int(120)).unwrap());
}

#[test]
fn test_scale_inversion() {
    // Converting the scale's own pixel distance back through the ratio gives
    // its real distance exactly.
    let def = ScaleDefinition {
        pixel_distance: Frac::from_int(100),
        real_distance: Frac::from_int(2),
        unit: Unit::Meters,
    };
    let ratio = def.ratio().unwrap();
    let back = real_length_of(def.pixel_distance, ratio).unwrap();
    assert!(back.eq_value(def.real_distance).unwrap());
}

#[test]
fn test_simplify_polyline() {
    // Tolerance one half keeps the corner detour and drops the collinear
    // midpoint.
    let points = vec![p(0, 0), p(1, 0), p(1, 1), p(2, 2)];
    let simplified = simplify_polyline(&points, Frac::new(1, 2));
    assert_eq!(simplified, vec![p(0, 0), p(1, 0), p(2, 2)]);
}

#[test]
fn test_simplify_idempotent() {
    let points = vec![p(0, 0), p(3, 1), p(5, 0), p(7, 4), p(10, 0)];
    let t = Frac::new(3, 2);
    let once = simplify_polyline(&points, t);
    let twice = simplify_polyline(&once, t);
    assert_eq!(once, twice);
    assert!(once.len() <= points.len());
    assert_eq!(once[0], points[0]);
    assert_eq!(once[once.len() - 1], points[points.len() - 1]);
}

#[test]
fn test_shoelace_winding() {
    // Both windings give the same unsigned area.
    let square = vec![p(0, 0), p(4, 0), p(4, 4), p(0, 4)];
    let reversed = vec![p(0, 4), p(4, 4), p(4, 0), p(0, 0)];
    assert_eq!(twice_signed_area(&square).abs(), 32);
    assert_eq!(
        twice_signed_area(&square).abs(),
        twice_signed_area(&reversed).abs()
    );
}

#[test]
fn test_translation_invariance() {
    // Recentring (a pure translation) keeps area and perimeter.
    let m = Measurement::Polygon {
        id: "1".to_string(),
        page_id: "1".to_string(),
        group_id: "1".to_string(),
        points: vec![p(0, 0), p(10, 0), p(10, 8), p(0, 8)],
    };
    let moved = m
        .with_centroid_at(FracPoint {
            x: Frac::from_int(50),
            y: Frac::from_int(60),
        })
        .unwrap();
    let a0 = m.pixel_area().unwrap();
    let a1 = moved.pixel_area().unwrap();
    assert!(a0.eq_value(a1).unwrap());
    let p0 = m.pixel_perimeter().unwrap();
    let p1 = moved.pixel_perimeter().unwrap();
    assert!(p0.eq_value(p1).unwrap());
    // The centroid starts at (5, 4); the offset (45, 56) is exact, so the
    // centroid lands exactly on the target.
    let c = moved.get_centroid().unwrap();
    assert!(c.x.eq_value(Frac::from_int(50)).unwrap());
    assert!(c.y.eq_value(Frac::from_int(60)).unwrap());
}

#[test]
fn test_recenter_off_grid_target() {
    // A target whose exact offset is not a whole number of pixels is
    // refused rather than silently rounded; the exact fractional recentring
    // delivers the sub-pixel geometry instead.
    let m = Measurement::Polyline {
        id: "1".to_string(),
        page_id: "1".to_string(),
        group_id: "1".to_string(),
        points: vec![p(0, 0), p(0, 1)],
    };
    let target = FracPoint {
        x: Frac::from_int(0),
        y: Frac::from_int(0),
    };
    // The centroid is (0, 1/2): the offset (0, -1/2) is off the pixel grid.
    assert!(matches!(
        m.with_centroid_at(target),
        Err(TakeoffError::OutOfRange { .. })
    ));
    let vs = m.recentred_vertices(target).unwrap();
    assert_eq!(vs.len(), 2);
    assert!(vs[0].x.eq_value(Frac::from_int(0)).unwrap());
    assert!(vs[0].y.eq_value(Frac::new(-1, 2)).unwrap());
    assert!(vs[1].x.eq_value(Frac::from_int(0)).unwrap());
    assert!(vs[1].y.eq_value(Frac::new(1, 2)).unwrap());
    // The fractional mean of the recentred vertices is exactly the target.
    let mean_y = vs[0].y.add(vs[1].y).unwrap();
    assert!(mean_y.eq_value(Frac::from_int(0)).unwrap());
}

#[test]
fn test_recenter_polygon_lands() {
    let m = Measurement::Polygon {
        id: "1".to_string(),
        page_id: "1".to_string(),
        group_id: "1".to_string(),
        points: vec![p(0, 0), p(10, 0), p(10, 10), p(0, 10)],
    };
    let moved = m
        .with_centroid_at(FracPoint {
            x: Frac::from_int(17),
            y: Frac::from_int(23),
        })
        .unwrap();
    let c = moved.get_centroid().unwrap();
    assert!(c.x.eq_value(Frac::from_int(17)).unwrap());
    assert!(c.y.eq_value(Frac::from_int(23)).unwrap());
}

#[test]
fn test_contour_mesh() {
    let input = ContourInput {
        id: "1".to_string(),
        name: Some("test".to_string()),
        page_id: "p".to_string(),
        lines: vec![ContourLineInput {
            elevation: Frac::from_int(10),
            unit: Unit::Feet,
            points: vec![p(0, 0), p(10, 0)],
        }],
        points_of_interest: vec![takeoff::contour::ContourPointOfInterestInput {
            elevation: Frac::from_int(5),
            unit: Unit::Feet,
            point: p(5, 5),
        }],
    };
    let mesh = takeoff::contour::contour_mesh_from(&input);
    assert_eq!(mesh.id, "1");
    assert_eq!(mesh.name, Some("test".to_string()));
    assert_eq!(mesh.points.len(), 3);
    assert_eq!((mesh.points[0].x, mesh.points[0].y), (0, 0));
    assert!(mesh.points[0].z.eq_value(Frac::from_int(10)).unwrap());
    assert_eq!((mesh.points[1].x, mesh.points[1].y), (10, 0));
    assert!(mesh.points[1].z.eq_value(Frac::from_int(10)).unwrap());
    assert_eq!((mesh.points[2].x, mesh.points[2].y), (5, 5));
    assert!(mesh.points[2].z.eq_value(Frac::from_int(5)).unwrap());
}

#[test]
fn test_centroid_idempotent() {
    let m = Measurement::Rectangle {
        id: "7".to_string(),
        page_id: "1".to_string(),
        group_id: "g".to_string(),
        points: (p(0, 0), p(2, 2)),
    };
    let c = m.get_centroid().unwrap();
    assert!(c.x.eq_value(Frac::from_int(1)).unwrap());
    let back = m.with_centroid_at(c).unwrap();
    match (&m, &back) {
        (
            Measurement::Rectangle { points: a, id: ia, .. },
            Measurement::Rectangle { points: b, id: ib, .. },
        ) => {
            assert_eq!(a, b);
            assert_eq!(ia, ib);
        }
        _ => panic!("kind changed"),
    }
}

#[test]
fn test_get_centroid_invalid() {
    let m = Measurement::Polygon {
        id: "1".to_string(),
        page_id: "1".to_string(),
        group_id: "1".to_string(),
        points: vec![p(0, 0), p(1, 0)],
    };
    assert!(matches!(
        m.get_centroid(),
        Err(TakeoffError::EmptyGeometry { .. })
    ));
    assert!(matches!(
        m.pixel_area(),
        Err(TakeoffError::EmptyGeometry { .. })
    ));
}

#[test]
fn test_recenter_out_of_range() {
    let m = rect_measurement();
    let r = m.with_centroid_at(FracPoint {
        x: Frac::from_int(999_999_999),
        y: Frac::from_int(0),
    });
    assert!(matches!(r, Err(TakeoffError::OutOfRange { .. })));
}

#[test]
fn test_area_scale_precedence() {
    // An area scale containing the geometry wins over the default; one that
    // does not contain it loses to the default.
    let default = meters_scale();
    let containing = Scale::Area {
        id: "a1".to_string(),
        page_id: "1".to_string(),
        scale: ScaleDefinition {
            pixel_distance: Frac::from_int(10),
            real_distance: Frac::from_int(1),
            unit: Unit::Feet,
        },
        bounding_box: (p(-10, -10), p(500, 500)),
    };
    let elsewhere = Scale::Area {
        id: "a2".to_string(),
        page_id: "1".to_string(),
        scale: ScaleDefinition {
            pixel_distance: Frac::from_int(10),
            real_distance: Frac::from_int(1),
            unit: Unit::Feet,
        },
        bounding_box: (p(1000, 1000), p(2000, 2000)),
    };
    let g = rect_measurement().to_geometry().unwrap();
    let scales = vec![default.duplicate(), containing.duplicate()];
    assert_eq!(resolve_scale(&scales, &g), Some(1));
    let scales = vec![default.duplicate(), elsewhere.duplicate()];
    assert_eq!(resolve_scale(&scales, &g), Some(0));
    let scales = vec![elsewhere.duplicate()];
    assert_eq!(resolve_scale(&scales, &g), None);
}

fn square_contour(elevation: i64, unit: Unit) -> ContourInput {
    ContourInput {
        id: "c1".to_string(),
        name: None,
        page_id: "p1".to_string(),
        lines: vec![ContourLineInput {
            elevation: Frac::from_int(elevation),
            unit,
            points: vec![p(0, 0), p(100, 0), p(100, 100), p(0, 100)],
        }],
        points_of_interest: vec![],
    }
}

#[test]
fn test_surface_mesh_from_contour() {
    // A square contour at ten feet under a one-to-one feet scale gives four
    // vertices at z = 10 pixels, and interpolation inside returns 10.
    let c = square_contour(10, Unit::Feet);
    let mesh = c.to_surface_mesh(Frac::from_int(1), Unit::Feet).unwrap();
    assert_eq!(mesh.id, "c1");
    assert_eq!(mesh.name, None);
    assert_eq!(mesh.vertices.len(), 4);
    for v in mesh.vertices.iter() {
        assert!(v.z.eq_value(Frac::from_int(10)).unwrap());
    }
    let z = mesh.z_at(50, 50).unwrap();
    assert!(z.eq_value(Frac::from_int(10)).unwrap());
    // Outside the hull there is no elevation.
    assert!(mesh.z_at(500, 500).is_none());
    // An exact vertex match returns that vertex's elevation.
    let z0 = mesh.z_at(0, 0).unwrap();
    assert!(z0.eq_value(Frac::from_int(10)).unwrap());
}

#[test]
fn test_contour_bounding_box_and_scatter() {
    let c = square_contour(10, Unit::Feet);
    let b = c.bounding_box().unwrap();
    assert_eq!((b.min_x, b.min_y, b.max_x, b.max_y), (0, 0, 100, 100));
    let mesh = c.to_surface_mesh(Frac::from_int(1), Unit::Feet).unwrap();
    let scatter = mesh.scatter(10).unwrap();
    assert!(!scatter.is_empty());
    assert!(mesh.scatter(0).is_none());
    assert!(mesh.scatter(-3).is_none());
}

#[test]
fn test_scatter_contents() {
    // A 2 x 2 flat surface sampled with step one lists every lattice point of
    // the hull, column-major, each carrying the interpolated elevation.
    let c = ContourInput {
        id: "c".to_string(),
        name: None,
        page_id: "p".to_string(),
        lines: vec![ContourLineInput {
            elevation: Frac::from_int(5),
            unit: Unit::Feet,
            points: vec![p(0, 0), p(2, 0), p(2, 2), p(0, 2)],
        }],
        points_of_interest: vec![],
    };
    let mesh = c.to_surface_mesh(Frac::from_int(1), Unit::Feet).unwrap();
    let pts = mesh.scatter(1).unwrap();
    assert_eq!(pts.len(), 9);
    let mut k = 0;
    for x in 0..3i64 {
        for y in 0..3i64 {
            assert_eq!((pts[k].x, pts[k].y), (x, y));
            assert!(pts[k].z.eq_value(Frac::from_int(5)).unwrap());
            k += 1;
        }
    }
}

#[test]
fn test_volumetric_sign_convention() {
    // A flat surface at z = 10 over a 10 x 10 hull against the zero plane:
    // all fill, no cut, nothing uncovered. Against a plane at 20: all cut.
    let c = ContourInput {
        id: "c".to_string(),
        name: None,
        page_id: "p".to_string(),
        lines: vec![ContourLineInput {
            elevation: Frac::from_int(10),
            unit: Unit::Feet,
            points: vec![p(0, 0), p(10, 0), p(10, 10), p(0, 10)],
        }],
        points_of_interest: vec![],
    };
    let mesh = c.to_surface_mesh(Frac::from_int(1), Unit::Feet).unwrap();
    let r = volume_against(
        &mesh,
        &ReferenceSurface::Plane { z: Frac::from_int(0) },
        Some(1),
    )
    .unwrap();
    assert!(r.fill.eq_value(Frac::from_int(1000)).unwrap());
    assert!(r.cut.eq_value(Frac::from_int(0)).unwrap());
    assert!(r.uncovered_area.eq_value(Frac::from_int(0)).unwrap());
    let r = volume_against(
        &mesh,
        &ReferenceSurface::Plane { z: Frac::from_int(20) },
        Some(1),
    )
    .unwrap();
    assert!(r.fill.eq_value(Frac::from_int(0)).unwrap());
    assert!(r.cut.eq_value(Frac::from_int(1000)).unwrap());
}

#[test]
fn test_volume_in_units() {
    // The flat 10 x 10 surface at z = 10 under a one-to-one feet scale:
    // 1000 cubic pixels of fill are 1000 cubic feet.
    let c = ContourInput {
        id: "c".to_string(),
        name: None,
        page_id: "p".to_string(),
        lines: vec![ContourLineInput {
            elevation: Frac::from_int(10),
            unit: Unit::Feet,
            points: vec![p(0, 0), p(10, 0), p(10, 10), p(0, 10)],
        }],
        points_of_interest: vec![],
    };
    let mesh = c.to_surface_mesh(Frac::from_int(1), Unit::Feet).unwrap();
    let raw = volume_against(
        &mesh,
        &ReferenceSurface::Plane { z: Frac::from_int(0) },
        Some(1),
    )
    .unwrap();
    let real = takeoff::volume::volume_to_unit(&raw, Frac::from_int(1), Unit::Feet).unwrap();
    assert!(real
        .fill
        .get_converted_value(Unit::Feet)
        .unwrap()
        .eq_value(Frac::from_int(1000))
        .unwrap());
    assert!(real
        .cut
        .get_converted_value(Unit::Feet)
        .unwrap()
        .eq_value(Frac::from_int(0))
        .unwrap());
    assert!(real
        .uncovered_area
        .get_converted_value(Unit::Feet)
        .unwrap()
        .eq_value(Frac::from_int(0))
        .unwrap());
}

#[test]
fn test_volume_full_surface() {
    // The 100 x 100 surface at z = 10 against the zero plane with unit cells.
    let c = square_contour(10, Unit::Feet);
    let mesh = c.to_surface_mesh(Frac::from_int(1), Unit::Feet).unwrap();
    let r = volume_against(
        &mesh,
        &ReferenceSurface::Plane { z: Frac::from_int(0) },
        Some(1),
    )
    .unwrap();
    assert!(r.fill.eq_value(Frac::from_int(100_000)).unwrap());
    assert!(r.cut.eq_value(Frac::from_int(0)).unwrap());
    assert!(r.uncovered_area.eq_value(Frac::from_int(0)).unwrap());
}

#[test]
fn test_uncovered_accumulation() {
    // A reference mesh covering only half the surface's hull leaves about
    // half the area uncovered.
    let c = ContourInput {
        id: "c".to_string(),
        name: None,
        page_id: "p".to_string(),
        lines: vec![ContourLineInput {
            elevation: Frac::from_int(10),
            unit: Unit::Feet,
            points: vec![p(0, 0), p(10, 0), p(10, 10), p(0, 10)],
        }],
        points_of_interest: vec![],
    };
    let mesh = c.to_surface_mesh(Frac::from_int(1), Unit::Feet).unwrap();
    let reference = SurfaceMesh {
        id: "ref".to_string(),
        name: None,
        vertices: vec![
            Point3 { x: 0, y: 0, z: Frac::from_int(0) },
            Point3 { x: 4, y: 0, z: Frac::from_int(0) },
            Point3 { x: 4, y: 10, z: Frac::from_int(0) },
            Point3 { x: 0, y: 10, z: Frac::from_int(0) },
        ],
    };
    let r = volume_against(
        &mesh,
        &ReferenceSurface::Mesh { mesh: reference },
        Some(1),
    )
    .unwrap();
    // Ten rows of ten cells; the reference covers x in [0, 4), five columns.
    assert!(r.uncovered_area.eq_value(Frac::from_int(50)).unwrap());
    assert!(r.fill.eq_value(Frac::from_int(500)).unwrap());
    assert!(r.cut.eq_value(Frac::from_int(0)).unwrap());
}

#[test]
fn test_group_sums() {
    let values = vec![
        Some(Frac::from_int(2)),
        None,
        Some(Frac::new(1, 2)),
    ];
    let total = sum_present(&values).unwrap();
    assert!(total.eq_value(Frac::new(5, 2)).unwrap());
    let none: Vec<Option<Frac>> = vec![None, None];
    assert!(sum_present(&none).is_none());
    assert_eq!(sum_points(&vec![4usize, 2, 1]), 7);
}

#[test]
fn test_valid_scale_definition() {
    let scale_def = ScaleDefinition {
        pixel_distance: Frac::from_int(100),
        real_distance: Frac::from_int(10),
        unit: Unit::Feet,
    };
    assert!(scale_def.validate().is_ok());
    assert!(scale_def
        .ratio()
        .unwrap()
        .eq_value(Frac::from_int(10))
        .unwrap());
}

#[test]
fn test_zero_pixel_distance_error() {
    let scale_def = ScaleDefinition {
        pixel_distance: Frac::from_int(0),
        real_distance: Frac::from_int(10),
        unit: Unit::Feet,
    };
    assert!(matches!(
        scale_def.validate(),
        Err(TakeoffError::InvalidScale { .. })
    ));
    assert!(matches!(
        scale_def.ratio(),
        Err(TakeoffError::InvalidScale { .. })
    ));
}

#[test]
fn test_negative_pixel_distance_error() {
    let scale_def = ScaleDefinition {
        pixel_distance: Frac::new(-10, 1),
        real_distance: Frac::from_int(10),
        unit: Unit::Feet,
    };
    assert!(matches!(
        scale_def.validate(),
        Err(TakeoffError::InvalidScale { .. })
    ));
}

#[test]
fn test_zero_real_distance_error() {
    let scale_def = ScaleDefinition {
        pixel_distance: Frac::from_int(100),
        real_distance: Frac::from_int(0),
        unit: Unit::Feet,
    };
    assert!(matches!(
        scale_def.validate(),
        Err(TakeoffError::InvalidScale { .. })
    ));
    assert!(matches!(
        scale_def.ratio(),
        Err(TakeoffError::InvalidScale { .. })
    ));
}

#[test]
fn test_negative_real_distance_error() {
    let scale_def = ScaleDefinition {
        pixel_distance: Frac::from_int(100),
        real_distance: Frac::new(-10, 1),
        unit: Unit::Feet,
    };
    assert!(matches!(
        scale_def.validate(),
        Err(TakeoffError::InvalidScale { .. })
    ));
}

#[test]
fn test_scale_ratio() {
    let scale = Scale::Default {
        id: "1".to_string(),
        page_id: "1".to_string(),
        scale: ScaleDefinition {
            pixel_distance: Frac::from_int(120),
            real_distance: Frac::from_int(1),
            unit: Unit::Feet,
        },
    };
    assert!(scale.ratio().unwrap().eq_value(Frac::from_int(120)).unwrap());
}

#[test]
fn test_scale_validation() {
    let valid_scale = Scale::Default {
        id: "1".to_string(),
        page_id: "1".to_string(),
        scale: ScaleDefinition {
            pixel_distance: Frac::from_int(100),
            real_distance: Frac::from_int(10),
            unit: Unit::Feet,
        },
    };
    assert!(valid_scale.validate().is_ok());

    let invalid_scale = Scale::Default {
        id: "1".to_string(),
        page_id: "1".to_string(),
        scale: ScaleDefinition {
            pixel_distance: Frac::from_int(0),
            real_distance: Frac::from_int(10),
            unit: Unit::Feet,
        },
    };
    assert!(matches!(
        invalid_scale.validate(),
        Err(TakeoffError::InvalidScale { .. })
    ));
}

#[test]
fn test_get_centroid() {
    let measurement = Measurement::Rectangle {
        id: "1".to_string(),
        page_id: "1".to_string(),
        group_id: "1".to_string(),
        points: (p(0, 0), p(1, 1)),
    };
    let centroid = measurement.get_centroid().unwrap();
    assert!(centroid.x.eq_value(Frac::new(1, 2)).unwrap());
    assert!(centroid.y.eq_value(Frac::new(1, 2)).unwrap());
}

#[test]
fn test_reposition_measurement_to_centroid() {
    let measurement = Measurement::Rectangle {
        id: "1".to_string(),
        page_id: "1".to_string(),
        group_id: "1".to_string(),
        points: (p(0, 0), p(2, 2)),
    };
    let new_centroid = FracPoint {
        x: Frac::from_int(10),
        y: Frac::from_int(20),
    };
    let result = measurement.with_centroid_at(new_centroid).unwrap();
    let got = result.get_centroid().unwrap();
    assert!(got.x.eq_value(Frac::from_int(10)).unwrap());
    assert!(got.y.eq_value(Frac::from_int(20)).unwrap());
}

#[test]
fn test_reposition_measurement_to_centroid_invalid() {
    let measurement = Measurement::Polygon {
        id: "1".to_string(),
        page_id: "1".to_string(),
        group_id: "1".to_string(),
        points: vec![p(0, 0), p(1, 0)],
    };
    let result = measurement.with_centroid_at(FracPoint {
        x: Frac::from_int(0),
        y: Frac::from_int(0),
    });
    assert!(result.is_err(), "empty geometry should yield error");
}

#[test]
fn test_calculate_without_scale() {
    let measurement = rect_measurement();
    assert!(measurement
        .pixel_area()
        .unwrap()
        .eq_value(Frac::from_int(5000))
        .unwrap());
    assert!(measurement
        .pixel_perimeter()
        .unwrap()
        .eq_value(Frac::from_int(300))
        .unwrap());
    let scales: Vec<Scale> = Vec::new();
    let g = measurement.to_geometry().unwrap();
    assert_eq!(resolve_scale(&scales, &g), None);
}
