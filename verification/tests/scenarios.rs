use cloud_interp::color::PointColor;
use cloud_interp::coordinate::PointCoordinate;
use cloud_interp::error::FrameError;
use cloud_interp::point::Point;
use cloud_interp::points::Points;

/// Grid steps per unit of length in these tests.
const UNIT: i32 = 1000;

fn white() -> PointColor {
    PointColor::new(255, 255, 255)
}

fn black() -> PointColor {
    PointColor::new(0, 0, 0)
}

fn point(x: i32, y: i32, z: i32, color: PointColor, index: usize) -> Point {
    Point::new(PointCoordinate::new(x, y, z), color, 0, index)
}

fn mappings(frame: &Points) -> Vec<u16> {
    frame.data.iter().map(|p| p.mapping).collect()
}

fn two_point_reference() -> Points {
    Points::of(vec![
        point(0, 0, 0, white(), 0),
        point(10 * UNIT, 10 * UNIT, 10 * UNIT, black(), 1),
    ])
}

#[test]
fn trivial_nearest_averages_with_the_near_point() {
    let mut current = Points::of(vec![point(UNIT, UNIT, UNIT, white(), 0)]);
    let (output, snapshot) = current.average_points_recovery(two_point_reference()).unwrap();

    assert_eq!(output.count(), 1);
    assert_eq!(output.data[0].point_coord, PointCoordinate::new(UNIT / 2, UNIT / 2, UNIT / 2));
    assert_eq!(output.data[0].point_color, white());
    assert_eq!(output.data[0].index, 0);
    assert_eq!(output.data[0].mapping, 0);
    assert_eq!(mappings(&snapshot), vec![1, 0]);
    assert_eq!(current.reference_frame.len(), 2);
    assert_eq!(current.reference_frame[0].mapping, 1);
    assert_eq!(current.reference_frame[1].mapping, 0);
    // Matching alone leaves the colours of the reference alone.
    assert_eq!(current.reference_frame[1].point_color, black());

    let report = current.mark_mapped_points();
    assert_eq!(current.reference_frame[0].point_color, white());
    assert_eq!(current.reference_frame[1].point_color, PointColor::new(0, 255, 0));
    assert_eq!(report, "mapped points: 1; total points: 2");
}

#[test]
fn empty_current_gives_empty_output() {
    let reference = Points::of(vec![point(3, 4, 5, white(), 0)]);
    let mut current = Points::new();
    let (output, snapshot) = current.average_points_recovery(reference).unwrap();

    assert_eq!(output.count(), 0);
    assert!(current.get_delta_pos_vector().is_empty());
    assert!(current.get_delta_colours().is_empty());
    assert_eq!(mappings(&snapshot), vec![0]);
    let report = current.mark_mapped_points();
    assert_eq!(report, "mapped points: 0; total points: 1");
}

#[test]
fn empty_current_gives_empty_output_by_cost() {
    let reference = Points::of(vec![point(3, 4, 5, white(), 0)]);
    let mut current = Points::new();
    let (output, snapshot) = current
        .closest_with_ratio_average_points_recovery(reference, 1, 1, 1, 400)
        .unwrap();
    assert_eq!(output.count(), 0);
    assert_eq!(mappings(&snapshot), vec![0]);
}

#[test]
fn penalty_redistributes_the_second_point() {
    let reference = Points::of(vec![
        point(0, 0, 0, white(), 0),
        point(UNIT / 10, 0, 0, white(), 1),
    ]);
    let mut current = Points::of(vec![point(0, 0, 0, white(), 0), point(0, 0, 0, white(), 1)]);
    let (output, snapshot) = current
        .closest_with_ratio_average_points_recovery(reference, 1, 0, 1000, 2)
        .unwrap();

    // The first point takes A, on top of it; the second is driven to B.
    assert_eq!(output.data[0].point_coord, PointCoordinate::new(0, 0, 0));
    assert_eq!(output.data[1].point_coord, PointCoordinate::new(UNIT / 20, 0, 0));
    assert!(snapshot.data[0].mapping >= 1);
    assert!(snapshot.data[1].mapping >= 1);
    // A: best and winner for the first point, best for a while for the
    // second. B: best and winner for the second point.
    assert_eq!(mappings(&snapshot), vec![3, 2]);
}

#[test]
fn delta_between_frames_of_different_length_is_refused() {
    let mut current = Points::of(vec![point(UNIT, UNIT, UNIT, white(), 0)]);
    let (output, _snapshot) = current.average_points_recovery(two_point_reference()).unwrap();

    let refused = current.frame_delta(output);
    assert_eq!(refused, Err(FrameError::LengthMismatch));
    assert!(current.get_delta_pos_vector().is_empty());
    assert!(current.get_delta_colours().is_empty());
    assert_eq!(current.count(), 1);
}

#[test]
fn more_candidates_asked_than_reference_points() {
    let reference = Points::of(vec![
        point(0, 0, 0, white(), 0),
        point(1000, 2000, 500, black(), 1),
        point(-700, 300, 900, white(), 2),
    ]);
    let query = point(100, 100, 100, white(), 0);
    let tree = reference.duplicate().to_kdtree();
    let found = query.get_nearests(&tree, 400);
    assert_eq!(found.count(), 3);
    assert_eq!(found.data[0].index, 0);
    assert_eq!(found.data[1].index, 2);
    assert_eq!(found.data[2].index, 1);

    let mut current = Points::of(vec![query, point(900, 1900, 400, black(), 1)]);
    let (output, snapshot) = current
        .closest_with_ratio_average_points_recovery(reference, 1, 1, 1, 400)
        .unwrap();
    assert_eq!(output.count(), 2);
    assert_eq!(snapshot.count(), 3);
    assert_eq!(output.data[0].point_coord, PointCoordinate::new(50, 50, 50));
    assert_eq!(output.data[1].point_coord, PointCoordinate::new(950, 1950, 450));
}

#[test]
fn matching_by_cost_is_repeatable() {
    let reference = || {
        Points::of(vec![
            point(0, 0, 0, white(), 0),
            point(10, 0, 0, black(), 1),
            point(0, 10, 0, white(), 2),
            point(0, 0, 10, black(), 3),
            point(10, 10, 10, white(), 4),
        ])
    };
    let current = || {
        Points::of(vec![
            point(1, 1, 1, white(), 0),
            point(9, 1, 0, black(), 1),
            point(1, 1, 1, white(), 2),
            point(5, 5, 5, black(), 3),
        ])
    };
    let mut first = current();
    let mut second = current();
    let (out1, snap1) = first
        .closest_with_ratio_average_points_recovery(reference(), 3, 1, 7, 400)
        .unwrap();
    let (out2, snap2) = second
        .closest_with_ratio_average_points_recovery(reference(), 3, 1, 7, 400)
        .unwrap();
    assert_eq!(out1.count(), out2.count());
    for k in 0..out1.count() {
        assert_eq!(out1.data[k].point_coord, out2.data[k].point_coord);
        assert_eq!(out1.data[k].point_color, out2.data[k].point_color);
        assert_eq!(out1.data[k].index, out2.data[k].index);
    }
    assert_eq!(mappings(&snap1), mappings(&snap2));
}
