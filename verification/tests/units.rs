use std::cmp::Ordering;

use cloud_interp::color::{mean_channel, Color, PointColor};
use cloud_interp::coordinate::{mean_axis, Coordinate, PointCoordinate};
use cloud_interp::error::FrameError;
use cloud_interp::matching::credit_at;
use cloud_interp::neighbors::{select_neighboring_points, squared_distance, PointCloud, PointXyzRgba};
use cloud_interp::numeric::int_sqrt;
use cloud_interp::point::{Point, Property};
use cloud_interp::points::{copy_deltas, copy_points, Delta, Points};
use cloud_interp::ranking::{comes_before, offer};
use cloud_interp::recovery::DEFAULT_QUANTITY;
use cloud_interp::report::{append_decimal, coverage_report};

fn at(x: i32, y: i32, z: i32, index: usize) -> Point {
    Point::new(PointCoordinate::new(x, y, z), PointColor::new(0, 0, 0), 0, index)
}

#[test]
fn test_select_neighboring_points() {
    // Create a sample point cloud
    let points = vec![
        PointXyzRgba { x: 0, y: 0, z: 0, r: 0, g: 0, b: 0, a: 255 },
        PointXyzRgba { x: 1, y: 1, z: 1, r: 255, g: 255, b: 255, a: 255 },
        PointXyzRgba { x: 2, y: 2, z: 2, r: 255, g: 0, b: 0, a: 255 },
        PointXyzRgba { x: 3, y: 3, z: 3, r: 0, g: 255, b: 0, a: 255 },
        PointXyzRgba { x: 4, y: 4, z: 4, r: 0, g: 0, b: 255, a: 255 },
    ];

    let pc = PointCloud {
        number_of_points: points.len(),
        points,
    };

    let radius = 3; // Example radius value

    let neighbors = select_neighboring_points(&pc, radius);

    // Assert the expected neighbors for each point

    // Point 0 should have neighbors 1
    assert_eq!(neighbors[0], vec![1]);

    // Point 1 should have neighbors 0, 2
    assert_eq!(neighbors[1], vec![0, 2]);

    // Point 2 should have neighbors 1, 3
    assert_eq!(neighbors[2], vec![1, 3]);

    // Point 3 should have neighbors 2, 4
    assert_eq!(neighbors[3], vec![2, 4]);

    // Point 4 should have neighbors 3
    assert_eq!(neighbors[4], vec![3]);
}

#[test]
fn neighbours_on_the_rim_count_and_only_counted_points_are_looked_at() {
    let p = |x: i32| PointXyzRgba { x, y: 0, z: 0, r: 0, g: 0, b: 0, a: 0 };
    let pc = PointCloud { number_of_points: 3, points: vec![p(0), p(5), p(6), p(1)] };
    let neighbors = select_neighboring_points(&pc, 5);
    assert_eq!(neighbors, vec![vec![1], vec![0, 2], vec![1]]);
    assert!(select_neighboring_points(&PointCloud { number_of_points: 0, points: vec![p(0)] }, 9).is_empty());
    assert_eq!(select_neighboring_points(&pc, 0), vec![vec![], vec![], vec![]]);
    assert_eq!(squared_distance(&p(i32::MIN), &p(i32::MAX)), 0xffff_ffffu128 * 0xffff_ffffu128);
}

#[test]
fn integer_square_roots() {
    for (n, r) in [(0u128, 0u64), (1, 1), (2, 1), (3, 1), (4, 2), (15, 3), (16, 4), (17, 4), (99, 9), (100, 10)] {
        assert_eq!(int_sqrt(n), r, "root of {}", n);
    }
    assert_eq!(int_sqrt(u128::MAX), u64::MAX);
    assert_eq!(int_sqrt(1u128 << 64), 1u64 << 32);
    assert_eq!(int_sqrt((1u128 << 64) - 1), (1u64 << 32) - 1);
}

#[test]
fn means_round_down() {
    assert_eq!(mean_axis(1, 2), 1);
    assert_eq!(mean_axis(0, 1), 0);
    assert_eq!(mean_axis(-1, 0), -1);
    assert_eq!(mean_axis(-3, -4), -4);
    assert_eq!(mean_axis(-3, 4), 0);
    assert_eq!(mean_axis(-4, 3), -1);
    assert_eq!(mean_axis(i32::MAX, i32::MAX), i32::MAX);
    assert_eq!(mean_axis(i32::MIN, i32::MIN), i32::MIN);
    assert_eq!(mean_axis(i32::MIN, i32::MAX), -1);
    assert_eq!(mean_channel(255, 254), 254);
    assert_eq!(mean_channel(255, 255), 255);
    assert_eq!(mean_channel(0, 1), 0);
    assert_eq!(mean_channel(10, 200), 105);
}

#[test]
fn averages_of_positions_and_colours() {
    let a = PointCoordinate::new(0, -5, 7);
    let b = PointCoordinate::new(10, 0, 8);
    assert_eq!(a.get_average(&b), PointCoordinate::new(5, -3, 7));
    assert_eq!(PointColor::new(0, 255, 3).get_average(&PointColor::new(255, 255, 4)), PointColor::new(127, 255, 3));
    assert_eq!(PointCoordinate::new_default(), PointCoordinate::new(0, 0, 0));
    assert_eq!(PointColor::new_default(), PointColor::new(0, 0, 0));
}

#[test]
fn distances_in_whole_steps() {
    let origin = PointCoordinate::new_default();
    assert_eq!(origin.get_coord_delta(&PointCoordinate::new(3, 4, 0)), 5);
    assert_eq!(origin.get_coord_delta(&PointCoordinate::new(1, 1, 1)), 1);
    assert_eq!(origin.get_coord_delta(&PointCoordinate::new(2, 2, 1)), 3);
    assert_eq!(origin.squared_distance(&PointCoordinate::new(-2, 3, 6)), 49);
    assert_eq!(PointCoordinate::new(-2, 3, 6).squared_norm(), 49);
    let low = PointCoordinate::new(i32::MIN, i32::MIN, i32::MIN);
    let high = PointCoordinate::new(i32::MAX, i32::MAX, i32::MAX);
    assert_eq!(low.squared_distance(&high), 3 * 0xffff_ffffu128 * 0xffff_ffffu128);
    assert_eq!(low.get_coord_delta(&high), 7439101571);
    assert_eq!(PointColor::new(255, 255, 255).get_color_delta(&PointColor::new(0, 0, 0)), 441);
    assert_eq!(PointColor::new(255, 255, 255).squared_distance(&PointColor::new(0, 0, 0)), 195075);
    assert_eq!(PointColor::new(10, 0, 0).get_color_delta(&PointColor::new(7, 4, 0)), 5);
}

#[test]
fn cost_weighs_distance_colour_and_uses() {
    let p = Point::new(PointCoordinate::new(0, 0, 0), PointColor::new(10, 0, 0), 0, 0);
    let c = Point::new(PointCoordinate::new(3, 4, 0), PointColor::new(7, 4, 0), 9, 1);
    assert_eq!(p.get_coord_delta(&c), 5);
    assert_eq!(p.get_color_delta(&c), 5);
    // 5 * 2 + 5 * 3 + 6 * 100
    assert_eq!(p.get_difference(&c, 2, 3, 6, 100), 625);
    assert_eq!(p.get_difference(&c, 0, 0, 6, 0), 0);
    assert_eq!(p.get_difference(&c, 1, 0, 0, 1000), 5);
    let far = Point::new(PointCoordinate::new(i32::MAX, i32::MAX, i32::MAX), PointColor::new(255, 255, 255), 0, 0);
    let near = Point::new(PointCoordinate::new(i32::MIN, i32::MIN, i32::MIN), PointColor::new(0, 0, 0), 0, 0);
    assert_eq!(
        far.get_difference(&near, u32::MAX, u32::MAX, u16::MAX, u32::MAX),
        (7439101571u128 + 441 + 65535) * u32::MAX as u128
    );
}

#[test]
fn points_compare_by_distance_from_the_origin() {
    let near = at(1, 2, 2, 0);
    let far = at(0, 0, 4, 0);
    let other = at(-2, -2, 1, 5);
    assert_eq!(near.partial_cmp(&far), Some(Ordering::Less));
    assert_eq!(far.partial_cmp(&near), Some(Ordering::Greater));
    assert_eq!(near.partial_cmp(&other), Some(Ordering::Equal));
    assert_eq!(near.partial_cmp(&near), Some(Ordering::Equal));
    // 3 against 4: the distances themselves are compared.
    assert_eq!(at(3, 0, 0, 0).partial_cmp(&at(4, 0, 0, 0)), Some(Ordering::Less));
    assert_eq!(at(i32::MIN, i32::MIN, i32::MIN, 0).partial_cmp(&at(i32::MAX, i32::MAX, i32::MAX, 0)), Some(Ordering::Greater));
}

#[test]
fn equal_points_share_position_and_colour() {
    let a = Point::new(PointCoordinate::new(1, 2, 3), PointColor::new(4, 5, 6), 0, 0);
    let b = Point::new(PointCoordinate::new(1, 2, 3), PointColor::new(4, 5, 6), 77, 9);
    let moved = Point::new(PointCoordinate::new(1, 2, 4), PointColor::new(4, 5, 6), 0, 0);
    let dyed = Point::new(PointCoordinate::new(1, 2, 3), PointColor::new(4, 5, 7), 0, 0);
    assert!(a == b);
    assert!(a != moved);
    assert!(a != dyed);
}

#[test]
fn point_accessors() {
    let mut p = Point::new(PointCoordinate::new(1, -2, 3), PointColor::new(4, 5, 6), 7, 8);
    assert_eq!(*p.get_coord(), PointCoordinate::new(1, -2, 3));
    assert_eq!(*p.get_color(), PointColor::new(4, 5, 6));
    assert_eq!(p.get_mapping(), 7);
    assert_eq!(p.get_index(), 8);
    p.set_index(21);
    assert_eq!(p.get_index(), 21);
    assert_eq!(p.get_mapping(), 7);
    assert_eq!(p.at(0), Ok(1));
    assert_eq!(p.at(1), Ok(-2));
    assert_eq!(p.at(2), Ok(3));
    assert_eq!(p.point_coord.at(2), 3);
    let d = Point::new_default();
    assert_eq!((d.point_coord, d.point_color, d.mapping, d.index), (PointCoordinate::new(0, 0, 0), PointColor::new(0, 0, 0), 0, 0));
}

#[test]
fn average_keeps_the_index_and_clears_the_counter() {
    let p = Point::new(PointCoordinate::new(1, 1, 1), PointColor::new(255, 255, 255), 5, 42);
    let c = Point::new(PointCoordinate::new(0, 0, 0), PointColor::new(0, 0, 0), 9, 3);
    let avg = p.get_average(&c);
    assert_eq!(avg.point_coord, PointCoordinate::new(0, 0, 0));
    assert_eq!(avg.point_color, PointColor::new(127, 127, 127));
    assert_eq!(avg.mapping, 0);
    assert_eq!(avg.index, 42);
}

#[test]
fn attributes_are_set_by_name() {
    let mut p = Point::new_default();
    assert_eq!(p.set_property("x".to_string(), Property::Coordinate(-7)), Ok(()));
    assert_eq!(p.set_property("y".to_string(), Property::Coordinate(8)), Ok(()));
    assert_eq!(p.set_property("z".to_string(), Property::Coordinate(9)), Ok(()));
    assert_eq!(p.set_property("red".to_string(), Property::Channel(1)), Ok(()));
    assert_eq!(p.set_property("green".to_string(), Property::Channel(2)), Ok(()));
    assert_eq!(p.set_property("blue".to_string(), Property::Channel(3)), Ok(()));
    assert_eq!(p.point_coord, PointCoordinate::new(-7, 8, 9));
    assert_eq!(p.point_color, PointColor::new(1, 2, 3));
    assert_eq!((p.mapping, p.index), (0, 0));
}

#[test]
fn attributes_are_known_by_name_and_kind() {
    for (key, value) in [
        ("x", Property::Coordinate(1)),
        ("y", Property::Coordinate(-1)),
        ("z", Property::Coordinate(i32::MAX)),
        ("red", Property::Channel(0)),
        ("green", Property::Channel(255)),
        ("blue", Property::Channel(7)),
    ] {
        assert!(Point::takes_property(&key.to_string(), value), "{}", key);
    }
    for (key, value) in [
        ("alpha", Property::Channel(1)),
        ("nx", Property::Coordinate(1)),
        ("x", Property::Channel(1)),
        ("red", Property::Coordinate(1)),
        ("x", Property::Other),
        ("", Property::Coordinate(1)),
        ("X", Property::Coordinate(1)),
    ] {
        assert!(!Point::takes_property(&key.to_string(), value), "{}", key);
    }
}

#[test]
fn nearest_on_an_empty_tree_is_refused() {
    let tree = Points::new().to_kdtree();
    assert_eq!(tree.len(), 0);
    let q = at(1, 2, 3, 0);
    assert_eq!(tree.nearest(&q), None);
    assert!(tree.nearests(&q, 400).is_empty());
    let mut frame: Vec<Point> = Vec::new();
    assert!(matches!(q.get_nearest(&tree, &mut frame), Err(FrameError::EmptyReference)));
    assert!(frame.is_empty());
    assert_eq!(q.get_nearests(&tree, 5).count(), 0);
}

#[test]
fn matching_against_an_empty_reference_is_refused() {
    let mut current = Points::of(vec![at(1, 2, 3, 0)]);
    current.reference_frame = vec![at(9, 9, 9, 0)];
    assert!(matches!(current.average_points_recovery(Points::new()), Err(FrameError::EmptyReference)));
    assert!(matches!(
        current.closest_with_ratio_average_points_recovery(Points::new(), 1, 1, 1, DEFAULT_QUANTITY),
        Err(FrameError::EmptyReference)
    ));
    assert_eq!(current.count(), 1);
    assert_eq!(current.reference_frame.len(), 1);

    let mut nothing = Points::new();
    let (output, snapshot) = nothing.average_points_recovery(Points::new()).unwrap();
    assert_eq!((output.count(), snapshot.count()), (0, 0));
    let (output, snapshot) = nothing
        .closest_with_ratio_average_points_recovery(Points::new(), 1, 1, 1, DEFAULT_QUANTITY)
        .unwrap();
    assert_eq!((output.count(), snapshot.count()), (0, 0));
}

#[test]
fn get_nearest_credits_the_place_that_the_found_point_names() {
    let reference = vec![at(0, 0, 0, 2), at(50, 0, 0, 0), at(0, 50, 0, 1)];
    let tree = Points::of(reference.clone()).to_kdtree();
    let mut frame = reference.clone();
    let q = at(40, 1, 0, 0);
    let found = q.get_nearest(&tree, &mut frame).unwrap();
    assert_eq!(found.point_coord, PointCoordinate::new(50, 0, 0));
    assert_eq!(found.index, 0);
    assert_eq!(frame.iter().map(|p| p.mapping).collect::<Vec<_>>(), vec![1, 0, 0]);
    let found = at(1, 1, 1, 0).get_nearest(&tree, &mut frame).unwrap();
    assert_eq!(found.index, 2);
    assert_eq!(frame.iter().map(|p| p.mapping).collect::<Vec<_>>(), vec![1, 0, 1]);
}

#[test]
fn counters_stay_at_their_ceiling() {
    let mut frame = vec![Point::new(PointCoordinate::new(0, 0, 0), PointColor::new(1, 2, 3), u16::MAX - 1, 0)];
    credit_at(&mut frame, 0);
    assert_eq!(frame[0].mapping, u16::MAX);
    credit_at(&mut frame, 0);
    assert_eq!(frame[0].mapping, u16::MAX);
    assert_eq!(frame[0].point_color, PointColor::new(1, 2, 3));

    let full = Points::of(vec![Point::new(PointCoordinate::new(0, 0, 0), PointColor::new(1, 2, 3), u16::MAX, 0)]);
    let mut current = Points::of(vec![at(1, 1, 1, 0), at(2, 2, 2, 1)]);
    let (_, snapshot) = current.average_points_recovery(full).unwrap();
    assert_eq!(snapshot.data[0].mapping, u16::MAX);
}

#[test]
fn counters_that_start_above_zero_are_counted_on() {
    let reference = Points::of(vec![
        Point::new(PointCoordinate::new(0, 0, 0), PointColor::new(0, 0, 0), 10, 0),
        Point::new(PointCoordinate::new(9, 9, 9), PointColor::new(0, 0, 0), 20, 1),
    ]);
    let mut current = Points::of(vec![at(1, 1, 1, 0), at(8, 8, 8, 1), at(0, 1, 0, 2)]);
    let (_, snapshot) = current.average_points_recovery(reference).unwrap();
    assert_eq!(snapshot.data.iter().map(|p| p.mapping).collect::<Vec<_>>(), vec![12, 21]);
}

#[test]
fn closest_reads_the_counters_as_the_scan_goes() {
    let q = at(0, 0, 0, 0);
    // Two candidates name the same place: the use credited for the first
    // makes the second dearer.
    let first = at(3, 0, 0, 0);
    let second = at(2, 0, 0, 0);
    let third = at(9, 0, 0, 1);
    let mut frame = vec![at(3, 0, 0, 0), at(9, 0, 0, 1)];
    let chosen = q.get_closest(Points::of(vec![first, second, third]), 1, 0, &mut frame, 5);
    // first costs 3 and is taken; second costs 2 + 5 and is not; third 9.
    assert_eq!(chosen.point_coord, PointCoordinate::new(3, 0, 0));
    assert_eq!(frame.iter().map(|p| p.mapping).collect::<Vec<_>>(), vec![2, 0]);

    let mut frame = vec![at(3, 0, 0, 0), at(9, 0, 0, 1)];
    let averaged = q.get_average_closest(Points::of(vec![third, first]), 1, 0, &mut frame, 5);
    // third costs 9 and is taken; first costs 3 and replaces it.
    assert_eq!(averaged.point_coord, PointCoordinate::new(1, 0, 0));
    assert_eq!(frame.iter().map(|p| p.mapping).collect::<Vec<_>>(), vec![2, 1]);

    let mut frame = vec![at(3, 0, 0, 0), at(9, 0, 0, 1)];
    let tied = q.get_closest(Points::of(vec![at(4, 0, 0, 1), at(0, 4, 0, 0)]), 1, 0, &mut frame, 0);
    // Equal cost: the earlier candidate stays.
    assert_eq!(tied.point_coord, PointCoordinate::new(4, 0, 0));
    assert_eq!(frame.iter().map(|p| p.mapping).collect::<Vec<_>>(), vec![0, 2]);
}

#[test]
fn average_closest_from_the_tree() {
    let reference = vec![at(0, 0, 0, 0), at(10, 0, 0, 1), at(0, 10, 0, 2)];
    let tree = Points::of(reference.clone()).to_kdtree();
    let mut frame = reference.clone();
    let q = at(8, 0, 0, 0);
    let averaged = q.get_average_closest_from_kdtree(&tree, 1, 0, &mut frame, 100, 2);
    // Nearest first: (10,0,0) costs 2 and wins; (0,0,0) costs 8.
    assert_eq!(averaged.point_coord, PointCoordinate::new(9, 0, 0));
    assert_eq!(frame.iter().map(|p| p.mapping).collect::<Vec<_>>(), vec![0, 2, 0]);
    let averaged = q.get_average_closest_from_kdtree(&tree, 1, 0, &mut frame, 100, 2);
    // Now (10,0,0) costs 202 and is taken first, then (0,0,0) at 8 wins.
    assert_eq!(averaged.point_coord, PointCoordinate::new(4, 0, 0));
    assert_eq!(frame.iter().map(|p| p.mapping).collect::<Vec<_>>(), vec![2, 3, 0]);
}

#[test]
fn frames_are_built_and_taken_apart() {
    let mut frame = Points::new();
    assert_eq!(frame.count(), 0);
    frame.add(Point::new(PointCoordinate::new(1, 2, 3), PointColor::new(4, 5, 6), 0, 0));
    frame.add(Point::new(PointCoordinate::new(7, 8, 9), PointColor::new(10, 11, 12), 0, 1));
    assert_eq!(frame.count(), 2);
    let (coords, colors) = frame.duplicate().get_coords_cols();
    assert_eq!(coords.data, vec![PointCoordinate::new(1, 2, 3), PointCoordinate::new(7, 8, 9)]);
    assert_eq!(colors.data, vec![PointColor::new(4, 5, 6), PointColor::new(10, 11, 12)]);
    assert_eq!(frame.duplicate().get_coords().get_point_coor_vec(), coords.data);
    assert_eq!(frame.duplicate().get_colors().get_point_col_vec(), colors.data);
    assert_eq!(Coordinate::new(vec![PointCoordinate::new(1, 1, 1)]).data.len(), 1);
    assert_eq!(Color::new(vec![]).data.len(), 0);
    let data = frame.get_data();
    assert_eq!(data.len(), 2);
    assert_eq!(data[1].index, 1);
    let of = Points::of(data);
    assert!(of.delta_pos_vector.is_empty() && of.delta_colours.is_empty() && of.reference_frame.is_empty());
}

#[test]
fn frames_are_indexed_in_order() {
    let mut frame = Points::of(vec![at(1, 1, 1, 5), at(2, 2, 2, 5), at(3, 3, 3, 0)]);
    assert!(!frame.is_indexed());
    frame.reindex();
    assert!(frame.is_indexed());
    assert_eq!(frame.data.iter().map(|p| p.index).collect::<Vec<_>>(), vec![0, 1, 2]);
    assert_eq!(frame.data[2].point_coord, PointCoordinate::new(3, 3, 3));
    assert!(Points::new().is_indexed());
}

#[test]
fn deltas_of_matching_frames() {
    let mut current = Points::new();
    current.reference_frame = vec![
        Point::new(PointCoordinate::new(i32::MAX, 0, -5), PointColor::new(255, 0, 10), 0, 0),
        Point::new(PointCoordinate::new(1, 1, 1), PointColor::new(1, 1, 1), 0, 1),
    ];
    let output = Points::of(vec![
        Point::new(PointCoordinate::new(i32::MIN, 7, 5), PointColor::new(0, 255, 10), 0, 0),
        Point::new(PointCoordinate::new(1, 1, 1), PointColor::new(1, 1, 1), 0, 1),
    ]);
    assert_eq!(current.frame_delta(output), Ok(()));
    assert_eq!(
        current.get_delta_pos_vector(),
        vec![Delta { x: -4294967295, y: 7, z: 10 }, Delta { x: 0, y: 0, z: 0 }]
    );
    assert_eq!(
        current.get_delta_colours(),
        vec![Delta { x: -255, y: 255, z: 0 }, Delta { x: 0, y: 0, z: 0 }]
    );
    assert_eq!(current.frame_delta(Points::new()), Err(FrameError::LengthMismatch));
    assert_eq!(current.get_delta_pos_vector().len(), 2);

    let mut bare = Points::of(vec![at(1, 1, 1, 0)]);
    assert_eq!(bare.frame_delta(Points::new()), Ok(()));
    assert!(bare.get_delta_pos_vector().is_empty());
    assert_eq!(bare.frame_delta(Points::of(vec![at(1, 1, 1, 0)])), Err(FrameError::LengthMismatch));
}

#[test]
fn reports_in_decimal() {
    assert_eq!(coverage_report(0, 0), "mapped points: 0; total points: 0");
    assert_eq!(coverage_report(9, 10), "mapped points: 9; total points: 10");
    assert_eq!(coverage_report(1234567890, 4001), "mapped points: 1234567890; total points: 4001");
    let mut text = String::from("n=");
    append_decimal(&mut text, usize::MAX);
    assert_eq!(text, format!("n={}", usize::MAX));
    let mut frame = Points::new();
    assert_eq!(frame.mark_mapped_points(), "mapped points: 0; total points: 0");
}

#[test]
fn errors_describe_themselves() {
    assert_eq!(FrameError::EmptyReference.message(), "reference frame is empty");
    assert_eq!(FrameError::LengthMismatch.message(), "frame lengths differ");
    assert_eq!(FrameError::OutOfRangeAxis.message(), "axis out of range");
    assert_eq!(FrameError::UnexpectedAttribute.message(), "unexpected attribute");
}

#[test]
fn points_above_the_mean_height() {
    let frame = Points::of(vec![at(0, 1, 0, 0), at(0, 2, 0, 1), at(0, 4, 0, 2), at(0, -3, 0, 3)]);
    let total = frame.height_total();
    assert_eq!(total, 4);
    let count = frame.count();
    // The mean height is 1: a point at the mean is not above it.
    assert_eq!(
        frame.data.iter().map(|p| p.is_above_mean(total, count)).collect::<Vec<_>>(),
        vec![false, true, true, false]
    );
    let odd = Points::of(vec![at(0, 1, 0, 0), at(0, 2, 0, 1)]);
    // The mean height is one and a half.
    assert!(!at(0, 1, 0, 0).is_above_mean(odd.height_total(), 2));
    assert!(at(0, 2, 0, 0).is_above_mean(odd.height_total(), 2));
    let low = Points::of(vec![at(0, -1, 0, 0), at(0, -2, 0, 1)]);
    assert_eq!(low.height_total(), -3);
    assert!(at(0, -1, 0, 0).is_above_mean(-3, 2));
    assert!(!at(0, -2, 0, 0).is_above_mean(-3, 2));
    assert_eq!(Points::new().height_total(), 0);
    assert!(!at(0, i32::MAX, 0, 0).is_above_mean(0, 0));
}

#[test]
fn neighbours_on_a_line_are_all_found() {
    let reference = vec![at(5, 0, 0, 0), at(10, 0, 0, 1), at(20, 0, 0, 2)];
    let tree = Points::of(reference).to_kdtree();
    let q = at(0, 0, 0, 0);
    assert_eq!(tree.nearests(&q, 3), vec![0, 1, 2]);
    assert_eq!(tree.nearests(&q, 400), vec![0, 1, 2]);
    assert_eq!(tree.nearests(&q, 2), vec![0, 1]);
    assert_eq!(tree.nearests(&q, 1), vec![0]);
    assert!(tree.nearests(&q, 0).is_empty());
    assert_eq!(tree.nearests(&at(30, 0, 0, 0), 3), vec![2, 1, 0]);
    assert_eq!(tree.nearest(&q), Some(0));
    assert_eq!(tree.nearest(&at(16, 0, 0, 0)), Some(2));
    assert_eq!(tree.nearest(&at(8, 3, 0, 0)), Some(1));
}

#[test]
fn equally_near_points_come_in_frame_order() {
    let reference = vec![
        at(0, 3, 0, 0),
        at(3, 0, 0, 1),
        at(0, 0, 3, 2),
        at(-3, 0, 0, 3),
        at(1, 0, 0, 4),
        at(0, -3, 0, 5),
        at(0, 0, -3, 6),
    ];
    let q = at(0, 0, 0, 0);
    for turn in 0..7 {
        // Whatever the order in which the tree is built, the answer is one.
        let mut turned = reference.clone();
        turned.rotate_left(turn);
        let tree = Points::of(turned.clone()).to_kdtree();
        let first_far = (7 - turn) % 7;
        let near = (4 + 7 - turn) % 7;
        let places = tree.nearests(&q, 7);
        assert_eq!(places[0], near);
        let mut rest: Vec<usize> = (0..7).filter(|&p| p != near).collect();
        rest.sort();
        assert_eq!(&places[1..], &rest[..]);
        assert_eq!(tree.nearests(&q, 3), places[..3].to_vec());
        assert_eq!(tree.nearest(&q), Some(near));
        let _ = first_far;
    }
    let ring = Points::of(reference[..4].to_vec()).to_kdtree();
    assert_eq!(ring.nearest(&q), Some(0));
    assert_eq!(ring.nearests(&q, 2), vec![0, 1]);
    let twins = Points::of(vec![at(7, 7, 7, 0), at(7, 7, 7, 1), at(7, 7, 7, 2)]).to_kdtree();
    assert_eq!(twins.nearest(&at(7, 7, 7, 0)), Some(0));
    assert_eq!(twins.nearest(&q), Some(0));
    assert_eq!(twins.nearests(&q, 2), vec![0, 1]);
}

#[test]
fn neighbours_match_a_full_sort() {
    // A fixed scatter of points, some of them twice.
    let mut reference: Vec<Point> = Vec::new();
    let mut seed: u64 = 0x2545_f491_4f6c_dd1d;
    for index in 0..200 {
        let mut next = || {
            seed ^= seed << 13;
            seed ^= seed >> 7;
            seed ^= seed << 17;
            (seed % 41) as i32 - 20
        };
        reference.push(at(next(), next(), next(), index));
    }
    let tree = Points::of(reference.clone()).to_kdtree();
    let gap = |p: &Point, q: &Point| {
        let d = |a: i32, b: i32| (a as i64 - b as i64) * (a as i64 - b as i64);
        d(p.point_coord.x, q.point_coord.x) + d(p.point_coord.y, q.point_coord.y) + d(p.point_coord.z, q.point_coord.z)
    };
    for q in [at(0, 0, 0, 0), at(20, 20, 20, 0), at(-7, 3, 11, 0), at(1000, 0, 0, 0), reference[17]] {
        let mut all: Vec<usize> = (0..200).collect();
        all.sort_by_key(|&p| (gap(&reference[p], &q), p));
        for k in [1usize, 2, 5, 50, 199, 200, 201, 400] {
            let expected: Vec<usize> = all.iter().copied().take(k).collect();
            assert_eq!(tree.nearests(&q, k), expected, "{} nearest", k);
        }
        assert_eq!(tree.nearest(&q), Some(all[0]));
        let found = q.get_nearests(&tree, 5);
        assert_eq!(found.data.iter().map(|p| p.index).collect::<Vec<_>>(), all[..5].to_vec());
    }
}

#[test]
fn neighbours_at_the_rim_of_the_grid() {
    let reference = vec![
        at(i32::MIN, i32::MIN, i32::MIN, 0),
        at(i32::MAX, i32::MAX, i32::MAX, 1),
        at(0, 0, 0, 2),
        at(i32::MAX, i32::MIN, 0, 3),
    ];
    let tree = Points::of(reference).to_kdtree();
    assert_eq!(tree.nearests(&at(i32::MAX, i32::MAX, i32::MAX, 0), 4), vec![1, 2, 3, 0]);
    assert_eq!(tree.nearests(&at(i32::MIN, i32::MIN, i32::MIN, 0), 4), vec![0, 2, 3, 1]);
    assert_eq!(tree.nearest(&at(i32::MIN, i32::MAX, 0, 0)), Some(2));
}

#[test]
fn least_entries_are_kept_in_order() {
    let mut best: Vec<(u128, usize)> = Vec::new();
    for (place, gap) in [9u128, 4, 7, 4, 1, 8, 0].into_iter().enumerate() {
        offer(&mut best, (gap, place), 3);
    }
    assert_eq!(best, vec![(0, 6), (1, 4), (4, 1)]);
    let mut all: Vec<(u128, usize)> = Vec::new();
    for (place, gap) in [9u128, 4, 7, 4].into_iter().enumerate() {
        offer(&mut all, (gap, place), 10);
    }
    assert_eq!(all, vec![(4, 1), (4, 3), (7, 2), (9, 0)]);
    assert!(comes_before(&(1, 9), &(2, 0)));
    assert!(comes_before(&(2, 0), &(2, 1)));
    assert!(!comes_before(&(2, 1), &(2, 1)));
    assert!(!comes_before(&(3, 0), &(2, 1)));
}

#[test]
fn copies_are_equal() {
    let points = vec![at(1, 2, 3, 0), at(4, 5, 6, 1)];
    let copy = copy_points(&points);
    assert_eq!(copy.len(), 2);
    assert_eq!(copy[1].point_coord, PointCoordinate::new(4, 5, 6));
    assert_eq!(copy[1].index, 1);
    let deltas = vec![Delta { x: 1, y: -2, z: 3 }];
    assert_eq!(copy_deltas(&deltas), deltas);
    let frame = Points::of(points);
    assert!(frame.has_indices_within(2));
    assert!(!frame.has_indices_within(1));
    assert!(Points::new().has_indices_within(0));
}
