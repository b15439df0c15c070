use cloud_interp::color::PointColor;
use cloud_interp::coordinate::PointCoordinate;
use cloud_interp::point::Point;
use cloud_interp::points::Points;

fn colored(x: i32, y: i32, z: i32, rgb: (u8, u8, u8), index: usize) -> Point {
    Point::new(PointCoordinate::new(x, y, z), PointColor::new(rgb.0, rgb.1, rgb.2), 0, index)
}

fn sample_reference() -> Points {
    Points::of(vec![
        colored(0, 0, 0, (10, 20, 30), 0),
        colored(100, 0, 0, (200, 20, 30), 1),
        colored(0, 100, 0, (10, 220, 30), 2),
        colored(0, 0, 100, (10, 20, 230), 3),
        colored(-50, -60, 70, (1, 2, 3), 4),
        colored(100, 100, 100, (255, 255, 255), 5),
    ])
}

fn sample_current() -> Points {
    Points::of(vec![
        colored(3, 2, 1, (11, 21, 31), 0),
        colored(95, 4, -3, (0, 0, 0), 1),
        colored(-49, -61, 69, (9, 9, 9), 2),
        colored(60, 60, 60, (128, 128, 128), 3),
        colored(2, 99, 1, (10, 221, 30), 4),
        colored(3, 2, 1, (11, 21, 31), 5),
    ])
}

fn gap2(a: &PointCoordinate, b: &PointCoordinate) -> i128 {
    let d = |p: i32, q: i32| (p as i128 - q as i128) * (p as i128 - q as i128);
    d(a.x, b.x) + d(a.y, b.y) + d(a.z, b.z)
}

fn mapping_total(frame: &Points) -> usize {
    frame.data.iter().map(|p| p.mapping as usize).sum()
}

#[test]
fn output_has_the_length_of_the_current_frame() {
    let mut current = sample_current();
    let (output, snapshot) = current.average_points_recovery(sample_reference()).unwrap();
    assert_eq!(output.count(), 6);
    assert_eq!(snapshot.count(), 6);

    let mut shorter = Points::of(vec![colored(1, 1, 1, (0, 0, 0), 0), colored(2, 2, 2, (0, 0, 0), 1)]);
    let (output, snapshot) = shorter
        .closest_with_ratio_average_points_recovery(sample_reference(), 1, 1, 1, 3)
        .unwrap();
    assert_eq!(output.count(), 2);
    assert_eq!(snapshot.count(), 6);
}

#[test]
fn output_points_keep_the_index_of_the_current_point() {
    let mut current = Points::of(vec![
        colored(3, 2, 1, (0, 0, 0), 7),
        colored(95, 4, -3, (0, 0, 0), 11),
        colored(1, 1, 1, (0, 0, 0), 0),
    ]);
    let (output, _) = current.average_points_recovery(sample_reference()).unwrap();
    assert_eq!(output.data.iter().map(|p| p.index).collect::<Vec<_>>(), vec![7, 11, 0]);
    let (output, _) = current
        .closest_with_ratio_average_points_recovery(sample_reference(), 2, 1, 5, 4)
        .unwrap();
    assert_eq!(output.data.iter().map(|p| p.index).collect::<Vec<_>>(), vec![7, 11, 0]);
}

#[test]
fn nearest_matching_credits_one_use_for_each_current_point() {
    let mut current = sample_current();
    let (_, snapshot) = current.average_points_recovery(sample_reference()).unwrap();
    assert_eq!(mapping_total(&snapshot), 6);
    assert_eq!(
        snapshot.data.iter().map(|p| p.mapping).collect::<Vec<_>>(),
        vec![2, 1, 1, 0, 1, 1]
    );
}

#[test]
fn cost_matching_credits_between_one_and_quantity_plus_one_uses() {
    for quantity in [1usize, 2, 3, 6, 400] {
        let mut current = sample_current();
        let (_, snapshot) = current
            .closest_with_ratio_average_points_recovery(sample_reference(), 1, 1, 50, quantity)
            .unwrap();
        let total = mapping_total(&snapshot);
        assert!(total >= 6, "{} uses with {} candidates", total, quantity);
        assert!(total <= 6 * (quantity + 1), "{} uses with {} candidates", total, quantity);
    }
}

#[test]
fn cost_matching_with_one_candidate_credits_the_nearest_twice() {
    let mut current = sample_current();
    let (output, snapshot) = current
        .closest_with_ratio_average_points_recovery(sample_reference(), 1, 1, 50, 1)
        .unwrap();
    assert_eq!(
        snapshot.data.iter().map(|p| p.mapping).collect::<Vec<_>>(),
        vec![4, 2, 2, 0, 2, 2]
    );
    let mut again = sample_current();
    let (nearest, _) = again.average_points_recovery(sample_reference()).unwrap();
    for k in 0..6 {
        assert_eq!(output.data[k].point_coord, nearest.data[k].point_coord);
    }
}

#[test]
fn output_is_the_midpoint_of_the_pair() {
    let reference = sample_reference();
    let mut current = sample_current();
    let expected = [0usize, 1, 4, 5, 2, 0];
    let (output, _) = current.average_points_recovery(sample_reference()).unwrap();
    for k in 0..6 {
        let p = &current.data[k];
        let c = &reference.data[expected[k]];
        let o = &output.data[k];
        for (twice, sum) in [
            (2 * o.point_coord.x as i64, p.point_coord.x as i64 + c.point_coord.x as i64),
            (2 * o.point_coord.y as i64, p.point_coord.y as i64 + c.point_coord.y as i64),
            (2 * o.point_coord.z as i64, p.point_coord.z as i64 + c.point_coord.z as i64),
            (2 * o.point_color.red as i64, p.point_color.red as i64 + c.point_color.red as i64),
            (2 * o.point_color.green as i64, p.point_color.green as i64 + c.point_color.green as i64),
            (2 * o.point_color.blue as i64, p.point_color.blue as i64 + c.point_color.blue as i64),
        ] {
            assert!(sum - twice == 0 || sum - twice == 1, "point {}: {} against {}", k, twice, sum);
        }
    }
    assert_eq!(output.data[1].point_coord, PointCoordinate::new(97, 2, -2));
    assert_eq!(output.data[1].point_color, PointColor::new(100, 10, 15));
}

#[test]
fn deltas_lead_from_the_reference_to_the_output() {
    let mut current = sample_current();
    let (output, snapshot) = current.average_points_recovery(sample_reference()).unwrap();
    let kept = output.duplicate();
    assert_eq!(current.frame_delta(output), Ok(()));
    let positions = current.get_delta_pos_vector();
    let colours = current.get_delta_colours();
    assert_eq!(positions.len(), 6);
    assert_eq!(colours.len(), 6);
    for k in 0..6 {
        let from = &snapshot.data[k];
        let to = &kept.data[k];
        assert_eq!(from.point_coord.x as i64 + positions[k].x, to.point_coord.x as i64);
        assert_eq!(from.point_coord.y as i64 + positions[k].y, to.point_coord.y as i64);
        assert_eq!(from.point_coord.z as i64 + positions[k].z, to.point_coord.z as i64);
        assert_eq!(from.point_color.red as i64 + colours[k].x, to.point_color.red as i64);
        assert_eq!(from.point_color.green as i64 + colours[k].y, to.point_color.green as i64);
        assert_eq!(from.point_color.blue as i64 + colours[k].z, to.point_color.blue as i64);
    }
    // Output point 1 is (97, 2, -2) in (100, 10, 15); reference point 1 is
    // (100, 0, 0) in (200, 20, 30).
    assert_eq!((positions[1].x, positions[1].y, positions[1].z), (-3, 2, -2));
    assert_eq!((colours[1].x, colours[1].y, colours[1].z), (-100, -10, -15));
}

#[test]
fn deltas_are_appended_to_earlier_deltas() {
    let mut current = sample_current();
    let (output, _) = current.average_points_recovery(sample_reference()).unwrap();
    let again = output.duplicate();
    assert_eq!(current.frame_delta(output), Ok(()));
    let first = current.get_delta_pos_vector();
    assert_eq!(current.frame_delta(again), Ok(()));
    let both = current.get_delta_pos_vector();
    assert_eq!(both.len(), 12);
    assert_eq!(&both[..6], &first[..]);
    assert_eq!(&both[6..], &first[..]);
    assert_eq!(current.get_delta_colours().len(), 12);
}

#[test]
fn marking_twice_is_marking_once() {
    let mut current = sample_current();
    current.average_points_recovery(sample_reference()).unwrap();
    let before = current.duplicate();
    let first = current.mark_mapped_points();
    let once = current.duplicate();
    let second = current.mark_mapped_points();
    assert_eq!(first, "mapped points: 5; total points: 6");
    assert_eq!(first, second);
    assert_eq!(current.mapped_points(), 5);
    for k in 0..6 {
        assert_eq!(current.reference_frame[k].point_color, once.reference_frame[k].point_color);
        assert_eq!(current.reference_frame[k].mapping, before.reference_frame[k].mapping);
        assert_eq!(current.reference_frame[k].point_coord, before.reference_frame[k].point_coord);
    }
    assert_eq!(current.reference_frame[3].point_color, PointColor::new(0, 255, 0));
    assert_eq!(current.reference_frame[0].point_color, PointColor::new(10, 20, 30));
    // The marker touches neither the points of the frame nor its deltas.
    assert_eq!(current.count(), 6);
    assert!(current.get_delta_pos_vector().is_empty());
}

#[test]
fn tree_finds_a_point_at_the_least_distance() {
    let reference = sample_reference();
    let tree = sample_reference().to_kdtree();
    assert_eq!(tree.len(), 6);
    let mut queries = sample_current().get_data();
    queries.push(colored(1000, -1000, 1000, (0, 0, 0), 0));
    queries.push(colored(i32::MAX, i32::MAX, i32::MAX, (0, 0, 0), 0));
    queries.push(colored(i32::MIN, i32::MIN, i32::MIN, (0, 0, 0), 0));
    for q in queries.iter() {
        let place = tree.nearest(q).unwrap();
        let found = gap2(&tree.get(place).point_coord, &q.point_coord);
        let least = reference
            .data
            .iter()
            .map(|p| gap2(&p.point_coord, &q.point_coord))
            .min()
            .unwrap();
        assert_eq!(found, least);
        assert_eq!(tree.get(place).point_coord, reference.data[place].point_coord);
    }
}

#[test]
fn tree_lists_neighbours_nearest_first() {
    let tree = sample_reference().to_kdtree();
    let q = colored(60, 60, 60, (0, 0, 0), 0);
    let places = tree.nearests(&q, 3);
    assert_eq!(places, vec![5, 1, 2]);
    assert_eq!(tree.nearests(&q, 6), vec![5, 1, 2, 3, 0, 4]);
    let gaps: Vec<i128> = places
        .iter()
        .map(|&place| gap2(&tree.get(place).point_coord, &q.point_coord))
        .collect();
    for pair in gaps.windows(2) {
        assert!(pair[0] <= pair[1]);
    }
    assert_eq!(places[0], 5);
    assert_eq!(gaps[0], 4800);
    assert!(tree.nearests(&q, 0).is_empty());
}
