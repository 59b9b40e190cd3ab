use osmsvg::bound::{Bound, GeoPoint, Rect};
use osmsvg::document::{viewport_corners, Corners};

fn at(lat: i32, lon: i32) -> GeoPoint {
    GeoPoint { decimicro_lat: lat, decimicro_lon: lon }
}

#[test]
fn new_bound_is_empty() {
    let bound = Bound::new();
    assert!(bound.is_empty());
    assert_eq!(bound.rect(), None);
}

#[test]
fn first_point_collapses_both_ranges() {
    let mut bound = Bound::new();
    bound.update(at(515_000_000, -1_270_000));
    assert!(!bound.is_empty());
    assert_eq!(
        bound.rect(),
        Some(Rect {
            lat_start: 515_000_000,
            lat_end: 515_000_000,
            lon_start: -1_270_000,
            lon_end: -1_270_000,
        })
    );
}

#[test]
fn origin_is_not_the_empty_bound() {
    let mut bound = Bound::new();
    bound.update(at(0, 0));
    assert!(!bound.is_empty());
    assert_eq!(bound.rect(), Some(Rect { lat_start: 0, lat_end: 0, lon_start: 0, lon_end: 0 }));
}

#[test]
fn bound_is_smallest_rectangle_around_points() {
    let points = [at(10, 40), at(-5, 60), at(30, 20), at(7, 50)];
    let mut bound = Bound::new();
    for p in points {
        bound.update(p);
    }
    let rect = bound.rect().unwrap();
    assert_eq!(rect, Rect { lat_start: -5, lat_end: 30, lon_start: 20, lon_end: 60 });
    for p in points {
        assert!(rect.lat_start <= p.decimicro_lat && p.decimicro_lat <= rect.lat_end);
        assert!(rect.lon_start <= p.decimicro_lon && p.decimicro_lon <= rect.lon_end);
    }
    assert!(points.iter().any(|p| p.decimicro_lat == rect.lat_start));
    assert!(points.iter().any(|p| p.decimicro_lat == rect.lat_end));
    assert!(points.iter().any(|p| p.decimicro_lon == rect.lon_start));
    assert!(points.iter().any(|p| p.decimicro_lon == rect.lon_end));
}

#[test]
fn point_inside_leaves_bound_unchanged() {
    let mut bound = Bound::new();
    bound.update(at(0, 0));
    bound.update(at(10, 10));
    let before = bound.rect();
    bound.update(at(5, 5));
    assert_eq!(bound.rect(), before);
}

#[test]
fn bound_reaches_the_limits_of_the_coordinate_type() {
    let mut bound = Bound::new();
    bound.update(at(i32::MIN, i32::MAX));
    bound.update(at(i32::MAX, i32::MIN));
    assert_eq!(
        bound.rect(),
        Some(Rect {
            lat_start: i32::MIN,
            lat_end: i32::MAX,
            lon_start: i32::MIN,
            lon_end: i32::MAX,
        })
    );
}

#[test]
fn repeated_point_keeps_collapsed_bound() {
    let mut bound = Bound::new();
    bound.update(at(3, 4));
    bound.update(at(3, 4));
    assert_eq!(bound.rect(), Some(Rect { lat_start: 3, lat_end: 3, lon_start: 4, lon_end: 4 }));
}

#[test]
fn empty_bound_has_no_viewport() {
    assert_eq!(viewport_corners(&Bound::new()), None);
}

#[test]
fn viewport_runs_from_north_west_to_south_east() {
    let mut bound = Bound::new();
    bound.update(at(10, 200));
    bound.update(at(30, 100));
    assert_eq!(
        viewport_corners(&bound),
        Some(Corners { upper_left: at(30, 100), lower_right: at(10, 200) })
    );
}
