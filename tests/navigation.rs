use std::time::Duration;

use glam::Vec2;
use seldom_map_nav::nav::{repath_due, PathTarget, NEVER};

#[test]
fn never_is_the_largest_duration() {
    assert_eq!(NEVER, Duration::MAX.as_nanos());
}

#[test]
fn path_without_interval_is_made_once() {
    assert_eq!(repath_due(None, 0, 5), (true, NEVER));
    assert_eq!(repath_due(None, NEVER, 10), (false, NEVER));
    assert_eq!(repath_due(None, NEVER, NEVER), (false, NEVER));
}

#[test]
fn path_with_interval_repeats() {
    assert_eq!(repath_due(Some(100), 0, 0), (true, 100));
    assert_eq!(repath_due(Some(100), 100, 50), (false, 100));
    assert_eq!(repath_due(Some(100), 100, 100), (true, 200));
    assert_eq!(repath_due(Some(100), 100, 170), (true, 270));
}

#[test]
fn path_target_keeps_its_point() {
    let target = PathTarget::Static(Vec2::new(1.5, 3.5));
    match target {
        PathTarget::Static(p) => assert_eq!(p, Vec2::new(1.5, 3.5)),
        PathTarget::Dynamic(_) => panic!("static target became dynamic"),
    }
}
