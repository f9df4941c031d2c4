//! The tile queue, the fetch protocol, and the cache.

use papariki::{Globe, Tile, TileCoord};

fn coord(x: u32, y: u32, zoom: u32) -> TileCoord {
    TileCoord { x, y, zoom }
}

#[test]
fn two_enqueues_two_fetches_and_no_third() {
    let mut globe = Globe::new("");
    globe.queue_tile(0, 0, 0);
    globe.queue_tile(1, 0, 0);

    // First step: the most recently requested coordinate is fetched.
    let first = globe.next_fetch().unwrap();
    assert_eq!(first, coord(1, 0, 0));
    globe.complete_fetch(Tile::new());

    // Second step: the remaining coordinate.
    let second = globe.next_fetch().unwrap();
    assert_eq!(second, coord(0, 0, 0));
    globe.complete_fetch(Tile::new());

    // Both are cached, and no third fetch starts without a third request.
    assert!(globe.lookup(coord(0, 0, 0)).is_some());
    assert!(globe.lookup(coord(1, 0, 0)).is_some());
    assert_eq!(globe.next_fetch(), None);
}

#[test]
fn at_most_one_fetch_in_flight() {
    let mut globe = Globe::new("");
    globe.queue_tile(0, 0, 1);
    globe.queue_tile(1, 1, 1);
    assert!(globe.next_fetch().is_some());
    // The first fetch has not concluded; nothing else starts.
    assert_eq!(globe.next_fetch(), None);
    globe.complete_fetch(Tile::new());
    assert_eq!(globe.next_fetch(), Some(coord(0, 0, 1)));
}

#[test]
fn failed_fetch_drops_the_coordinate() {
    let mut globe = Globe::new("");
    globe.queue_tile(2, 3, 4);
    assert_eq!(globe.next_fetch(), Some(coord(2, 3, 4)));
    globe.abort_fetch();
    assert!(globe.lookup(coord(2, 3, 4)).is_none());
    assert_eq!(globe.next_fetch(), None);
    assert_eq!(globe.tiles().len(), 0);
}

#[test]
fn refetching_a_coordinate_replaces_its_tile() {
    let mut globe = Globe::new("");
    globe.queue_tile(0, 0, 0);
    globe.queue_tile(0, 0, 0);

    globe.next_fetch().unwrap();
    globe.complete_fetch(Tile::new());
    globe.next_fetch().unwrap();
    let mut replacement = Tile::new();
    replacement.extent = 512;
    globe.complete_fetch(replacement);

    assert_eq!(globe.tiles().len(), 1);
    assert_eq!(globe.lookup(coord(0, 0, 0)).unwrap().extent, 512);
}

#[test]
fn lookup_misses_before_any_fetch() {
    let globe = Globe::new("");
    assert!(globe.lookup(coord(0, 0, 0)).is_none());
}

#[test]
fn coordinate_validity_follows_the_pyramid() {
    assert!(coord(0, 0, 0).is_valid());
    assert!(!coord(1, 0, 0).is_valid());
    assert!(coord(3, 1, 2).is_valid());
    assert!(!coord(4, 0, 2).is_valid());
    assert!(!coord(0, 0, 32).is_valid());
}
