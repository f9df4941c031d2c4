//! The web tile source's request URLs and the whole-level coordinate grid.

use papariki::{grid_coords, TileCoord, WebTileSource};

#[test]
fn url_renders_the_template_with_coordinates_and_token() {
    let source = WebTileSource::new("tok123");
    assert_eq!(
        source.get_url(1, 2, 3),
        "https://api.mapbox.com/v4/mapbox.mapbox-streets-v8/3/1/2.vector.pbf?access_token=tok123"
    );
}

#[test]
fn url_renders_multi_digit_and_zero_coordinates() {
    let source = WebTileSource::new("");
    assert_eq!(
        source.get_url(1023, 0, 10),
        "https://api.mapbox.com/v4/mapbox.mapbox-streets-v8/10/1023/0.vector.pbf?access_token="
    );
}

#[test]
fn grid_walks_rows_outermost() {
    let coords = grid_coords(1);
    assert_eq!(coords, vec![
        TileCoord { x: 0, y: 0, zoom: 1 },
        TileCoord { x: 1, y: 0, zoom: 1 },
        TileCoord { x: 0, y: 1, zoom: 1 },
        TileCoord { x: 1, y: 1, zoom: 1 },
    ]);
}

#[test]
fn grid_covers_the_whole_level() {
    let coords = grid_coords(3);
    assert_eq!(coords.len(), 64);
    for (j, c) in coords.iter().enumerate() {
        assert_eq!(c.x, (j % 8) as u32);
        assert_eq!(c.y, (j / 8) as u32);
        assert_eq!(c.zoom, 3);
        assert!(c.is_valid());
    }
}
