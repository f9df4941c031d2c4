//! Building tiles from decoded records, and laying out their meshes.

use papariki::{extrude, Feature, Layer, PixelPoint, Polyline, Ring, Tile, VectorTile};

fn p(x: i32, y: i32) -> PixelPoint {
    PixelPoint { x, y }
}

fn single_feature_record(geometry: Vec<u32>) -> VectorTile {
    VectorTile {
        layers: vec![Layer { extent: 4096, features: vec![Feature { geometry }] }],
    }
}

#[test]
fn record_without_layers_builds_an_empty_tile() {
    let tile = Tile::from_vector_tile(&VectorTile { layers: vec![] }, 3, 4, 5);
    assert_eq!(tile.polylines().len(), 0);
    assert_eq!(tile.skipped.len(), 0);
    assert_eq!((tile.x, tile.y, tile.z), (3, 4, 5));
}

#[test]
fn single_layer_single_feature_end_to_end() {
    // One feature drawing a single segment at tile (0, 0, 0): exactly one
    // polyline with one ring of two points, and a mesh of one quad.
    let record = single_feature_record(vec![9, 0, 0, 10, 10, 0]);
    let tile = Tile::from_vector_tile(&record, 0, 0, 0);
    assert_eq!(tile.extent, 4096);
    assert_eq!(tile.polylines().len(), 1);
    assert_eq!(tile.polylines()[0].rings.len(), 1);
    assert_eq!(tile.polylines()[0].rings[0].points, vec![p(0, 0), p(5, 0)]);

    let mesh = extrude(tile.polylines()).unwrap();
    assert_eq!(mesh.segments.len(), 1);
    assert_eq!(mesh.vertex_count(), 4);
    assert_eq!(mesh.indices, vec![0, 1, 2, 1, 2, 3]);
}

#[test]
fn malformed_feature_is_skipped_not_fatal() {
    let record = VectorTile {
        layers: vec![Layer {
            extent: 4096,
            features: vec![
                Feature { geometry: vec![9, 0, 0, 11] },
                Feature { geometry: vec![9, 0, 0, 10, 10, 0] },
            ],
        }],
    };
    let tile = Tile::from_vector_tile(&record, 0, 0, 0);
    assert_eq!(tile.polylines().len(), 1);
    assert_eq!(tile.skipped.len(), 1);
}

#[test]
fn only_the_first_layer_is_built() {
    let record = VectorTile {
        layers: vec![
            Layer { extent: 512, features: vec![] },
            Layer { extent: 4096, features: vec![Feature { geometry: vec![9, 0, 0, 10, 10, 0] }] },
        ],
    };
    let tile = Tile::from_vector_tile(&record, 0, 0, 0);
    assert_eq!(tile.extent, 512);
    assert_eq!(tile.polylines().len(), 0);
}

#[test]
fn extrusion_counts_follow_the_segments() {
    // Two rings of 3 and 2 points and a second line of 4 points: six
    // segments, so twenty-four vertices and thirty-six indices.
    let lines = vec![
        Polyline {
            rings: vec![
                Ring { points: vec![p(0, 0), p(1, 0), p(1, 1)] },
                Ring { points: vec![p(5, 5), p(6, 5)] },
            ],
        },
        Polyline { rings: vec![Ring { points: vec![p(0, 0), p(0, 1), p(0, 2), p(0, 3)] }] },
    ];
    let mesh = extrude(&lines).unwrap();
    assert_eq!(mesh.segments.len(), 6);
    assert_eq!(mesh.vertex_count(), 24);
    assert_eq!(mesh.indices.len(), 36);
    for &i in &mesh.indices {
        assert!(i < 24);
    }
    for (k, seg) in mesh.segments.iter().enumerate() {
        assert_eq!(&mesh.indices[6 * k..6 * k + 6], &[
            4 * k as u32,
            4 * k as u32 + 1,
            4 * k as u32 + 2,
            4 * k as u32 + 1,
            4 * k as u32 + 2,
            4 * k as u32 + 3,
        ]);
        let ring = &lines[seg.line].rings[seg.ring];
        assert!(seg.start + 1 < ring.points.len());
    }
}

#[test]
fn short_rings_extrude_to_nothing() {
    let lines = vec![Polyline {
        rings: vec![Ring { points: vec![] }, Ring { points: vec![p(1, 1)] }],
    }];
    let mesh = extrude(&lines).unwrap();
    assert_eq!(mesh.segments.len(), 0);
    assert_eq!(mesh.vertex_count(), 0);
    assert_eq!(mesh.indices.len(), 0);
}
