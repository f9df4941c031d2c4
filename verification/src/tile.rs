//! Building one tile's polylines from an externally decoded tile record.
//!
//! The record mirrors what a vector-tile protobuf decodes to, as far as this
//! pipeline reads it: layers with a pixel extent and features carrying flat
//! geometry command arrays. Only the first layer is built; a feature whose
//! geometry is malformed is skipped with its error recorded, never aborting
//! the tile.

use vstd::prelude::*;

use crate::polyline::{
    assembled_rings, decoded_stream, DecodeError, PixelPoint, Polyline, MIN_RING_POINTS,
};

verus! {

/// The layer extent assumed for a record with no layers.
pub const DEFAULT_EXTENT: u32 = 4096;

/// One feature of a layer: its flat geometry command array.
#[derive(Clone, Debug)]
pub struct Feature {
    pub geometry: Vec<u32>,
}

/// One layer of a tile record: pixel units per tile edge, and its features.
#[derive(Clone, Debug)]
pub struct Layer {
    pub extent: u32,
    pub features: Vec<Feature>,
}

/// An externally decoded tile record. Transport, decompression and protobuf
/// wire parsing happen outside; this holds the plain values the pipeline
/// reads.
#[derive(Clone, Debug)]
pub struct VectorTile {
    pub layers: Vec<Layer>,
}

/// What one feature's geometry decodes to: its assembled rings, or the
/// error that makes it malformed.
pub open spec fn feature_rings(geom: Seq<u32>) -> Result<Seq<Seq<PixelPoint>>, DecodeError> {
    let (cmds, err) = decoded_stream(geom);
    match err {
        Some(e) => Err(e),
        None => Ok(assembled_rings(cmds, MIN_RING_POINTS as nat)),
    }
}

/// The ring sets of the features whose geometry decodes, in feature order.
pub open spec fn built_lines(geoms: Seq<Seq<u32>>) -> Seq<Seq<Seq<PixelPoint>>>
    decreases geoms.len(),
{
    if geoms.len() == 0 {
        Seq::<Seq<Seq<PixelPoint>>>::empty()
    } else {
        built_lines(geoms.drop_last()) + match feature_rings(geoms.last()) {
            Ok(rings) => seq![rings],
            Err(_) => Seq::<Seq<Seq<PixelPoint>>>::empty(),
        }
    }
}

/// The decode errors of the features whose geometry does not decode, in
/// feature order.
pub open spec fn built_errors(geoms: Seq<Seq<u32>>) -> Seq<DecodeError>
    decreases geoms.len(),
{
    if geoms.len() == 0 {
        Seq::<DecodeError>::empty()
    } else {
        built_errors(geoms.drop_last()) + match feature_rings(geoms.last()) {
            Ok(_) => Seq::<DecodeError>::empty(),
            Err(e) => seq![e],
        }
    }
}

/// The geometry arrays of a layer's features.
pub open spec fn layer_geometries(layer: Layer) -> Seq<Seq<u32>> {
    layer.features@.map_values(|f: Feature| f.geometry@)
}

/// One tile's decoded polylines in tile-pixel space, with the inputs the
/// projection of its points needs: the tile coordinate it was built for and
/// the layer extent. Created once per successful fetch and decode; immutable
/// afterwards. The decode errors of skipped features are kept beside the
/// lines.
#[derive(Clone, Debug)]
pub struct Tile {
    pub lines: Vec<Polyline>,
    pub skipped: Vec<DecodeError>,
    pub x: i32,
    pub y: i32,
    pub z: i32,
    pub extent: u32,
}

impl Tile {
    /// The rings of each polyline, as point sequences.
    pub open spec fn lines_view(self) -> Seq<Seq<Seq<PixelPoint>>> {
        self.lines@.map_values(|p: Polyline| p@)
    }

    /// An empty tile at the origin coordinate.
    pub fn new() -> (t: Tile)
        ensures
            t.lines@.len() == 0,
            t.skipped@.len() == 0,
            t.x == 0 && t.y == 0 && t.z == 0,
            t.extent == DEFAULT_EXTENT,
    {
        Tile {
            lines: Vec::new(),
            skipped: Vec::new(),
            x: 0,
            y: 0,
            z: 0,
            extent: DEFAULT_EXTENT,
        }
    }

    /// The polylines decoded for this tile.
    pub fn polylines(&self) -> (r: &Vec<Polyline>)
        ensures
            r@ == self.lines@,
    {
        &self.lines
    }

    /// Builds the tile at coordinate `(x, y, z)` from a decoded record: an
    /// empty tile when the record has no layers, otherwise the assembled
    /// rings of every well-formed feature of the first layer, with the
    /// errors of the malformed ones recorded in order.
    pub fn from_vector_tile(raw: &VectorTile, x: i32, y: i32, z: i32) -> (t: Tile)
        ensures
            t.x == x && t.y == y && t.z == z,
            raw.layers@.len() == 0 ==> t.lines@.len() == 0 && t.skipped@.len() == 0 && t.extent
                == DEFAULT_EXTENT,
            raw.layers@.len() > 0 ==> {
                &&& t.extent == raw.layers@[0].extent
                &&& t.lines_view() == built_lines(layer_geometries(raw.layers@[0]))
                &&& t.skipped@ == built_errors(layer_geometries(raw.layers@[0]))
            },
    {
        if raw.layers.len() == 0 {
            let mut t = Tile::new();
            t.x = x;
            t.y = y;
            t.z = z;
            return t;
        }
        let layer = &raw.layers[0];
        let ghost geoms = layer_geometries(raw.layers@[0]);
        let mut lines: Vec<Polyline> = Vec::new();
        let mut skipped: Vec<DecodeError> = Vec::new();
        proof {
            assert(lines@.map_values(|p: Polyline| p@) =~= built_lines(geoms.take(0)));
            assert(skipped@ =~= built_errors(geoms.take(0)));
        }
        for i in 0..layer.features.len()
            invariant
                geoms == layer_geometries(*layer),
                geoms.len() == layer.features@.len(),
                lines@.map_values(|p: Polyline| p@) == built_lines(geoms.take(i as int)),
                skipped@ == built_errors(geoms.take(i as int)),
        {
            proof {
                assert(geoms[i as int] == layer.features@[i as int].geometry@);
                assert(geoms.take(i + 1).drop_last() =~= geoms.take(i as int));
                assert(geoms.take(i + 1).last() == geoms[i as int]);
            }
            match Polyline::from_geometry(layer.features[i].geometry.as_slice()) {
                Ok(p) => {
                    lines.push(p);
                    proof {
                        assert(lines@.map_values(|p: Polyline| p@) =~= built_lines(
                            geoms.take(i + 1),
                        ));
                    }
                },
                Err(e) => {
                    skipped.push(e);
                    proof {
                        assert(lines@.map_values(|p: Polyline| p@) =~= built_lines(
                            geoms.take(i + 1),
                        ));
                        assert(skipped@ =~= built_errors(geoms.take(i + 1)));
                    }
                },
            }
        }
        proof {
            assert(geoms.take(layer.features@.len() as int) =~= geoms);
        }
        Tile { lines, skipped, x, y, z, extent: layer.extent }
    }
}

} // verus!
