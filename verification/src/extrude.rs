//! Layout of the extruded line mesh.
//!
//! Every consecutive point pair of every ring becomes one quad: four
//! vertices (each endpoint paired with one of two opposing normals and a
//! side flag) and six indices forming its two triangles. The positions and
//! normals are floating-point work done outside; this module fixes exactly
//! which segments are extruded, in what order, and the whole index buffer.

use vstd::prelude::*;

use crate::polyline::{PixelPoint, Polyline};

verus! {

/// One extruded segment: the points `start` and `start + 1` of ring `ring`
/// of polyline `line`. Its quad's vertices are, in order, the start point
/// with the segment normal (side flag one), the end point with the same
/// normal, and both again with the opposite normal (side flag zero).
#[derive(Clone, Copy, Debug, PartialEq, Eq, Structural)]
pub struct SegmentRef {
    pub line: usize,
    pub ring: usize,
    pub start: usize,
}

/// The most segments a layout can hold: with four vertices per segment,
/// every index still fits in an unsigned 32-bit value.
pub const MAX_SEGMENTS: usize = 0x3FFF_FFFF;

/// How many segments a ring of `n_points` points has.
pub open spec fn ring_segment_count(n_points: nat) -> nat {
    if n_points == 0 {
        0
    } else {
        (n_points - 1) as nat
    }
}

/// The segments of one ring, in point order.
pub open spec fn ring_segs(line: usize, ring: usize, n_points: nat) -> Seq<SegmentRef> {
    Seq::new(ring_segment_count(n_points), |k: int| SegmentRef { line, ring, start: k as usize })
}

/// The segments of the rings of line `line` from ring `r` onward.
pub open spec fn segs_of_rings(line: usize, rings: Seq<Seq<PixelPoint>>, r: int) -> Seq<SegmentRef>
    decreases rings.len() - r,
{
    if r < 0 || r >= rings.len() {
        Seq::<SegmentRef>::empty()
    } else {
        ring_segs(line, r as usize, rings[r].len()) + segs_of_rings(line, rings, r + 1)
    }
}

/// The segments of the polylines from line `l` onward.
pub open spec fn segs_of_lines(lines: Seq<Seq<Seq<PixelPoint>>>, l: int) -> Seq<SegmentRef>
    decreases lines.len() - l,
{
    if l < 0 || l >= lines.len() {
        Seq::<SegmentRef>::empty()
    } else {
        segs_of_rings(l as usize, lines[l], 0) + segs_of_lines(lines, l + 1)
    }
}

/// Every segment of every ring of every polyline, in drawing order.
pub open spec fn all_segments(lines: Seq<Seq<Seq<PixelPoint>>>) -> Seq<SegmentRef> {
    segs_of_lines(lines, 0)
}

/// The rings of each polyline of a list, as point sequences.
pub open spec fn polylines_view(lines: Seq<Polyline>) -> Seq<Seq<Seq<PixelPoint>>> {
    lines.map_values(|p: Polyline| p@)
}

/// The six indices of segment `k`'s quad: two triangles over its four
/// vertices, which sit at offsets `4k` through `4k + 3`.
pub open spec fn quad_indices(k: int) -> Seq<u32> {
    seq![
        (4 * k) as u32,
        (4 * k + 1) as u32,
        (4 * k + 2) as u32,
        (4 * k + 1) as u32,
        (4 * k + 2) as u32,
        (4 * k + 3) as u32,
    ]
}

/// The layout of an extruded line mesh: which segment each group of four
/// vertices comes from, and the full triangle index buffer. The
/// floating-point vertex payload is filled in outside, four vertices per
/// segment, in segment order.
#[derive(Clone, Debug)]
pub struct LineMeshLayout {
    pub segments: Vec<SegmentRef>,
    pub indices: Vec<u32>,
}

impl LineMeshLayout {
    /// How many vertices the extruded mesh has: four per segment.
    pub fn vertex_count(&self) -> (n: usize)
        requires
            self.segments@.len() <= MAX_SEGMENTS,
        ensures
            n == 4 * self.segments@.len(),
    {
        4 * self.segments.len()
    }
}

/// The segments of one ring of `n_points` points, in point order.
fn ring_segments(line: usize, ring: usize, n_points: usize) -> (v: Vec<SegmentRef>)
    ensures
        v@ == ring_segs(line, ring, n_points as nat),
{
    let mut v: Vec<SegmentRef> = Vec::new();
    if n_points == 0 {
        proof {
            assert(v@ =~= ring_segs(line, ring, n_points as nat));
        }
        return v;
    }
    let count = n_points - 1;
    for k in 0..count
        invariant
            v@.len() == k,
            forall|j: int| 0 <= j < k ==> v@[j] == (SegmentRef { line, ring, start: j as usize }),
    {
        v.push(SegmentRef { line, ring, start: k });
    }
    proof {
        assert(v@ =~= ring_segs(line, ring, n_points as nat));
    }
    v
}

/// Lays out the extruded mesh of a list of polylines: one quad per
/// consecutive point pair, four vertices and six indices each, every index
/// within the vertex range. Yields nothing only when the segments outnumber
/// `MAX_SEGMENTS`, where the indices would no longer fit their type.
pub fn extrude(lines: &Vec<Polyline>) -> (r: Option<LineMeshLayout>)
    ensures
        match r {
            Some(m) => {
                &&& m.segments@ == all_segments(polylines_view(lines@))
                &&& m.segments@.len() <= MAX_SEGMENTS
                &&& m.indices@.len() == 6 * m.segments@.len()
                &&& forall|k: int|
                    0 <= k < m.segments@.len() ==> #[trigger] m.indices@.subrange(6 * k, 6 * k + 6)
                        == quad_indices(k)
                &&& forall|j: int|
                    0 <= j < m.indices@.len() ==> #[trigger] m.indices@[j] < 4 * m.segments@.len()
            },
            None => all_segments(polylines_view(lines@)).len() > MAX_SEGMENTS,
        },
{
    let ghost lv = polylines_view(lines@);
    let ghost total = all_segments(lv);
    let mut segments: Vec<SegmentRef> = Vec::new();
    proof {
        assert(segments@ + segs_of_lines(lv, 0) =~= total);
    }
    for l in 0..lines.len()
        invariant
            lv == polylines_view(lines@),
            total == all_segments(lv),
            lv.len() == lines@.len(),
            segments@.len() <= MAX_SEGMENTS,
            segments@ + segs_of_lines(lv, l as int) == total,
    {
        let rings = &lines[l].rings;
        proof {
            assert(lv[l as int] == lines@[l as int]@);
        }
        for rr in 0..rings.len()
            invariant
                lv == polylines_view(lines@),
                total == all_segments(lv),
                lv.len() == lines@.len(),
                l < lines@.len(),
                rings@ == lines@[l as int].rings@,
                lv[l as int] == lines@[l as int]@,
                rings@.len() == lv[l as int].len(),
                segments@.len() <= MAX_SEGMENTS,
                segments@ + segs_of_rings(l, lv[l as int], rr as int) + segs_of_lines(
                    lv,
                    l as int + 1,
                ) == total,
        {
            let n_points = rings[rr].points.len();
            proof {
                assert(lv[l as int][rr as int] == rings@[rr as int]@);
            }
            let mut segs = ring_segments(l, rr, n_points);
            let room = MAX_SEGMENTS - segments.len();
            if segs.len() > room {
                proof {
                    assert(segs_of_rings(l, lv[l as int], rr as int) == ring_segs(
                        l,
                        rr,
                        n_points as nat,
                    ) + segs_of_rings(l, lv[l as int], rr as int + 1));
                    assert(total.len() >= segments@.len() + segs@.len());
                }
                return None;
            }
            segments.append(&mut segs);
            proof {
                assert(segs_of_rings(l, lv[l as int], rr as int) == ring_segs(
                    l,
                    rr,
                    n_points as nat,
                ) + segs_of_rings(l, lv[l as int], rr as int + 1));
                assert(segments@ + segs_of_rings(l, lv[l as int], rr as int + 1) + segs_of_lines(
                    lv,
                    l as int + 1,
                ) =~= total);
            }
        }
        proof {
            assert(segs_of_rings(l, lv[l as int], rings@.len() as int) =~= Seq::<
                SegmentRef,
            >::empty());
            assert(segments@ + segs_of_lines(lv, l as int + 1) =~= total);
        }
    }
    proof {
        assert(segs_of_lines(lv, lines@.len() as int) =~= Seq::<SegmentRef>::empty());
        assert(segments@ =~= total);
    }
    let seg_count = segments.len();
    let mut indices: Vec<u32> = Vec::new();
    for k in 0..seg_count
        invariant
            seg_count == segments@.len(),
            seg_count <= MAX_SEGMENTS,
            indices@.len() == 6 * k,
            forall|j: int| 0 <= j < k ==> #[trigger] indices@.subrange(6 * j, 6 * j + 6)
                == quad_indices(j),
            forall|j: int| 0 <= j < indices@.len() ==> #[trigger] indices@[j] < 4 * (k as int),
    {
        let ghost before = indices@;
        let base = (k as u32) * 4;
        indices.push(base);
        indices.push(base + 1);
        indices.push(base + 2);
        indices.push(base + 1);
        indices.push(base + 2);
        indices.push(base + 3);
        proof {
            assert(indices@.subrange(6 * k as int, 6 * k as int + 6) =~= quad_indices(k as int));
            assert forall|j: int| 0 <= j < k implies #[trigger] indices@.subrange(
                6 * j,
                6 * j + 6,
            ) == quad_indices(j) by {
                assert(indices@.subrange(6 * j, 6 * j + 6) =~= before.subrange(6 * j, 6 * j + 6));
            }
        }
    }
    proof {
        assert forall|j: int| 0 <= j < indices@.len() implies #[trigger] indices@[j] < 4
            * segments@.len() by {}
    }
    Some(LineMeshLayout { segments, indices })
}

} // verus!
