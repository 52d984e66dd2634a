use all_is_cubes::chunking::{cube_to_chunk, ChunkChart, ChunkPos, ViewDistance};
use all_is_cubes::grid::Grid;
use all_is_cubes::math::{GridPoint, GridVector};

/// Canonicalize a floating-point view distance in cubes the way a consumer
/// would: clamp meaningless values to zero, convert to chunk units, and take
/// the rounded-up squared value.
fn vd(view_distance: f64) -> ViewDistance {
    let d = if view_distance.is_nan() || view_distance < 0.0 {
        0.0
    } else {
        view_distance
    };
    let chunks = d / 16.0;
    ViewDistance::from_squared_chunks((chunks * chunks).ceil() as u32)
}

#[test]
fn chunk_consistency() {
    for x in -1..31 {
        for y in -1..31 {
            for z in -1..31 {
                let cube = GridPoint::new(x, y, z);
                assert!(cube_to_chunk(cube).grid().contains_cube(cube));
            }
        }
    }
}

/// Zero distance means only the origin chunk.
/// This also tests that the origin position is added in.
#[test]
fn chunk_chart_zero_size() {
    let chart = ChunkChart::new(vd(0.0));
    let chunk = ChunkPos::new(1, 2, 3);
    assert_eq!(chart.chunks(chunk), vec![chunk]);
}

/// If we look a tiny bit outside the origin chunk, there are 9^3 - 1
/// neighbors.
#[test]
fn chunk_chart_epsilon_size() {
    let chart = ChunkChart::new(vd(0.00001));
    assert_eq!(
        chart.chunks(ChunkPos::new(0, 0, 0)),
        vec![
            ChunkPos::new(0, 0, 0),
            // Face meetings.
            ChunkPos::new(0, 0, -1),
            ChunkPos::new(0, 0, 1),
            ChunkPos::new(0, -1, 0),
            ChunkPos::new(0, 1, 0),
            ChunkPos::new(-1, 0, 0),
            ChunkPos::new(1, 0, 0),
            // Edge meetings.
            ChunkPos::new(0, -1, -1),
            ChunkPos::new(0, -1, 1),
            ChunkPos::new(0, 1, -1),
            ChunkPos::new(0, 1, 1),
            ChunkPos::new(-1, 0, -1),
            ChunkPos::new(-1, 0, 1),
            ChunkPos::new(1, 0, -1),
            ChunkPos::new(1, 0, 1),
            ChunkPos::new(-1, -1, 0),
            ChunkPos::new(-1, 1, 0),
            ChunkPos::new(1, -1, 0),
            ChunkPos::new(1, 1, 0),
            // Corner meetings.
            ChunkPos::new(-1, -1, -1),
            ChunkPos::new(-1, -1, 1),
            ChunkPos::new(-1, 1, -1),
            ChunkPos::new(-1, 1, 1),
            ChunkPos::new(1, -1, -1),
            ChunkPos::new(1, -1, 1),
            ChunkPos::new(1, 1, -1),
            ChunkPos::new(1, 1, 1),
        ]
    )
}

#[test]
fn chunk_chart_radius_break_points() {
    fn assert_count(distance_in_chunks: f64, count: usize) {
        let chart = ChunkChart::new(vd(distance_in_chunks * 16.0));
        let chunks = chart.chunks(ChunkPos::new(0, 0, 0));
        assert_eq!(chunks.len(), count, "distance = {}", distance_in_chunks);
    }
    assert_count(0.00, 1);
    // All neighbor chunks
    assert_count(0.01, 3 * 3 * 3);
    assert_count(0.99, 3 * 3 * 3);
    assert_count(1.00, 3 * 3 * 3);
    // Add more distant neighbors
    assert_count(1.01, 3 * 3 * 3 + 3 * 3 * 6 + 3 * 12);
}

/// The chart's reverse listing should be consistent with the forward one.
#[test]
fn chunk_chart_reverse_iteration() {
    let chart = ChunkChart::new(vd(7.0 * 16.0));
    let p = ChunkPos::new(10, 3, 100);
    let forward = chart.chunks(p);
    let mut reverse = chart.chunks_rev(p);
    reverse.reverse();
    assert_eq!(forward, reverse);
}

#[test]
fn chunk_chart_sorting() {
    // Caution: O(n^6) in the chart radius...
    let chart = ChunkChart::new(vd(4.0 * 16.0));

    let mut seen: Vec<GridPoint> = Vec::new();
    for ChunkPos(p) in chart.chunks(ChunkPos::new(0, 0, 0)) {
        for &q in &seen {
            assert!(
                // Either it's the same point mirrored,
                (p.x.abs(), p.y.abs(), p.z.abs()) == (q.x.abs(), q.y.abs(), q.z.abs())
                    // or it has at least one greater coordinate.
                    || p.x.abs() > q.x.abs()
                    || p.y.abs() > q.y.abs()
                    || p.z.abs() > q.z.abs(),
                "{:?} should be before {:?}",
                p,
                q
            );
        }
        seen.push(p);
    }
}

#[test]
fn chunk_chart_resize() {
    let chart1 = ChunkChart::new(vd(200.0));
    let mut chart2 = ChunkChart::new(vd(300.0));
    chart2.resize_if_needed(vd(200.0));
    assert_eq!(
        chart1.chunks(ChunkPos::new(0, 0, 0)),
        chart2.chunks(ChunkPos::new(0, 0, 0))
    );
}

#[test]
fn chunk_chart_monotonic_distance() {
    let chart = ChunkChart::new(vd(3.0 * 16.0));
    let origin = ChunkPos::new(5, -2, 7);
    let chunks = chart.chunks(origin);
    let mut last = -1i64;
    for ChunkPos(p) in chunks {
        let dx = (p.x - origin.0.x) as i64;
        let dy = (p.y - origin.0.y) as i64;
        let dz = (p.z - origin.0.z) as i64;
        let d = dx * dx + dy * dy + dz * dz;
        assert!(d >= last);
        last = d;
    }
}

#[test]
fn view_distance_canonicalization() {
    assert_eq!(vd(f64::NAN).squared_chunks, 0);
    assert_eq!(vd(-5.0).squared_chunks, 0);
    assert_eq!(vd(0.0).squared_chunks, 0);
    assert_eq!(vd(16.0).squared_chunks, 1);
    assert_eq!(vd(200.0).squared_chunks, 157);
    assert_eq!(
        ViewDistance::from_squared_chunks(u32::MAX).squared_chunks,
        400000000
    );
}

#[test]
fn cube_to_chunk_floor_semantics() {
    assert_eq!(cube_to_chunk(GridPoint::new(0, 15, 16)).0, GridPoint::new(0, 0, 1));
    assert_eq!(
        cube_to_chunk(GridPoint::new(-1, -16, -17)).0,
        GridPoint::new(-1, -1, -2)
    );
}

#[test]
fn chunk_grid_extent() {
    let g: Grid = ChunkPos::new(-1, 0, 2).grid();
    assert_eq!(g.lower_bounds(), GridPoint::new(-16, 0, 32));
    assert_eq!(g.sizes(), GridVector::new(16, 16, 16));
}
