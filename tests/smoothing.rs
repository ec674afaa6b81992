use geocolumns::{
    chaikin_array, chaikin_smoothing, linestrings, multipoints, points, polygons, ArrayMetadata,
    ChunkedGeometryArray, Coord, CoordBuffer, Dimension, GeoError, GeometryArray, GeometryInput,
    GeometryKind, OffsetBuffer,
};

fn quarter(a: f64, b: f64) -> f64 {
    0.75 * a + 0.25 * b
}

fn same(a: f64, b: f64) -> bool {
    a == b
}

fn xy(values: &[f64]) -> CoordBuffer<f64> {
    CoordBuffer::from_interleaved(&values.to_vec(), Dimension::XY).unwrap()
}

fn offs(v: &[usize], child: usize) -> OffsetBuffer {
    OffsetBuffer::try_new(v.to_vec(), child).unwrap()
}

fn line(values: &[f64]) -> GeometryArray<f64> {
    let n = values.len() / 2;
    linestrings(xy(values), offs(&[0, n], n), None).unwrap()
}

fn pairs(cs: &[Coord<f64>]) -> Vec<(f64, f64)> {
    cs.iter().map(|c| (c.x, c.y)).collect()
}

#[test]
fn open_line_keeps_its_endpoints() {
    let a = line(&[0.0, 0.0, 1.0, 0.0, 1.0, 1.0]);
    let s = chaikin_array(&a, 1, &quarter, &same).unwrap();
    let g = s.geometry_coords(0).unwrap();
    assert!(g.len() > 3);
    assert_eq!(
        pairs(&g),
        vec![(0.0, 0.0), (0.25, 0.0), (0.75, 0.0), (1.0, 0.25), (1.0, 0.75), (1.0, 1.0)]
    );
}

#[test]
fn closed_ring_stays_closed_with_eight_cut_points() {
    let square = [0.0, 0.0, 2.0, 0.0, 2.0, 2.0, 0.0, 2.0, 0.0, 0.0];
    let a = polygons(xy(&square), offs(&[0, 1], 1), offs(&[0, 5], 5), None).unwrap();
    let s = chaikin_array(&a, 1, &quarter, &same).unwrap();
    let g = s.geometry_coords(0).unwrap();
    assert_eq!(g.len(), 9);
    assert_eq!((g[0].x, g[0].y), (g[8].x, g[8].y));
    assert_eq!(
        pairs(&g[..8]),
        vec![
            (0.5, 0.0),
            (1.5, 0.0),
            (2.0, 0.5),
            (2.0, 1.5),
            (1.5, 2.0),
            (0.5, 2.0),
            (0.0, 1.5),
            (0.0, 0.5)
        ]
    );
    assert_eq!(s.level(0).to_vec(), vec![0, 1]);
    assert_eq!(s.level(1).to_vec(), vec![0, 9]);
}

#[test]
fn zero_rounds_return_the_input() {
    let values = [0.0, 0.0, 1.0, 0.0, 1.0, 1.0, 3.0, 1.0];
    let a = line(&values);
    let s = chaikin_array(&a, 0, &quarter, &same).unwrap();
    let g = s.geometry_coords(0).unwrap();
    let flat: Vec<f64> = g.iter().flat_map(|c| vec![c.x, c.y]).collect();
    assert_eq!(flat, values.to_vec());
}

#[test]
fn two_vertex_line_is_never_changed() {
    let a = line(&[0.0, 0.0, 4.0, 2.0]);
    for n in [0u32, 1, 2, 5] {
        let s = chaikin_array(&a, n, &quarter, &same).unwrap();
        assert_eq!(pairs(&s.geometry_coords(0).unwrap()), vec![(0.0, 0.0), (4.0, 2.0)]);
    }
}

#[test]
fn closed_ring_of_three_vertices_is_unchanged() {
    let a = line(&[0.0, 0.0, 1.0, 1.0, 0.0, 0.0]);
    let s = chaikin_array(&a, 3, &quarter, &same).unwrap();
    assert_eq!(pairs(&s.geometry_coords(0).unwrap()), vec![(0.0, 0.0), (1.0, 1.0), (0.0, 0.0)]);
}

#[test]
fn two_rounds_on_an_open_line() {
    let a = line(&[0.0, 0.0, 4.0, 0.0, 4.0, 4.0]);
    let s = chaikin_array(&a, 2, &quarter, &same).unwrap();
    let g = s.geometry_coords(0).unwrap();
    // 3 vertices become 6, then 12
    assert_eq!(g.len(), 12);
    assert_eq!((g[0].x, g[0].y), (0.0, 0.0));
    // the first round gives (0,0) (1,0) (3,0) (4,1) (4,3) (4,4)
    assert_eq!((g[1].x, g[1].y), (0.25, 0.0));
    assert_eq!((g[2].x, g[2].y), (0.75, 0.0));
    assert_eq!((g[3].x, g[3].y), (1.5, 0.0));
    assert_eq!((g[11].x, g[11].y), (4.0, 4.0));
}

#[test]
fn null_geometry_keeps_its_place() {
    let values = [0.0, 0.0, 1.0, 0.0, 1.0, 1.0, 5.0, 5.0, 6.0, 5.0, 6.0, 6.0];
    let a = GeometryArray::try_new(
        GeometryKind::LineString,
        xy(&values),
        vec![offs(&[0, 3, 6], 6)],
        Some(vec![false, true]),
        ArrayMetadata { crs: Some("EPSG:3857".to_string()) },
    )
    .unwrap();
    let s = chaikin_array(&a, 1, &quarter, &same).unwrap();
    assert_eq!(s.len(), 2);
    assert!(s.is_null(0));
    assert!(s.geometry_coords(0).is_none());
    let g = s.geometry_coords(1).unwrap();
    assert_eq!(
        pairs(&g),
        vec![(5.0, 5.0), (5.25, 5.0), (5.75, 5.0), (6.0, 5.25), (6.0, 5.75), (6.0, 6.0)]
    );
    assert_eq!(s.metadata().crs, Some("EPSG:3857".to_string()));
    // the null line is built empty, the next one keeps its index
    assert_eq!(s.level(0).to_vec(), vec![0, 0, 6]);
    assert_eq!(s.coords().len(), 6);
}

#[test]
fn null_polygon_rings_are_built_empty() {
    let ring = |o: f64| vec![o, o, o + 2.0, o, o + 2.0, o + 2.0, o, o + 2.0, o, o];
    let mut values = ring(0.0);
    values.extend(ring(10.0));
    let a = GeometryArray::try_new(
        GeometryKind::Polygon,
        xy(&values),
        vec![offs(&[0, 1, 2], 2), offs(&[0, 5, 10], 10)],
        Some(vec![true, false]),
        ArrayMetadata { crs: None },
    )
    .unwrap();
    let s = chaikin_array(&a, 1, &quarter, &same).unwrap();
    assert_eq!(s.level(0).to_vec(), vec![0, 1, 2]);
    assert_eq!(s.level(1).to_vec(), vec![0, 9, 9]);
    assert!(s.is_null(1));
    assert_eq!(s.geometry_coords(0).unwrap().len(), 9);
}

#[test]
fn three_dimensional_lines_are_cut_in_every_component() {
    let c = CoordBuffer::from_interleaved(
        &vec![0.0, 0.0, 0.0, 4.0, 0.0, 8.0, 4.0, 4.0, 8.0],
        Dimension::XYZ,
    )
    .unwrap();
    let a = linestrings(c, offs(&[0, 3], 3), None).unwrap();
    let s = chaikin_array(&a, 1, &quarter, &same).unwrap();
    assert_eq!(s.dim(), Dimension::XYZ);
    let g = s.geometry_coords(0).unwrap();
    assert_eq!(g[1].z, Some(2.0));
    assert_eq!(g[2].z, Some(6.0));
}

#[test]
fn points_cannot_be_smoothed() {
    let a = points(xy(&[0.0, 0.0, 1.0, 1.0]), None).unwrap();
    assert_eq!(chaikin_array(&a, 1, &quarter, &same).err(), Some(GeoError::UnsupportedVariant));
    let m = multipoints(xy(&[0.0, 0.0, 1.0, 1.0]), offs(&[0, 2], 2), None).unwrap();
    let r = chaikin_smoothing(GeometryInput::Array(m), 1, quarter, same);
    assert!(matches!(r, Err(GeoError::UnsupportedVariant)));
}

#[test]
fn chunked_smoothing_keeps_chunk_boundaries() {
    let c1 = linestrings(
        xy(&[0.0, 0.0, 1.0, 0.0, 1.0, 1.0, 2.0, 2.0, 3.0, 3.0]),
        offs(&[0, 3, 5], 5),
        None,
    )
    .unwrap();
    let c2 = line(&[0.0, 0.0, 1.0, 0.0, 1.0, 1.0]);
    let chunked = ChunkedGeometryArray::new(vec![c1, c2]).unwrap();
    assert_eq!(chunked.len(), 3);
    let r = chaikin_smoothing(GeometryInput::Chunked(chunked), 1, quarter, same);
    match r {
        Ok(GeometryInput::Chunked(out)) => {
            assert_eq!(out.num_chunks(), 2);
            assert_eq!(out.chunk(0).len(), 2);
            assert_eq!(out.chunk(1).len(), 1);
            assert_eq!(out.len(), 3);
            assert_eq!(out.chunk(0).geometry_coords(0).unwrap().len(), 6);
            assert_eq!(out.chunk(0).geometry_coords(1).unwrap().len(), 2);
        }
        _ => panic!("chunked smoothing failed"),
    }
}

#[test]
fn chunks_must_share_variant_and_dimension() {
    let l = line(&[0.0, 0.0, 1.0, 1.0]);
    let p = points(xy(&[0.0, 0.0]), None).unwrap();
    assert_eq!(
        ChunkedGeometryArray::new(vec![l, p]).err().map(|e| e),
        Some(GeoError::ChunkVariantMismatch)
    );
    let l2 = line(&[0.0, 0.0, 1.0, 1.0]);
    let c3 = CoordBuffer::from_interleaved(&vec![0.0, 0.0, 0.0, 1.0, 1.0, 1.0], Dimension::XYZ)
        .unwrap();
    let l3 = linestrings(c3, offs(&[0, 2], 2), None).unwrap();
    assert_eq!(
        ChunkedGeometryArray::new(vec![l2, l3]).err(),
        Some(GeoError::ChunkDimensionMismatch)
    );
}

#[test]
fn map_chunks_runs_each_chunk_in_order() {
    let a = line(&[0.0, 0.0, 1.0, 0.0, 1.0, 1.0]);
    let b = line(&[0.0, 0.0, 1.0, 1.0]);
    let chunked = ChunkedGeometryArray::new(vec![a, b]).unwrap();
    let out = chunked.map_chunks(|c: &GeometryArray<f64>| chaikin_array(c, 1, &quarter, &same)).unwrap();
    assert_eq!(out.num_chunks(), 2);
    assert_eq!(out.chunk(0).coords().len(), 6);
    assert_eq!(out.chunk(1).coords().len(), 2);
    let failing = chunked.map_chunks(|_c: &GeometryArray<f64>| {
        Err::<GeometryArray<f64>, GeoError>(GeoError::UnsupportedVariant)
    });
    assert!(matches!(failing, Err(GeoError::UnsupportedVariant)));
}

#[test]
fn empty_chunked_array_smooths_to_empty() {
    let chunked: ChunkedGeometryArray<f64> = ChunkedGeometryArray::new(vec![]).unwrap();
    assert_eq!(chunked.len(), 0);
    assert!(chunked.kind().is_none());
    match chaikin_smoothing(GeometryInput::Chunked(chunked), 2, quarter, same) {
        Ok(GeometryInput::Chunked(out)) => assert_eq!(out.num_chunks(), 0),
        _ => panic!("empty input must smooth"),
    }
}

#[test]
fn smoothing_a_slice_keeps_its_window() {
    let values = [0.0, 0.0, 1.0, 0.0, 1.0, 1.0, 5.0, 5.0, 6.0, 5.0, 6.0, 6.0];
    let a = linestrings(xy(&values), offs(&[0, 3, 6], 6), None).unwrap();
    let s = a.slice(1, 1);
    let out = chaikin_array(&s, 1, &quarter, &same).unwrap();
    assert_eq!(out.len(), 1);
    assert_eq!(out.offset(), 1);
    let g = out.geometry_coords(0).unwrap();
    assert_eq!(
        pairs(&g),
        vec![(5.0, 5.0), (5.25, 5.0), (5.75, 5.0), (6.0, 5.25), (6.0, 5.75), (6.0, 6.0)]
    );
}
