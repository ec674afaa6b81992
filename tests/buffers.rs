use geocolumns::{
    linestrings, multilinestrings, multipoints, multipolygons, points, polygons, ArrayMetadata,
    Coord, CoordBuffer, Dimension, GeoError, Geometry, GeometryArray, GeometryKind, OffsetBuffer,
};

fn xy(values: &[f64]) -> CoordBuffer<f64> {
    CoordBuffer::from_interleaved(&values.to_vec(), Dimension::XY).unwrap()
}

fn offs(v: &[usize], child: usize) -> OffsetBuffer {
    OffsetBuffer::try_new(v.to_vec(), child).unwrap()
}

#[test]
fn offsets_accept_monotone_run_ending_at_child_len() {
    let b = offs(&[0, 2, 2, 5], 5);
    assert_eq!(b.run_count(), 3);
    assert_eq!(b.child_len(), 5);
    assert_eq!(b.run_bounds(1), (2, 2));
    assert_eq!(b.run_bounds(2), (2, 5));
    let v = b.to_vec();
    for i in 0..v.len() - 1 {
        assert!(v[i] <= v[i + 1]);
    }
}

#[test]
fn offsets_reject_decreasing() {
    assert_eq!(OffsetBuffer::try_new(vec![0, 3, 2, 5], 5).err(), Some(GeoError::InvalidOffsets));
}

#[test]
fn offsets_reject_wrong_end() {
    assert_eq!(OffsetBuffer::try_new(vec![0, 2, 4], 5).err(), Some(GeoError::InvalidOffsets));
}

#[test]
fn offsets_reject_empty_and_nonzero_start() {
    assert_eq!(OffsetBuffer::try_new(vec![], 0).err(), Some(GeoError::InvalidOffsets));
    assert_eq!(OffsetBuffer::try_new(vec![1, 2], 2).err(), Some(GeoError::InvalidOffsets));
}

#[test]
fn interleaved_coordinates_are_read_back() {
    let c = xy(&[1.0, 2.0, 3.0, 4.0]);
    assert_eq!(c.len(), 2);
    assert_eq!(c.get_xy(1), Ok((3.0, 4.0)));
    assert_eq!(c.get_xyz(0), Err(GeoError::DimensionMismatch));
    let c3 = CoordBuffer::from_interleaved(&vec![1.0, 2.0, 3.0, 4.0, 5.0, 6.0], Dimension::XYZ).unwrap();
    assert_eq!(c3.len(), 2);
    assert_eq!(c3.get_xyz(1), Ok((4.0, 5.0, 6.0)));
    assert_eq!(c3.get_xy(1), Err(GeoError::DimensionMismatch));
}

#[test]
fn interleaved_length_must_fit_dimension() {
    let r = CoordBuffer::from_interleaved(&vec![1.0, 2.0, 3.0], Dimension::XY);
    assert_eq!(r.err(), Some(GeoError::DimensionMismatch));
}

#[test]
fn mixed_dimension_coordinates_are_refused() {
    let cs = vec![
        Coord { x: 0.0, y: 0.0, z: None },
        Coord { x: 1.0, y: 1.0, z: Some(2.0) },
    ];
    assert_eq!(CoordBuffer::new(cs, Dimension::XY).err(), Some(GeoError::DimensionMismatch));
}

#[test]
fn points_read_back_one_coordinate_each() {
    let a = points(xy(&[1.0, 2.0, 3.0, 4.0, 5.0, 6.0]), Some("EPSG:4326".to_string())).unwrap();
    assert_eq!(a.kind(), GeometryKind::Point);
    assert_eq!(a.len(), 3);
    let g = a.geometry_coords(2).unwrap();
    assert_eq!(g.len(), 1);
    assert_eq!((g[0].x, g[0].y), (5.0, 6.0));
    assert_eq!(a.metadata().crs, Some("EPSG:4326".to_string()));
}

#[test]
fn linestrings_round_trip() {
    let values = [0.0, 0.0, 1.0, 0.0, 1.0, 1.0, 5.0, 5.0, 6.0, 6.0];
    let a = linestrings(xy(&values), offs(&[0, 3, 5], 5), None).unwrap();
    assert_eq!(a.len(), 2);
    let g0 = a.geometry_coords(0).unwrap();
    let g1 = a.geometry_coords(1).unwrap();
    let got: Vec<f64> = g0.iter().chain(g1.iter()).flat_map(|c| vec![c.x, c.y]).collect();
    assert_eq!(got, values.to_vec());
    assert_eq!(g0.len(), 3);
    assert_eq!(a.geometry_bounds(1), (3, 5));
}

#[test]
fn linestrings_offsets_must_address_all_coordinates() {
    let r = linestrings(xy(&[0.0, 0.0, 1.0, 0.0, 1.0, 1.0]), offs(&[0, 2], 2), None);
    assert_eq!(r.err(), Some(GeoError::InvalidOffsets));
}

#[test]
fn multipoint_offsets_must_end_at_the_coordinate_count() {
    let r = multipoints(xy(&[0.0, 0.0, 1.0, 1.0, 5.0, 5.0]), offs(&[0, 2], 2), None);
    assert_eq!(r.err(), Some(GeoError::InvalidOffsets));
    let ok = multipoints(xy(&[0.0, 0.0, 1.0, 1.0, 5.0, 5.0]), offs(&[0, 0, 3], 3), None).unwrap();
    assert_eq!(ok.len(), 2);
    assert!(!ok.is_null(0));
    assert_eq!(ok.geometry_coords(0).unwrap().len(), 0);
    assert_eq!(ok.geometry_coords(1).unwrap().len(), 3);
}

#[test]
fn polygon_levels_must_nest() {
    let square = [0.0, 0.0, 2.0, 0.0, 2.0, 2.0, 0.0, 2.0, 0.0, 0.0];
    // one polygon of two rings, but only one ring is described
    let r = polygons(xy(&square), offs(&[0, 2], 2), offs(&[0, 5], 5), None);
    assert_eq!(r.err(), Some(GeoError::StructuralMismatch));
    let ok = polygons(xy(&square), offs(&[0, 1], 1), offs(&[0, 5], 5), None).unwrap();
    assert_eq!(ok.len(), 1);
    assert_eq!(ok.geometry_coords(0).unwrap().len(), 5);
}

#[test]
fn multipolygons_round_trip_through_three_levels() {
    // two multipolygons: the first has two polygons of one ring, the second one polygon
    let mut values = Vec::new();
    for k in 0..3 {
        let o = 10.0 * k as f64;
        values.extend_from_slice(&[o, o, o + 1.0, o, o + 1.0, o + 1.0, o, o]);
    }
    let a = multipolygons(
        xy(&values),
        offs(&[0, 2, 3], 3),
        offs(&[0, 1, 2, 3], 3),
        offs(&[0, 4, 8, 12], 12),
        None,
    )
    .unwrap();
    assert_eq!(a.kind(), GeometryKind::MultiPolygon);
    assert_eq!(a.len(), 2);
    let g0 = a.geometry_coords(0).unwrap();
    let g1 = a.geometry_coords(1).unwrap();
    assert_eq!(g0.len(), 8);
    assert_eq!(g1.len(), 4);
    assert_eq!((g1[0].x, g1[0].y), (20.0, 20.0));
    assert_eq!((g0[4].x, g0[4].y), (10.0, 10.0));
}

#[test]
fn validity_length_must_match_geometry_count() {
    let c = xy(&[0.0, 0.0, 1.0, 1.0]);
    let levels = vec![offs(&[0, 2], 2)];
    let r = GeometryArray::try_new(
        GeometryKind::LineString,
        c,
        levels,
        Some(vec![true, false]),
        ArrayMetadata { crs: None },
    );
    assert_eq!(r.err(), Some(GeoError::StructuralMismatch));
}

#[test]
fn null_geometry_reads_as_none() {
    let c = xy(&[0.0, 0.0, 1.0, 1.0, 2.0, 2.0, 3.0, 3.0]);
    let a = GeometryArray::try_new(
        GeometryKind::LineString,
        c,
        vec![offs(&[0, 2, 4], 4)],
        Some(vec![false, true]),
        ArrayMetadata { crs: None },
    )
    .unwrap();
    assert!(a.is_null(0));
    assert!(a.geometry_coords(0).is_none());
    let g = a.geometry_coords(1).unwrap();
    assert_eq!((g[0].x, g[1].x), (2.0, 3.0));
}

#[test]
fn wrong_depth_is_a_structural_mismatch() {
    let r = GeometryArray::try_new(
        GeometryKind::Polygon,
        xy(&[0.0, 0.0, 1.0, 1.0]),
        vec![offs(&[0, 2], 2)],
        None,
        ArrayMetadata { crs: None },
    );
    assert_eq!(r.err(), Some(GeoError::StructuralMismatch));
}

#[test]
fn slice_shares_buffers_and_reads_through() {
    let values = [0.0, 0.0, 1.0, 1.0, 2.0, 2.0, 3.0, 3.0, 4.0, 4.0, 5.0, 5.0];
    let a = GeometryArray::try_new(
        GeometryKind::LineString,
        xy(&values),
        vec![offs(&[0, 2, 4, 6], 6)],
        Some(vec![true, false, true]),
        ArrayMetadata { crs: None },
    )
    .unwrap();
    let s = a.slice(1, 2);
    assert_eq!(s.len(), 2);
    assert_eq!(s.offset(), 1);
    assert_eq!(s.buffer_len(), 3);
    assert!(s.is_null(0));
    let g = s.geometry_coords(1).unwrap();
    assert_eq!((g[0].x, g[1].x), (4.0, 5.0));
    assert_eq!(s.geometry_bounds(1), (4, 6));
    let inner = s.slice(1, 1);
    assert_eq!(inner.offset(), 2);
    assert_eq!(inner.geometry_coords(0).unwrap().len(), 2);
}

#[test]
fn polygon_reads_back_exterior_and_hole() {
    let values = [
        0.0, 0.0, 4.0, 0.0, 4.0, 4.0, 0.0, 4.0, 0.0, 0.0, 1.0, 1.0, 2.0, 1.0, 2.0, 2.0, 1.0, 2.0,
        1.0, 1.0,
    ];
    let a = polygons(xy(&values), offs(&[0, 2], 2), offs(&[0, 5, 10], 10), None).unwrap();
    assert_eq!(a.len(), 1);
    match a.geometry(0) {
        Some(Geometry::Polygon(rings)) => {
            assert_eq!(rings.len(), 2);
            assert_eq!(rings[0].len(), 5);
            assert_eq!((rings[0][2].x, rings[0][2].y), (4.0, 4.0));
            assert_eq!((rings[1][1].x, rings[1][1].y), (2.0, 1.0));
        }
        _ => panic!("expected a polygon"),
    }
}

#[test]
fn multipolygon_reads_back_its_polygons() {
    let mut values = Vec::new();
    for k in 0..3 {
        let o = 10.0 * k as f64;
        values.extend_from_slice(&[o, o, o + 1.0, o, o + 1.0, o + 1.0, o, o]);
    }
    let a = multipolygons(
        xy(&values),
        offs(&[0, 2, 3], 3),
        offs(&[0, 1, 2, 3], 3),
        offs(&[0, 4, 8, 12], 12),
        None,
    )
    .unwrap();
    match a.geometry(0) {
        Some(Geometry::MultiPolygon(ps)) => {
            assert_eq!(ps.len(), 2);
            assert_eq!(ps[0].len(), 1);
            assert_eq!(ps[1][0].len(), 4);
            assert_eq!((ps[1][0][0].x, ps[1][0][0].y), (10.0, 10.0));
        }
        _ => panic!("expected a multipolygon"),
    }
    match a.geometry(1) {
        Some(Geometry::MultiPolygon(ps)) => {
            assert_eq!(ps.len(), 1);
            assert_eq!((ps[0][0][2].x, ps[0][0][2].y), (21.0, 21.0));
        }
        _ => panic!("expected a multipolygon"),
    }
}

#[test]
fn points_and_lines_read_back_typed() {
    let p = points(xy(&[1.0, 2.0, 3.0, 4.0]), None).unwrap();
    match p.geometry(1) {
        Some(Geometry::Point(c)) => assert_eq!((c.x, c.y), (3.0, 4.0)),
        _ => panic!("expected a point"),
    }
    let m = multilinestrings(
        xy(&[0.0, 0.0, 1.0, 1.0, 2.0, 2.0, 3.0, 3.0, 4.0, 4.0]),
        offs(&[0, 2], 2),
        offs(&[0, 2, 5], 5),
        None,
    )
    .unwrap();
    match m.geometry(0) {
        Some(Geometry::MultiLineString(lines)) => {
            assert_eq!(lines.len(), 2);
            assert_eq!(lines[1].len(), 3);
            assert_eq!(lines[1][2].x, 4.0);
        }
        _ => panic!("expected a multi-line string"),
    }
    let l = linestrings(xy(&[0.0, 0.0, 1.0, 1.0]), offs(&[0, 2], 2), None).unwrap();
    match l.geometry(0) {
        Some(Geometry::LineString(cs)) => assert_eq!(cs.len(), 2),
        _ => panic!("expected a line string"),
    }
}
