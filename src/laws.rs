use vstd::prelude::*;
use crate::array::{descend, down, geometry_span, GeometryArray};
use crate::chaikin::{
    array_line, inner_offsets, is_closed, line_count, line_null, smooth_n, smooth_once,
    smoothed_array,
};
use crate::chunked::{keeps_len, ChunkedGeometryArray};
use crate::coords::Coord;
use crate::error::GeoError;
use crate::offsets::{lemma_monotone_sorted, valid_offsets};

verus! {

/// A valid offset sequence is sorted and ends at the length of the buffer it
/// addresses, so every run lies inside that buffer.
pub proof fn valid_offsets_are_sorted(s: Seq<usize>, child_len: nat, i: int, j: int)
    requires
        valid_offsets(s, child_len),
        0 <= i <= j < s.len(),
    ensures
        s[i] <= s[j],
        s[j] <= child_len,
        s[s.len() - 1] == child_len,
{
    lemma_monotone_sorted(s, i, j);
    lemma_monotone_sorted(s, j, s.len() - 1);
}

/// Reading geometry `i` of an array gives back exactly the coordinates that
/// its offset buffers address in the coordinate buffer it was built from
/// (`g` is its index in the buffers).
pub proof fn geometry_read_round_trip<T: Copy>(a: GeometryArray<T>, i: int)
    requires
        a.wf(),
        0 <= i < a.spec_len(),
    ensures
        ({
            let c = a.spec_coords();
            let l = a.spec_levels();
            let g = a.spec_offset() + i;
            &&& l.len() == 0 ==> a.spec_geometry_coords(i) == seq![c[g]]
            &&& l.len() == 1 ==> a.spec_geometry_coords(i) == c.subrange(
                l[0][g] as int,
                l[0][g + 1] as int,
            )
            &&& l.len() == 2 ==> a.spec_geometry_coords(i) == c.subrange(
                l[1][l[0][g] as int] as int,
                l[1][l[0][g + 1] as int] as int,
            )
            &&& l.len() == 3 ==> a.spec_geometry_coords(i) == c.subrange(
                l[2][l[1][l[0][g] as int] as int] as int,
                l[2][l[1][l[0][g + 1] as int] as int] as int,
            )
        }),
{
    reveal_with_fuel(descend, 4);
    let c = a.spec_coords();
    let l = a.spec_levels();
    let g = a.spec_offset() + i;
    assert(l.len() <= 3) by {
        assert(l.len() == a.spec_kind().spec_depth());
    }
    if l.len() == 0 {
        assert(geometry_span(l, g) == (g, g + 1));
        assert(c.subrange(g, g + 1) =~= seq![c[g]]);
    }
}

/// A slice reads as the geometries of the array it was cut from, from `start` on.
pub proof fn slice_reads_through<T: Copy>(a: GeometryArray<T>, s: GeometryArray<T>, start: int, i: int)
    requires
        a.wf(),
        s.spec_coords() == a.spec_coords(),
        s.spec_levels() == a.spec_levels(),
        s.spec_validity() == a.spec_validity(),
        s.spec_offset() == a.spec_offset() + start,
        0 <= start,
        0 <= i < s.spec_len(),
        start + s.spec_len() <= a.spec_len(),
    ensures
        s.spec_geometry_coords(i) == a.spec_geometry_coords(start + i),
        s.spec_is_null(i) == a.spec_is_null(start + i),
{
}

/// Mapping a transform over a chunked array gives as many chunks as there
/// were, in order; where the transform keeps the number of geometries, every
/// chunk keeps its number of geometries.
pub proof fn map_chunks_keeps_chunks<
    T: Copy,
    F: Fn(&GeometryArray<T>) -> Result<GeometryArray<T>, GeoError>,
>(c: ChunkedGeometryArray<T>, f: F, r: Result<ChunkedGeometryArray<T>, GeoError>)
    requires
        c.wf(),
        c.spec_mapped(f, r),
        r is Ok,
    ensures
        (r->Ok_0).spec_chunks().len() == c.spec_chunks().len(),
        keeps_len(f) ==> forall|i: int|
            0 <= i < c.spec_chunks().len() ==> (#[trigger] (r->Ok_0).spec_chunks()[i]).spec_len()
                == c.spec_chunks()[i].spec_len(),
{
    let out = r->Ok_0;
    if keeps_len(f) {
        assert forall|i: int| 0 <= i < c.spec_chunks().len() implies (#[trigger] out.spec_chunks()[i]).spec_len()
            == c.spec_chunks()[i].spec_len() by {
            assert(call_ensures(f, (&c.spec_chunks()[i],), Ok(out.spec_chunks()[i])));
        }
    }
}

/// Two arrays whose runs have equal contents and equal offsets at the start
/// have equal offsets throughout.
proof fn lemma_equal_runs<T>(a: Seq<Coord<T>>, oa: Seq<usize>, b: Seq<Coord<T>>, ob: Seq<usize>, j: int)
    requires
        oa.len() == ob.len(),
        0 <= j < oa.len(),
        oa[0] == 0,
        ob[0] == 0,
        forall|k: int| #![trigger oa[k], oa[k + 1]] 0 <= k < oa.len() - 1 ==> oa[k] <= oa[k + 1],
        forall|k: int| #![trigger ob[k], ob[k + 1]] 0 <= k < ob.len() - 1 ==> ob[k] <= ob[k + 1],
        oa[oa.len() - 1] == a.len(),
        ob[ob.len() - 1] == b.len(),
        forall|k: int|
            0 <= k < oa.len() - 1 ==> #[trigger] b.subrange(ob[k] as int, ob[k + 1] as int)
                == a.subrange(oa[k] as int, oa[k + 1] as int),
    ensures
        ob[j] == oa[j],
        forall|t: int| 0 <= t < oa[j] ==> #[trigger] b[t] == a[t],
    decreases j,
{
    if j > 0 {
        lemma_equal_runs(a, oa, b, ob, j - 1);
        let k = j - 1;
        assert(oa[k] <= oa[k + 1] && ob[k] <= ob[k + 1]);
        lemma_monotone_sorted(oa, k + 1, oa.len() - 1);
        lemma_monotone_sorted(ob, k + 1, ob.len() - 1);
        let sb = b.subrange(ob[k] as int, ob[k + 1] as int);
        let sa = a.subrange(oa[k] as int, oa[k + 1] as int);
        assert(sb == sa);
        assert(sb.len() == sa.len());
        assert forall|t: int| 0 <= t < oa[j] implies #[trigger] b[t] == a[t] by {
            if t >= oa[k] {
                assert(b[t] == sb[t - ob[k]]);
                assert(a[t] == sa[t - oa[k]]);
            }
        }
    }
}

/// Zero rounds of smoothing give back an input without nulls, coordinate for
/// coordinate and offset for offset.
pub proof fn zero_rounds_change_nothing<T: Copy, F: Fn(T, T) -> T, G: Fn(T, T) -> bool>(
    f: F,
    g: G,
    a: GeometryArray<T>,
    r: GeometryArray<T>,
)
    requires
        a.wf(),
        a.spec_kind().spec_is_linear(),
        forall|i: int| 0 <= i < a.spec_buffer_len() ==> !#[trigger] a.spec_null_at(i),
        smoothed_array(f, g, a, 0, r),
    ensures
        r.spec_coords() == a.spec_coords(),
        r.spec_levels() == a.spec_levels(),
        r.spec_validity() == a.spec_validity(),
        r.spec_metadata() == a.spec_metadata(),
        r.spec_kind() == a.spec_kind(),
{
    reveal(smooth_n);
    let d = a.spec_levels().len();
    assert(d >= 1) by {
        assert(d == a.spec_kind().spec_depth());
    }
    let oa = inner_offsets(a.spec_levels());
    let ob = inner_offsets(r.spec_levels());
    assert(d == r.spec_kind().spec_depth());
    assert(crate::array::levels_consistent(a.spec_levels(), a.spec_coords().len()));
    assert(crate::array::levels_consistent(r.spec_levels(), r.spec_coords().len()));
    assert(valid_offsets(a.spec_levels()[d - 1], a.spec_coords().len()));
    assert(valid_offsets(r.spec_levels()[d - 1], r.spec_coords().len()));
    assert forall|k: int| 0 <= k < oa.len() - 1 implies #[trigger] r.spec_coords().subrange(
        ob[k] as int,
        ob[k + 1] as int,
    ) == a.spec_coords().subrange(oa[k] as int, oa[k + 1] as int) by {
        assert(!line_null(a, k));
        assert(array_line(r, k) == smooth_n(f, g, array_line(a, k), 0));
    }
    lemma_equal_runs(a.spec_coords(), oa, r.spec_coords(), ob, oa.len() - 1);
    assert(r.spec_coords() =~= a.spec_coords());
    assert(ob =~= oa) by {
        assert forall|j: int| 0 <= j < oa.len() implies ob[j] == oa[j] by {
            lemma_equal_runs(a.spec_coords(), oa, r.spec_coords(), ob, j);
        }
    }
    assert(r.spec_levels() =~= a.spec_levels()) by {
        assert forall|k: int| 0 <= k < d implies r.spec_levels()[k] == a.spec_levels()[k] by {
            if k < d - 1 {
                assert(r.spec_levels().subrange(0, d - 1)[k] == a.spec_levels().subrange(0, d - 1)[k]);
            }
        }
    }
}

/// A line of two vertices has no corner to cut: any number of rounds leaves it as it is.
pub proof fn two_vertex_line_unchanged<T, F: Fn(T, T) -> T, G: Fn(T, T) -> bool>(
    f: F,
    g: G,
    s: Seq<Coord<T>>,
    n: nat,
)
    requires
        s.len() == 2,
    ensures
        smooth_n(f, g, s, n) == s,
    decreases n,
{
    reveal(smooth_n);
    reveal(smooth_once);
    if n > 0 {
        two_vertex_line_unchanged(f, g, s, (n - 1) as nat);
    }
}

/// One round on an open line of at least three vertices keeps its first and
/// last vertex and doubles its length.
pub proof fn open_line_keeps_endpoints<T, F: Fn(T, T) -> T, G: Fn(T, T) -> bool>(f: F, g: G, s: Seq<Coord<T>>)
    requires
        s.len() >= 3,
        !is_closed(g, s),
    ensures
        smooth_once(f, g, s).len() == 2 * s.len(),
        smooth_once(f, g, s)[0] == s[0],
        smooth_once(f, g, s)[2 * s.len() - 1] == s[s.len() - 1],
{
    reveal(smooth_once);
}

/// One round on a closed ring of at least four vertices gives a closed ring
/// of two cut points per segment plus the closing vertex.
pub proof fn closed_ring_stays_closed<T, F: Fn(T, T) -> T, G: Fn(T, T) -> bool>(f: F, g: G, s: Seq<Coord<T>>)
    requires
        s.len() >= 4,
        is_closed(g, s),
    ensures
        smooth_once(f, g, s).len() == 2 * (s.len() - 1) + 1,
        smooth_once(f, g, s)[0] == smooth_once(f, g, s)[2 * (s.len() - 1)],
{
    reveal(smooth_once);
}

/// Smoothing keeps every null where it was, and the number of geometries.
pub proof fn smoothing_keeps_nulls<T: Copy, F: Fn(T, T) -> T, G: Fn(T, T) -> bool>(
    f: F,
    g: G,
    a: GeometryArray<T>,
    n: nat,
    r: GeometryArray<T>,
    i: int,
)
    requires
        a.wf(),
        a.spec_kind().spec_is_linear(),
        smoothed_array(f, g, a, n, r),
        0 <= i < a.spec_len(),
    ensures
        r.spec_len() == a.spec_len(),
        r.spec_is_null(i) == a.spec_is_null(i),
{
    let d = a.spec_levels().len();
    assert(d >= 1) by {
        assert(d == a.spec_kind().spec_depth());
    }
    if d > 1 {
        assert(r.spec_levels()[0] == r.spec_levels().subrange(0, d - 1)[0]);
        assert(a.spec_levels()[0] == a.spec_levels().subrange(0, d - 1)[0]);
    }
    assert(line_count(r) == line_count(a));
}

/// Smoothing builds nothing for a null geometry: every line or ring of it
/// comes out empty, while the offsets above keep its place.
pub proof fn null_geometry_lines_are_empty<T: Copy, F: Fn(T, T) -> T, G: Fn(T, T) -> bool>(
    f: F,
    g: G,
    a: GeometryArray<T>,
    n: nat,
    r: GeometryArray<T>,
    i: int,
    j: int,
)
    requires
        a.wf(),
        a.spec_kind().spec_is_linear(),
        smoothed_array(f, g, a, n, r),
        0 <= i < a.spec_buffer_len(),
        a.spec_null_at(i),
        down(a.spec_levels(), 0, a.spec_levels().len() - 1, i) <= j < down(
            a.spec_levels(),
            0,
            a.spec_levels().len() - 1,
            i + 1,
        ),
        0 <= j < line_count(a),
    ensures
        array_line(r, j).len() == 0,
        r.spec_null_at(i),
{
    assert(line_null(a, j));
    assert(array_line(r, j) == crate::chaikin::line_result(f, g, array_line(a, j), n, line_null(a, j)));
}

} // verus!
