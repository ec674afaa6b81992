use vstd::prelude::*;
use crate::array::{copy_coords, level_child_len, levels_consistent, GeometryArray, GeometryKind};
use crate::coords::{Coord, CoordBuffer};
use crate::offsets::{lemma_monotone_sorted, valid_offsets, OffsetBuffer};

verus! {

/// One geometry, read out of an array with its parts: the lines of a
/// multi-line string, the rings of a polygon (exterior first), the polygons of
/// a multi-polygon.
pub enum Geometry<T> {
    Point(Coord<T>),
    LineString(Vec<Coord<T>>),
    Polygon(Vec<Vec<Coord<T>>>),
    MultiPoint(Vec<Coord<T>>),
    MultiLineString(Vec<Vec<Coord<T>>>),
    MultiPolygon(Vec<Vec<Vec<Coord<T>>>>),
}

/// The coordinates of each run in a sequence of runs.
pub open spec fn runs_view<T>(v: Seq<Vec<Coord<T>>>) -> Seq<Seq<Coord<T>>> {
    v.map_values(|x: Vec<Coord<T>>| x@)
}

/// The runs `lo .. hi` of offset sequence `o` over coordinates `c`.
pub open spec fn runs_of<T>(c: Seq<Coord<T>>, o: Seq<usize>, lo: int, hi: int) -> Seq<Seq<Coord<T>>> {
    Seq::new((hi - lo) as nat, |j: int| c.subrange(o[lo + j] as int, o[lo + j + 1] as int))
}

/// `v` is geometry `i` of `a`, read with its parts.
pub open spec fn is_geometry_of<T: Copy>(a: GeometryArray<T>, i: int, v: Geometry<T>) -> bool {
    let c = a.spec_coords();
    let l = a.spec_levels();
    let g = a.spec_offset() + i;
    match v {
        Geometry::Point(p) => a.spec_kind() == GeometryKind::Point && p == c[g],
        Geometry::LineString(s) => a.spec_kind() == GeometryKind::LineString && s@
            == a.spec_geometry_coords(i),
        Geometry::MultiPoint(s) => a.spec_kind() == GeometryKind::MultiPoint && s@
            == a.spec_geometry_coords(i),
        Geometry::Polygon(rs) => a.spec_kind() == GeometryKind::Polygon && runs_view(rs@)
            == runs_of(c, l[1], l[0][g] as int, l[0][g + 1] as int),
        Geometry::MultiLineString(rs) => a.spec_kind() == GeometryKind::MultiLineString
            && runs_view(rs@) == runs_of(c, l[1], l[0][g] as int, l[0][g + 1] as int),
        Geometry::MultiPolygon(ps) => {
            &&& a.spec_kind() == GeometryKind::MultiPolygon
            &&& ps@.len() == l[0][g + 1] - l[0][g]
            &&& forall|p: int|
                0 <= p < ps@.len() ==> runs_view((#[trigger] ps@[p])@) == runs_of(
                    c,
                    l[2],
                    l[1][l[0][g] + p] as int,
                    l[1][l[0][g] + p + 1] as int,
                )
        },
    }
}

/// The runs `lo .. hi` of `runs`, each as its coordinates.
fn read_runs<T: Copy>(c: &CoordBuffer<T>, runs: &OffsetBuffer, lo: usize, hi: usize) -> (r: Vec<
    Vec<Coord<T>>,
>)
    requires
        valid_offsets(runs@, c.spec_coords().len()),
        lo <= hi <= runs@.len() - 1,
    ensures
        runs_view(r@) == runs_of(c.spec_coords(), runs@, lo as int, hi as int),
{
    let ghost o = runs@;
    let mut out: Vec<Vec<Coord<T>>> = Vec::new();
    let mut j: usize = lo;
    while j < hi
        invariant
            o == runs@,
            valid_offsets(o, c.spec_coords().len()),
            lo <= j <= hi,
            hi <= o.len() - 1,
            out@.len() == j - lo,
            runs_view(out@) == runs_of(c.spec_coords(), o, lo as int, j as int),
        decreases hi - j,
    {
        proof {
            lemma_monotone_sorted(o, j as int, j + 1);
            lemma_monotone_sorted(o, j + 1, o.len() - 1);
        }
        let a = runs.get(j);
        let b = runs.get(j + 1);
        let run = copy_coords(c, a, b);
        let ghost before = out@;
        out.push(run);
        proof {
            let want = runs_of(c.spec_coords(), o, lo as int, j + 1);
            let had = runs_of(c.spec_coords(), o, lo as int, j as int);
            assert forall|k: int| 0 <= k < want.len() implies #[trigger] runs_view(out@)[k] == want[k] by {
                if k < before.len() {
                    assert(runs_view(out@)[k] == runs_view(before)[k]);
                    assert(runs_view(before)[k] == had[k]);
                } else {
                    assert(k == j - lo);
                    assert(out@[k] == run);
                }
            }
            assert(runs_view(out@) =~= want);
        }
        j = j + 1;
    }
    out
}

impl<T: Copy> GeometryArray<T> {
    /// Geometry `i` with its parts, or `None` where it is null.
    pub fn geometry(&self, i: usize) -> (r: Option<Geometry<T>>)
        requires
            self.wf(),
            i < self.spec_len(),
        ensures
            r.is_none() <==> self.spec_is_null(i as int),
            r matches Some(v) ==> is_geometry_of(*self, i as int, v),
    {
        if self.is_null(i) {
            return None;
        }
        let ghost l = self.spec_levels();
        let ghost n = self.spec_coords().len();
        let total = self.buffer_len();
        let g = self.offset() + i;
        let c = self.coords();
        assert(levels_consistent(l, n));
        assert(l.len() == self.spec_kind().spec_depth());
        match self.kind() {
            GeometryKind::Point => Some(Geometry::Point(c.get(g))),
            GeometryKind::LineString => Some(
                Geometry::LineString(self.geometry_coords(i).unwrap()),
            ),
            GeometryKind::MultiPoint => Some(
                Geometry::MultiPoint(self.geometry_coords(i).unwrap()),
            ),
            GeometryKind::Polygon => Some(Geometry::Polygon(self.parts_of(g))),
            GeometryKind::MultiLineString => Some(Geometry::MultiLineString(self.parts_of(g))),
            GeometryKind::MultiPolygon => {
                let outer = self.level(0);
                let mid = self.level(1);
                assert(valid_offsets(l[0], level_child_len(l, 0, n)));
                assert(valid_offsets(l[1], level_child_len(l, 1, n)));
                assert(valid_offsets(l[2], level_child_len(l, 2, n)));
                proof {
                    lemma_monotone_sorted(l[0], g as int, g + 1);
                    lemma_monotone_sorted(l[0], g + 1, l[0].len() - 1);
                }
                let lo = outer.get(g);
                let hi = outer.get(g + 1);
                let inner = self.level(2);
                let mut ps: Vec<Vec<Vec<Coord<T>>>> = Vec::new();
                let mut q: usize = lo;
                while q < hi
                    invariant
                        self.wf(),
                        l == self.spec_levels(),
                        n == self.spec_coords().len(),
                        c.spec_coords() == self.spec_coords(),
                        mid@ == l[1],
                        inner@ == l[2],
                        l.len() == 3,
                        valid_offsets(l[1], level_child_len(l, 1, n)),
                        valid_offsets(l[2], level_child_len(l, 2, n)),
                        lo <= q <= hi,
                        hi <= l[1].len() - 1,
                        ps@.len() == q - lo,
                        forall|p: int|
                            0 <= p < ps@.len() ==> runs_view((#[trigger] ps@[p])@) == runs_of(
                                self.spec_coords(),
                                l[2],
                                l[1][lo + p] as int,
                                l[1][lo + p + 1] as int,
                            ),
                    decreases hi - q,
                {
                    proof {
                        lemma_monotone_sorted(l[1], q as int, q + 1);
                        lemma_monotone_sorted(l[1], q + 1, l[1].len() - 1);
                    }
                    let a = mid.get(q);
                    let b = mid.get(q + 1);
                    let rings = read_runs(c, inner, a, b);
                    ps.push(rings);
                    q = q + 1;
                }
                Some(Geometry::MultiPolygon(ps))
            },
        }
    }

    /// The runs of the second level that geometry `g` of the buffers holds.
    fn parts_of(&self, g: usize) -> (r: Vec<Vec<Coord<T>>>)
        requires
            self.wf(),
            self.spec_levels().len() == 2,
            g < self.spec_buffer_len(),
        ensures
            runs_view(r@) == runs_of(
                self.spec_coords(),
                self.spec_levels()[1],
                self.spec_levels()[0][g as int] as int,
                self.spec_levels()[0][g + 1] as int,
            ),
    {
        let ghost l = self.spec_levels();
        let ghost n = self.spec_coords().len();
        assert(levels_consistent(l, n));
        assert(valid_offsets(l[0], level_child_len(l, 0, n)));
        assert(valid_offsets(l[1], level_child_len(l, 1, n)));
        proof {
            lemma_monotone_sorted(l[0], g as int, g + 1);
            lemma_monotone_sorted(l[0], g + 1, l[0].len() - 1);
        }
        let total = self.buffer_len();
        let outer = self.level(0);
        let lo = outer.get(g);
        let hi = outer.get(g + 1);
        read_runs(self.coords(), self.level(1), lo, hi)
    }
}

} // verus!
