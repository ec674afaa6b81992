use vstd::prelude::*;
use crate::coords::{Coord, CoordBuffer, Dimension};
use crate::error::GeoError;
use crate::offsets::{lemma_monotone_sorted, valid_offsets, OffsetBuffer};
use std::sync::Arc;

verus! {

/// The six geometry shapes that an array can hold.
#[derive(Debug, Clone, Copy, PartialEq, Eq, Structural)]
pub enum GeometryKind {
    Point,
    LineString,
    Polygon,
    MultiPoint,
    MultiLineString,
    MultiPolygon,
}

impl GeometryKind {
    /// Number of offset buffers that the shape nests.
    pub open spec fn spec_depth(self) -> nat {
        match self {
            GeometryKind::Point => 0,
            GeometryKind::LineString => 1,
            GeometryKind::MultiPoint => 1,
            GeometryKind::Polygon => 2,
            GeometryKind::MultiLineString => 2,
            GeometryKind::MultiPolygon => 3,
        }
    }

    /// Number of offset buffers that the shape nests.
    pub fn depth(&self) -> (r: usize)
        ensures
            r == self.spec_depth(),
    {
        match self {
            GeometryKind::Point => 0,
            GeometryKind::LineString => 1,
            GeometryKind::MultiPoint => 1,
            GeometryKind::Polygon => 2,
            GeometryKind::MultiLineString => 2,
            GeometryKind::MultiPolygon => 3,
        }
    }

    /// Shapes built of lines or rings.
    pub open spec fn spec_is_linear(self) -> bool {
        !(self == GeometryKind::Point || self == GeometryKind::MultiPoint)
    }
}

/// Array-level metadata, carried unchanged through every transform.
pub struct ArrayMetadata {
    /// The coordinate reference system, opaque to this library.
    pub crs: Option<String>,
}

impl ArrayMetadata {
    /// An equal copy.
    pub fn copy(&self) -> (r: ArrayMetadata)
        ensures
            r == *self,
    {
        match &self.crs {
            Some(s) => ArrayMetadata { crs: Some(s.clone()) },
            None => ArrayMetadata { crs: None },
        }
    }
}

/// Number of items addressed by level `k` of `levels` above `coord_len` coordinates.
pub open spec fn level_child_len(levels: Seq<Seq<usize>>, k: int, coord_len: nat) -> nat {
    if k + 1 < levels.len() {
        (levels[k + 1].len() - 1) as nat
    } else {
        coord_len
    }
}

/// Every level is a valid offset sequence over the level below it, the last over the coordinates.
pub open spec fn levels_consistent(levels: Seq<Seq<usize>>, coord_len: nat) -> bool {
    forall|k: int|
        0 <= k < levels.len() ==> valid_offsets(
            #[trigger] levels[k],
            level_child_len(levels, k, coord_len),
        )
}

/// The innermost level of `levels` does not end at `coord_len`, the number of
/// coordinates it addresses.
pub open spec fn inner_end_mismatch(levels: Seq<Seq<usize>>, coord_len: nat) -> bool {
    levels.len() >= 1 && levels[levels.len() - 1][levels[levels.len() - 1].len() - 1] != coord_len
}

/// Number of geometries that `levels` over `coord_len` coordinates describe.
pub open spec fn geometry_count(levels: Seq<Seq<usize>>, coord_len: nat) -> nat {
    if levels.len() == 0 {
        coord_len
    } else {
        (levels[0].len() - 1) as nat
    }
}

/// Follows the runs `[lo, hi)` of level `k` down to a range of coordinates.
pub open spec fn descend(levels: Seq<Seq<usize>>, k: int, lo: int, hi: int) -> (int, int)
    decreases levels.len() - k,
{
    if k < 0 || k >= levels.len() {
        (lo, hi)
    } else {
        descend(levels, k + 1, levels[k][lo] as int, levels[k][hi] as int)
    }
}

/// Index `x` of level `k` followed down to an index of level `stop`.
pub open spec fn down(levels: Seq<Seq<usize>>, k: int, stop: int, x: int) -> int
    decreases stop - k,
{
    if k < 0 || k >= stop {
        x
    } else {
        down(levels, k + 1, stop, levels[k][x] as int)
    }
}

/// Following indices down the levels keeps their order, maps zero to zero
/// and the run count of level `k` to the run count of level `stop`.
pub proof fn lemma_down(levels: Seq<Seq<usize>>, coord_len: nat, k: int, stop: int, x: int, y: int)
    requires
        levels_consistent(levels, coord_len),
        0 <= k <= stop < levels.len(),
        0 <= x <= y <= levels[k].len() - 1,
    ensures
        down(levels, k, stop, x) <= down(levels, k, stop, y),
        down(levels, k, stop, 0) == 0,
        down(levels, k, stop, levels[k].len() - 1) == levels[stop].len() - 1,
        down(levels, k, stop, y) <= levels[stop].len() - 1,
        0 <= down(levels, k, stop, x),
    decreases stop - k,
{
    if k < stop {
        let s = levels[k];
        assert(valid_offsets(s, level_child_len(levels, k, coord_len)));
        lemma_monotone_sorted(s, x, y);
        lemma_monotone_sorted(s, y, s.len() - 1);
        assert(valid_offsets(levels[k + 1], level_child_len(levels, k + 1, coord_len)));
        lemma_down(levels, coord_len, k + 1, stop, s[x] as int, s[y] as int);
        lemma_down(levels, coord_len, k + 1, stop, 0, s[s.len() - 1] as int);
    }
}

/// The coordinate range of geometry `i`.
pub open spec fn geometry_span(levels: Seq<Seq<usize>>, i: int) -> (int, int) {
    descend(levels, 0, i, i + 1)
}

pub open spec fn offsets_view(levels: Seq<OffsetBuffer>) -> Seq<Seq<usize>> {
    levels.map_values(|b: OffsetBuffer| b@)
}

/// A columnar array of one geometry shape: a coordinate buffer, the offset
/// buffers of the shape's nesting (outermost first), an optional validity
/// mask and metadata. The buffers are shared, never copied, between an array
/// and its slices; an array addresses the `length` geometries of its buffers
/// from `offset` on.
pub struct GeometryArray<T> {
    kind: GeometryKind,
    coords: Arc<CoordBuffer<T>>,
    levels: Arc<Vec<OffsetBuffer>>,
    validity: Option<Arc<Vec<bool>>>,
    metadata: ArrayMetadata,
    offset: usize,
    length: usize,
}

impl<T: Copy> GeometryArray<T> {
    pub closed spec fn spec_kind(&self) -> GeometryKind {
        self.kind
    }

    /// The whole coordinate buffer.
    pub closed spec fn spec_coords(&self) -> Seq<Coord<T>> {
        (*self.coords).spec_coords()
    }

    pub closed spec fn spec_dim(&self) -> Dimension {
        (*self.coords).spec_dim()
    }

    /// The offset buffers, outermost first.
    pub closed spec fn spec_levels(&self) -> Seq<Seq<usize>> {
        offsets_view((*self.levels)@)
    }

    /// The whole validity mask.
    pub closed spec fn spec_validity(&self) -> Option<Seq<bool>> {
        match self.validity {
            Some(v) => Some((*v)@),
            None => None,
        }
    }

    /// Index, in the buffers, of the first geometry that the array addresses.
    pub closed spec fn spec_offset(&self) -> nat {
        self.offset as nat
    }

    /// Number of geometries that the array addresses.
    pub closed spec fn spec_len(&self) -> nat {
        self.length as nat
    }

    /// Number of geometries that the buffers describe.
    pub open spec fn spec_buffer_len(&self) -> nat {
        geometry_count(self.spec_levels(), self.spec_coords().len())
    }

    pub closed spec fn spec_metadata(&self) -> ArrayMetadata {
        self.metadata
    }

    pub closed spec fn buffers_wf(&self) -> bool {
        &&& (*self.coords).wf()
        &&& forall|k: int| 0 <= k < (*self.levels)@.len() ==> (#[trigger] (*self.levels)@[k]).wf()
    }

    /// Geometry `g` of the buffers is null.
    pub open spec fn spec_null_at(&self, g: int) -> bool {
        self.spec_validity() matches Some(v) && !v[g]
    }

    /// Geometry `i` of the array is null.
    pub open spec fn spec_is_null(&self, i: int) -> bool {
        match self.spec_validity() {
            Some(v) => !v[self.spec_offset() + i],
            None => false,
        }
    }

    /// The coordinates of geometry `i` of the array.
    pub open spec fn spec_geometry_coords(&self, i: int) -> Seq<Coord<T>> {
        let (lo, hi) = geometry_span(self.spec_levels(), self.spec_offset() + i);
        self.spec_coords().subrange(lo, hi)
    }

    /// Internal invariant of every array.
    pub open spec fn wf(&self) -> bool {
        &&& self.buffers_wf()
        &&& forall|i: int|
            0 <= i < self.spec_coords().len() ==> crate::coords::coord_has_dim(
                #[trigger] self.spec_coords()[i],
                self.spec_dim(),
            )
        &&& self.spec_levels().len() == self.spec_kind().spec_depth()
        &&& levels_consistent(self.spec_levels(), self.spec_coords().len())
        &&& self.spec_validity() matches Some(v) ==> v.len() == self.spec_buffer_len()
        &&& self.spec_offset() + self.spec_len() <= self.spec_buffer_len()
    }

    proof fn lemma_wf_parts(&self)
        requires
            self.wf(),
        ensures
            (*self.coords).wf(),
            forall|k: int| 0 <= k < (*self.levels)@.len() ==> (#[trigger] (*self.levels)@[k]).wf(),
            (*self.levels)@.len() == self.spec_levels().len(),
            forall|k: int| 0 <= k < (*self.levels)@.len() ==> #[trigger] (*self.levels)@[k]@
                == self.spec_levels()[k],
    {
    }

    /// Builds an array of shape `kind`; checks that the offset buffers nest.
    pub fn try_new(
        kind: GeometryKind,
        coords: CoordBuffer<T>,
        levels: Vec<OffsetBuffer>,
        validity: Option<Vec<bool>>,
        metadata: ArrayMetadata,
    ) -> (r: Result<GeometryArray<T>, GeoError>)
        requires
            coords.wf(),
            forall|k: int| 0 <= k < levels@.len() ==> (#[trigger] levels@[k]).wf(),
        ensures
            r.is_ok() <==> {
                &&& levels@.len() == kind.spec_depth()
                &&& levels_consistent(offsets_view(levels@), coords.spec_coords().len())
                &&& validity matches Some(v) ==> v@.len() == geometry_count(
                    offsets_view(levels@),
                    coords.spec_coords().len(),
                )
            },
            r matches Ok(a) ==> {
                &&& a.wf()
                &&& a.spec_kind() == kind
                &&& a.spec_coords() == coords.spec_coords()
                &&& a.spec_dim() == coords.spec_dim()
                &&& a.spec_levels() == offsets_view(levels@)
                &&& a.spec_validity() == (match validity {
                    Some(v) => Some(v@),
                    None => None::<Seq<bool>>,
                })
                &&& a.spec_metadata() == metadata
                &&& a.spec_offset() == 0
                &&& a.spec_len() == a.spec_buffer_len()
            },
            r matches Err(e) ==> (e == GeoError::InvalidOffsets <==> (levels@.len()
                == kind.spec_depth() && inner_end_mismatch(
                offsets_view(levels@),
                coords.spec_coords().len(),
            ))),
            r matches Err(e) ==> (e == GeoError::InvalidOffsets || e == GeoError::StructuralMismatch),
    {
        let ghost lv = offsets_view(levels@);
        let depth = kind.depth();
        if levels.len() != depth {
            return Err(GeoError::StructuralMismatch);
        }
        if depth >= 1 && levels[depth - 1].child_len() != coords.len() {
            proof {
                let t = depth - 1;
                assert(lv[t as int] == levels@[t as int]@);
                assert(!valid_offsets(lv[t as int], level_child_len(lv, t as int, coords.spec_coords().len())));
            }
            return Err(GeoError::InvalidOffsets);
        }
        proof {
            if depth >= 1 {
                assert(lv[depth - 1] == levels@[depth - 1]@);
            }
        }
        let mut k: usize = 0;
        while k < levels.len()
            invariant
                lv == offsets_view(levels@),
                lv.len() == levels@.len(),
                !inner_end_mismatch(lv, coords.spec_coords().len()),
                forall|j: int| 0 <= j < levels@.len() ==> (#[trigger] levels@[j]).wf(),
                k <= levels@.len(),
                forall|j: int|
                    0 <= j < k ==> valid_offsets(
                        #[trigger] lv[j],
                        level_child_len(lv, j, coords.spec_coords().len()),
                    ),
            decreases levels@.len() - k,
        {
            let child = if k + 1 < levels.len() {
                levels[k + 1].run_count()
            } else {
                coords.len()
            };
            assert(lv[k as int] == levels@[k as int]@);
            if levels[k].child_len() != child {
                assert(!valid_offsets(lv[k as int], level_child_len(lv, k as int, coords.spec_coords().len())));
                assert(!inner_end_mismatch(lv, coords.spec_coords().len()));
                return Err(GeoError::StructuralMismatch);
            }
            k = k + 1;
        }
        let count = if depth == 0 {
            coords.len()
        } else {
            levels[0].run_count()
        };
        match &validity {
            Some(v) => {
                if v.len() != count {
                    assert(!inner_end_mismatch(lv, coords.spec_coords().len()));
                    return Err(GeoError::StructuralMismatch);
                }
            },
            None => {},
        }
        let validity = match validity {
            Some(v) => Some(Arc::new(v)),
            None => None,
        };
        let a = GeometryArray {
            kind,
            coords: Arc::new(coords),
            levels: Arc::new(levels),
            validity,
            metadata,
            offset: 0,
            length: count,
        };
        proof {
            assert(a.spec_levels() == lv);
            assert(a.buffers_wf());
        }
        Ok(a)
    }

    /// Assembles an array from parts that already nest.
    pub(crate) fn from_parts(
        kind: GeometryKind,
        coords: CoordBuffer<T>,
        levels: Vec<OffsetBuffer>,
        validity: Option<Arc<Vec<bool>>>,
        metadata: ArrayMetadata,
        offset: usize,
        length: usize,
    ) -> (r: GeometryArray<T>)
        requires
            coords.wf(),
            forall|k: int| 0 <= k < levels@.len() ==> (#[trigger] levels@[k]).wf(),
            levels@.len() == kind.spec_depth(),
            levels_consistent(offsets_view(levels@), coords.spec_coords().len()),
            validity matches Some(v) ==> (*v)@.len() == geometry_count(
                offsets_view(levels@),
                coords.spec_coords().len(),
            ),
            offset + length <= geometry_count(offsets_view(levels@), coords.spec_coords().len()),
        ensures
            r.wf(),
            r.spec_offset() == offset,
            r.spec_len() == length,
            r.spec_kind() == kind,
            r.spec_coords() == coords.spec_coords(),
            r.spec_dim() == coords.spec_dim(),
            r.spec_levels() == offsets_view(levels@),
            r.spec_validity() == (match validity {
                Some(v) => Some((*v)@),
                None => None::<Seq<bool>>,
            }),
            r.spec_metadata() == metadata,
    {
        GeometryArray {
            kind,
            coords: Arc::new(coords),
            levels: Arc::new(levels),
            validity,
            metadata,
            offset,
            length,
        }
    }

    /// The validity mask, shared.
    pub(crate) fn shared_validity(&self) -> (r: Option<Arc<Vec<bool>>>)
        ensures
            match r {
                Some(v) => self.spec_validity() == Some((*v)@),
                None => self.spec_validity() == None::<Seq<bool>>,
            },
    {
        match &self.validity {
            Some(v) => Some(v.clone()),
            None => None,
        }
    }

    /// The geometries `start .. start + len` of the array, as an array that
    /// shares this one's buffers.
    pub fn slice(&self, start: usize, len: usize) -> (r: GeometryArray<T>)
        requires
            self.wf(),
            start + len <= self.spec_len(),
        ensures
            r.wf(),
            r.spec_kind() == self.spec_kind(),
            r.spec_coords() == self.spec_coords(),
            r.spec_dim() == self.spec_dim(),
            r.spec_levels() == self.spec_levels(),
            r.spec_validity() == self.spec_validity(),
            r.spec_metadata() == self.spec_metadata(),
            r.spec_offset() == self.spec_offset() + start,
            r.spec_len() == len,
    {
        // the buffers' length bounds `offset + start`
        let total = self.buffer_len();
        GeometryArray {
            kind: self.kind,
            coords: self.coords.clone(),
            levels: self.levels.clone(),
            validity: self.shared_validity(),
            metadata: self.metadata.copy(),
            offset: self.offset + start,
            length: len,
        }
    }

    /// The shape held.
    pub fn kind(&self) -> (r: GeometryKind)
        ensures
            r == self.spec_kind(),
    {
        self.kind
    }

    /// The coordinate dimension.
    pub fn dim(&self) -> (r: Dimension)
        ensures
            r == self.spec_dim(),
    {
        self.coords.dim()
    }

    /// The metadata record.
    pub fn metadata(&self) -> (r: &ArrayMetadata)
        ensures
            *r == self.spec_metadata(),
    {
        &self.metadata
    }

    /// The coordinate buffer.
    pub fn coords(&self) -> (r: &CoordBuffer<T>)
        ensures
            r.spec_coords() == self.spec_coords(),
            r.spec_dim() == self.spec_dim(),
            self.wf() ==> r.wf(),
    {
        &*self.coords
    }

    /// Offset buffer `k`, outermost first.
    pub fn level(&self, k: usize) -> (r: &OffsetBuffer)
        requires
            self.wf(),
            k < self.spec_levels().len(),
        ensures
            r@ == self.spec_levels()[k as int],
            r.wf(),
    {
        proof {
            self.lemma_wf_parts();
        }
        &(*self.levels)[k]
    }

    /// A copy of the validity mask.
    pub fn validity(&self) -> (r: Option<Vec<bool>>)
        ensures
            match r {
                Some(v) => self.spec_validity() == Some(v@),
                None => self.spec_validity() == None::<Seq<bool>>,
            },
    {
        match &self.validity {
            Some(v) => Some(copy_bools(&*v)),
            None => None,
        }
    }

    /// Number of geometries that the array addresses.
    pub fn len(&self) -> (r: usize)
        ensures
            r == self.spec_len(),
    {
        self.length
    }

    /// Index, in the buffers, of the array's first geometry.
    pub fn offset(&self) -> (r: usize)
        ensures
            r == self.spec_offset(),
    {
        self.offset
    }

    /// Number of geometries that the buffers describe.
    pub fn buffer_len(&self) -> (r: usize)
        requires
            self.wf(),
        ensures
            r == self.spec_buffer_len(),
    {
        proof {
            self.lemma_wf_parts();
        }
        if self.levels.len() == 0 {
            self.coords.len()
        } else {
            (*self.levels)[0].run_count()
        }
    }

    /// Whether geometry `i` is null.
    pub fn is_null(&self, i: usize) -> (r: bool)
        requires
            self.wf(),
            i < self.spec_len(),
        ensures
            r == self.spec_is_null(i as int),
    {
        // the buffers' length bounds `offset + i`
        let total = self.buffer_len();
        match &self.validity {
            Some(v) => !(*v)[self.offset + i],
            None => false,
        }
    }

    /// Coordinate range `(start, end)` of geometry `i`.
    pub fn geometry_bounds(&self, i: usize) -> (r: (usize, usize))
        requires
            self.wf(),
            i < self.spec_len(),
        ensures
            r.0 as int == geometry_span(self.spec_levels(), self.spec_offset() + i).0,
            r.1 as int == geometry_span(self.spec_levels(), self.spec_offset() + i).1,
            r.0 <= r.1 <= self.spec_coords().len(),
    {
        proof {
            self.lemma_wf_parts();
        }
        let ghost lv = self.spec_levels();
        let ghost n = self.spec_coords().len();
        // the buffers' length bounds `offset + i + 1`
        let total = self.buffer_len();
        let g = self.offset + i;
        let mut lo: usize = g;
        let mut hi: usize = g + 1;
        let mut k: usize = 0;
        while k < self.levels.len()
            invariant
                self.wf(),
                lv == self.spec_levels(),
                n == self.spec_coords().len(),
                lv.len() == (*self.levels)@.len(),
                forall|j: int| 0 <= j < (*self.levels)@.len() ==> #[trigger] (*self.levels)@[j]@ == lv[j],
                forall|j: int| 0 <= j < (*self.levels)@.len() ==> (#[trigger] (*self.levels)@[j]).wf(),
                k <= lv.len(),
                lo <= hi,
                k < lv.len() ==> hi < lv[k as int].len(),
                k == lv.len() ==> hi <= n,
                descend(lv, k as int, lo as int, hi as int) == geometry_span(lv, g as int),
            decreases lv.len() - k,
        {
            let ghost s = lv[k as int];
            assert(valid_offsets(s, level_child_len(lv, k as int, n)));
            proof {
                lemma_monotone_sorted(s, lo as int, hi as int);
                lemma_monotone_sorted(s, hi as int, s.len() - 1);
            }
            let new_lo = (*self.levels)[k].get(lo);
            let new_hi = (*self.levels)[k].get(hi);
            lo = new_lo;
            hi = new_hi;
            k = k + 1;
        }
        (lo, hi)
    }

    /// The coordinates of geometry `i`, or `None` where it is null.
    pub fn geometry_coords(&self, i: usize) -> (r: Option<Vec<Coord<T>>>)
        requires
            self.wf(),
            i < self.spec_len(),
        ensures
            r.is_none() <==> self.spec_is_null(i as int),
            r matches Some(v) ==> v@ == self.spec_geometry_coords(i as int),
    {
        if self.is_null(i) {
            return None;
        }
        let (lo, hi) = self.geometry_bounds(i);
        Some(copy_coords(&*self.coords, lo, hi))
    }
}

/// An equal copy of a mask.
pub(crate) fn copy_bools(v: &Vec<bool>) -> (r: Vec<bool>)
    ensures
        r@ == v@,
{
    let mut out: Vec<bool> = Vec::new();
    let mut i: usize = 0;
    while i < v.len()
        invariant
            i <= v@.len(),
            out@ == v@.subrange(0, i as int),
        decreases v@.len() - i,
    {
        out.push(v[i]);
        i = i + 1;
        assert(out@ =~= v@.subrange(0, i as int));
    }
    assert(out@ =~= v@);
    out
}

/// The coordinates `[lo, hi)` of a buffer.
pub(crate) fn copy_coords<T: Copy>(c: &CoordBuffer<T>, lo: usize, hi: usize) -> (r: Vec<Coord<T>>)
    requires
        lo <= hi <= c.spec_coords().len(),
    ensures
        r@ == c.spec_coords().subrange(lo as int, hi as int),
{
    let mut out: Vec<Coord<T>> = Vec::new();
    let mut j: usize = lo;
    while j < hi
        invariant
            lo <= j <= hi,
            hi <= c.spec_coords().len(),
            out@ == c.spec_coords().subrange(lo as int, j as int),
        decreases hi - j,
    {
        out.push(c.get(j));
        j = j + 1;
        assert(out@ =~= c.spec_coords().subrange(lo as int, j as int));
    }
    out
}


/// `r` is what building an array of `kind` over `coords` and the offset
/// levels `levels`, without validity mask, with reference system `crs` gives:
/// an array of all the geometries that the buffers describe, `InvalidOffsets`
/// where the innermost offsets do not end at the coordinate count, and
/// `StructuralMismatch` where two offset levels disagree.
pub open spec fn built_as<T: Copy>(
    r: Result<GeometryArray<T>, GeoError>,
    kind: GeometryKind,
    coords: CoordBuffer<T>,
    levels: Seq<Seq<usize>>,
    crs: Option<String>,
) -> bool {
    &&& r.is_ok() <==> levels_consistent(levels, coords.spec_coords().len())
    &&& r matches Ok(a) ==> {
        &&& a.wf()
        &&& a.spec_kind() == kind
        &&& a.spec_coords() == coords.spec_coords()
        &&& a.spec_dim() == coords.spec_dim()
        &&& a.spec_levels() == levels
        &&& a.spec_validity() == None::<Seq<bool>>
        &&& a.spec_metadata() == (ArrayMetadata { crs })
        &&& a.spec_offset() == 0
        &&& a.spec_len() == a.spec_buffer_len()
    }
    &&& r matches Err(e) ==> (e == GeoError::InvalidOffsets <==> inner_end_mismatch(
        levels,
        coords.spec_coords().len(),
    ))
    &&& r matches Err(e) ==> (e == GeoError::InvalidOffsets || e == GeoError::StructuralMismatch)
}

fn build<T: Copy>(
    kind: GeometryKind,
    coords: CoordBuffer<T>,
    levels: Vec<OffsetBuffer>,
    crs: Option<String>,
) -> (r: Result<GeometryArray<T>, GeoError>)
    requires
        coords.wf(),
        forall|k: int| 0 <= k < levels@.len() ==> (#[trigger] levels@[k]).wf(),
        levels@.len() == kind.spec_depth(),
    ensures
        built_as(r, kind, coords, offsets_view(levels@), crs),
{
    GeometryArray::try_new(kind, coords, levels, None, ArrayMetadata { crs })
}

/// An array of points, one per coordinate.
pub fn points<T: Copy>(coords: CoordBuffer<T>, crs: Option<String>) -> (r: Result<
    GeometryArray<T>,
    GeoError,
>)
    requires
        coords.wf(),
    ensures
        built_as(r, GeometryKind::Point, coords, Seq::empty(), crs),
        r.is_ok(),
{
    let levels: Vec<OffsetBuffer> = Vec::new();
    let r = build(GeometryKind::Point, coords, levels, crs);
    proof {
        assert(offsets_view(levels@) =~= Seq::<Seq<usize>>::empty());
    }
    r
}

/// An array of line strings; `geom_offsets` cuts the coordinates into lines.
pub fn linestrings<T: Copy>(
    coords: CoordBuffer<T>,
    geom_offsets: OffsetBuffer,
    crs: Option<String>,
) -> (r: Result<GeometryArray<T>, GeoError>)
    requires
        coords.wf(),
        geom_offsets.wf(),
    ensures
        built_as(r, GeometryKind::LineString, coords, seq![geom_offsets@], crs),
{
    let ghost g = geom_offsets@;
    let levels = vec![geom_offsets];
    proof {
        assert(offsets_view(levels@) =~= seq![g]);
    }
    build(GeometryKind::LineString, coords, levels, crs)
}

/// An array of multi-points; `geom_offsets` groups the coordinates.
pub fn multipoints<T: Copy>(
    coords: CoordBuffer<T>,
    geom_offsets: OffsetBuffer,
    crs: Option<String>,
) -> (r: Result<GeometryArray<T>, GeoError>)
    requires
        coords.wf(),
        geom_offsets.wf(),
    ensures
        built_as(r, GeometryKind::MultiPoint, coords, seq![geom_offsets@], crs),
{
    let ghost g = geom_offsets@;
    let levels = vec![geom_offsets];
    proof {
        assert(offsets_view(levels@) =~= seq![g]);
    }
    build(GeometryKind::MultiPoint, coords, levels, crs)
}

/// An array of polygons; `geom_offsets` groups rings, `ring_offsets` cuts
/// the coordinates into rings.
pub fn polygons<T: Copy>(
    coords: CoordBuffer<T>,
    geom_offsets: OffsetBuffer,
    ring_offsets: OffsetBuffer,
    crs: Option<String>,
) -> (r: Result<GeometryArray<T>, GeoError>)
    requires
        coords.wf(),
        geom_offsets.wf(),
        ring_offsets.wf(),
    ensures
        built_as(r, GeometryKind::Polygon, coords, seq![geom_offsets@, ring_offsets@], crs),
{
    let ghost g = geom_offsets@;
    let ghost h = ring_offsets@;
    let levels = vec![geom_offsets, ring_offsets];
    proof {
        assert(offsets_view(levels@) =~= seq![g, h]);
    }
    build(GeometryKind::Polygon, coords, levels, crs)
}

/// An array of multi-line strings; `geom_offsets` groups lines,
/// `ring_offsets` cuts the coordinates into lines.
pub fn multilinestrings<T: Copy>(
    coords: CoordBuffer<T>,
    geom_offsets: OffsetBuffer,
    ring_offsets: OffsetBuffer,
    crs: Option<String>,
) -> (r: Result<GeometryArray<T>, GeoError>)
    requires
        coords.wf(),
        geom_offsets.wf(),
        ring_offsets.wf(),
    ensures
        built_as(
            r,
            GeometryKind::MultiLineString,
            coords,
            seq![geom_offsets@, ring_offsets@],
            crs,
        ),
{
    let ghost g = geom_offsets@;
    let ghost h = ring_offsets@;
    let levels = vec![geom_offsets, ring_offsets];
    proof {
        assert(offsets_view(levels@) =~= seq![g, h]);
    }
    build(GeometryKind::MultiLineString, coords, levels, crs)
}

/// An array of multi-polygons; `geom_offsets` groups polygons,
/// `polygon_offsets` groups rings, `ring_offsets` cuts the coordinates into rings.
pub fn multipolygons<T: Copy>(
    coords: CoordBuffer<T>,
    geom_offsets: OffsetBuffer,
    polygon_offsets: OffsetBuffer,
    ring_offsets: OffsetBuffer,
    crs: Option<String>,
) -> (r: Result<GeometryArray<T>, GeoError>)
    requires
        coords.wf(),
        geom_offsets.wf(),
        polygon_offsets.wf(),
        ring_offsets.wf(),
    ensures
        built_as(
            r,
            GeometryKind::MultiPolygon,
            coords,
            seq![geom_offsets@, polygon_offsets@, ring_offsets@],
            crs,
        ),
{
    let ghost g = geom_offsets@;
    let ghost p = polygon_offsets@;
    let ghost h = ring_offsets@;
    let levels = vec![geom_offsets, polygon_offsets, ring_offsets];
    proof {
        assert(offsets_view(levels@) =~= seq![g, p, h]);
    }
    build(GeometryKind::MultiPolygon, coords, levels, crs)
}

} // verus!
