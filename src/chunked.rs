use vstd::prelude::*;
use crate::array::{GeometryArray, GeometryKind};
use crate::coords::Dimension;
use crate::error::GeoError;

verus! {

/// All arrays of `s` share the shape and dimension of the first.
pub open spec fn uniform<T: Copy>(s: Seq<GeometryArray<T>>) -> bool {
    forall|i: int|
        0 <= i < s.len() ==> (#[trigger] s[i]).spec_kind() == s[0].spec_kind() && s[i].spec_dim()
            == s[0].spec_dim()
}

/// Some array of `s` has another shape than the first.
pub open spec fn mixed_kinds<T: Copy>(s: Seq<GeometryArray<T>>) -> bool {
    exists|i: int| 0 <= i < s.len() && (#[trigger] s[i]).spec_kind() != s[0].spec_kind()
}

/// `outs` are results, all `Ok`, that `f` gave on the arrays of `s`, in order.
pub open spec fn results_of<T: Copy, F: Fn(&GeometryArray<T>) -> Result<GeometryArray<T>, GeoError>>(
    f: F,
    s: Seq<GeometryArray<T>>,
    outs: Seq<GeometryArray<T>>,
) -> bool {
    &&& outs.len() == s.len()
    &&& forall|i: int| 0 <= i < s.len() ==> call_ensures(f, (&s[i],), Ok(#[trigger] outs[i]))
}

/// Total number of geometries over the arrays of `s`.
pub open spec fn total_len<T: Copy>(s: Seq<GeometryArray<T>>) -> nat
    decreases s.len(),
{
    if s.len() == 0 {
        0
    } else {
        total_len(s.drop_last()) + s.last().spec_len()
    }
}

/// `f` may be called on every valid array and only returns valid arrays.
pub open spec fn transform_ok<T: Copy, F: Fn(&GeometryArray<T>) -> Result<GeometryArray<T>, GeoError>>(
    f: F,
) -> bool {
    &&& forall|a: &GeometryArray<T>| a.wf() ==> #[trigger] call_requires(f, (a,))
    &&& forall|a: &GeometryArray<T>, r: Result<GeometryArray<T>, GeoError>|
        #[trigger] call_ensures(f, (a,), r) ==> (r matches Ok(b) ==> b.wf())
}

/// `f` keeps the shape and dimension of the array it transforms.
pub open spec fn keeps_shape<T: Copy, F: Fn(&GeometryArray<T>) -> Result<GeometryArray<T>, GeoError>>(
    f: F,
) -> bool {
    forall|a: &GeometryArray<T>, r: Result<GeometryArray<T>, GeoError>|
        #[trigger] call_ensures(f, (a,), r) ==> (r matches Ok(b) ==> b.spec_kind() == a.spec_kind()
            && b.spec_dim() == a.spec_dim())
}

/// `f` keeps the number of geometries of the array it transforms.
pub open spec fn keeps_len<T: Copy, F: Fn(&GeometryArray<T>) -> Result<GeometryArray<T>, GeoError>>(
    f: F,
) -> bool {
    forall|a: &GeometryArray<T>, r: Result<GeometryArray<T>, GeoError>|
        #[trigger] call_ensures(f, (a,), r) ==> (r matches Ok(b) ==> b.spec_len() == a.spec_len())
}

/// An ordered sequence of geometry arrays of one shape and dimension,
/// treated as one collection.
pub struct ChunkedGeometryArray<T> {
    chunks: Vec<GeometryArray<T>>,
}

impl<T: Copy> ChunkedGeometryArray<T> {
    pub closed spec fn spec_chunks(&self) -> Seq<GeometryArray<T>> {
        self.chunks@
    }

    /// Every chunk is valid and all share one shape and dimension.
    pub open spec fn wf(&self) -> bool {
        &&& forall|i: int| 0 <= i < self.spec_chunks().len() ==> (#[trigger] self.spec_chunks()[i]).wf()
        &&& uniform(self.spec_chunks())
    }

    /// `r` is what mapping `f` over the chunks of `self` may give.
    pub open spec fn spec_mapped<F: Fn(&GeometryArray<T>) -> Result<GeometryArray<T>, GeoError>>(
        &self,
        f: F,
        r: Result<ChunkedGeometryArray<T>, GeoError>,
    ) -> bool {
        let s = self.spec_chunks();
        &&& r matches Ok(c) ==> {
            &&& c.wf()
            &&& c.spec_chunks().len() == s.len()
            &&& forall|i: int|
                0 <= i < s.len() ==> call_ensures(f, (&s[i],), Ok(#[trigger] c.spec_chunks()[i]))
        }
        &&& r matches Err(e) ==> {
            ||| exists|i: int| 0 <= i < s.len() && #[trigger] call_ensures(f, (&s[i],), Err(e))
            ||| exists|outs: Seq<GeometryArray<T>>| #[trigger] results_of(f, s, outs) && !uniform(outs)
                && (e == GeoError::ChunkVariantMismatch <==> mixed_kinds(outs)) && (e
                == GeoError::ChunkVariantMismatch || e == GeoError::ChunkDimensionMismatch)
        }
    }

    /// Builds a chunked array; every chunk must share the first chunk's shape
    /// (else `ChunkVariantMismatch`) and then its dimension (else `ChunkDimensionMismatch`).
    pub fn new(chunks: Vec<GeometryArray<T>>) -> (r: Result<ChunkedGeometryArray<T>, GeoError>)
        requires
            forall|i: int| 0 <= i < chunks@.len() ==> (#[trigger] chunks@[i]).wf(),
        ensures
            r.is_ok() <==> uniform(chunks@),
            r matches Ok(c) ==> c.spec_chunks() == chunks@ && c.wf(),
            r matches Err(e) ==> (e == GeoError::ChunkVariantMismatch <==> mixed_kinds(chunks@)),
            r matches Err(e) ==> (e == GeoError::ChunkVariantMismatch || e
                == GeoError::ChunkDimensionMismatch),
    {
        let n = chunks.len();
        if n == 0 {
            return Ok(ChunkedGeometryArray { chunks });
        }
        let kind = chunks[0].kind();
        let dim = chunks[0].dim();
        let mut i: usize = 0;
        while i < n
            invariant
                n == chunks@.len(),
                n > 0,
                kind == chunks@[0].spec_kind(),
                i <= n,
                forall|k: int| 0 <= k < i ==> (#[trigger] chunks@[k]).spec_kind() == kind,
            decreases n - i,
        {
            if chunks[i].kind() != kind {
                assert(mixed_kinds(chunks@));
                return Err(GeoError::ChunkVariantMismatch);
            }
            i = i + 1;
        }
        let mut i: usize = 0;
        while i < n
            invariant
                n == chunks@.len(),
                n > 0,
                kind == chunks@[0].spec_kind(),
                dim == chunks@[0].spec_dim(),
                forall|k: int| 0 <= k < n ==> (#[trigger] chunks@[k]).spec_kind() == kind,
                i <= n,
                forall|k: int| 0 <= k < i ==> (#[trigger] chunks@[k]).spec_dim() == dim,
            decreases n - i,
        {
            if chunks[i].dim() != dim {
                assert(!uniform(chunks@));
                return Err(GeoError::ChunkDimensionMismatch);
            }
            i = i + 1;
        }
        Ok(ChunkedGeometryArray { chunks })
    }

    /// Number of chunks.
    pub fn num_chunks(&self) -> (r: usize)
        ensures
            r == self.spec_chunks().len(),
    {
        self.chunks.len()
    }

    /// Chunk `i`.
    pub fn chunk(&self, i: usize) -> (r: &GeometryArray<T>)
        requires
            i < self.spec_chunks().len(),
        ensures
            *r == self.spec_chunks()[i as int],
    {
        &self.chunks[i]
    }

    /// The shape of the chunks, where there is one.
    pub fn kind(&self) -> (r: Option<GeometryKind>)
        ensures
            r matches Some(k) ==> self.spec_chunks().len() > 0 && k == self.spec_chunks()[0].spec_kind(),
            r is None <==> self.spec_chunks().len() == 0,
    {
        if self.chunks.len() == 0 {
            None
        } else {
            Some(self.chunks[0].kind())
        }
    }

    /// The dimension of the chunks, where there is one.
    pub fn dim(&self) -> (r: Option<Dimension>)
        ensures
            r matches Some(d) ==> self.spec_chunks().len() > 0 && d == self.spec_chunks()[0].spec_dim(),
            r is None <==> self.spec_chunks().len() == 0,
    {
        if self.chunks.len() == 0 {
            None
        } else {
            Some(self.chunks[0].dim())
        }
    }

    /// Total number of geometries over all chunks.
    pub fn len(&self) -> (r: u128)
        requires
            self.wf(),
        ensures
            r == total_len(self.spec_chunks()),
    {
        let ghost s = self.spec_chunks();
        let mut acc: u128 = 0;
        let mut i: usize = 0;
        while i < self.chunks.len()
            invariant
                s == self.spec_chunks(),
                self.wf(),
                i <= s.len(),
                acc == total_len(s.subrange(0, i as int)),
                acc <= i * (usize::MAX as int),
            decreases s.len() - i,
        {
            let l = self.chunks[i].len();
            proof {
                assert(s.subrange(0, i + 1).drop_last() =~= s.subrange(0, i as int));
                assert(usize::MAX <= u64::MAX);
                assert((i + 1) * (usize::MAX as int) <= (usize::MAX as int) * (usize::MAX as int))
                    by (nonlinear_arith)
                    requires
                        i < usize::MAX,
                ;
                assert(acc + l <= (i + 1) * (usize::MAX as int)) by (nonlinear_arith)
                    requires
                        acc <= i * (usize::MAX as int),
                        l <= usize::MAX,
                ;
                assert((usize::MAX as int) * (usize::MAX as int) <= u128::MAX) by (nonlinear_arith)
                    requires
                        usize::MAX <= u64::MAX,
                ;
            }
            acc = acc + l as u128;
            i = i + 1;
        }
        assert(s.subrange(0, i as int) =~= s);
        acc
    }

    /// Applies `f` to every chunk independently and collects the results in
    /// chunk order; the first error of `f` is returned.
    pub fn map_chunks<F: Fn(&GeometryArray<T>) -> Result<GeometryArray<T>, GeoError>>(
        &self,
        f: F,
    ) -> (r: Result<ChunkedGeometryArray<T>, GeoError>)
        requires
            self.wf(),
            transform_ok(f),
        ensures
            self.spec_mapped(f, r),
    {
        let ghost s = self.spec_chunks();
        let mut out: Vec<GeometryArray<T>> = Vec::new();
        let mut i: usize = 0;
        while i < self.chunks.len()
            invariant
                s == self.spec_chunks(),
                self.wf(),
                transform_ok(f),
                i <= s.len(),
                out@.len() == i,
                forall|k: int| 0 <= k < i ==> call_ensures(f, (&s[k],), Ok(#[trigger] out@[k])),
                forall|k: int| 0 <= k < i ==> (#[trigger] out@[k]).wf(),
            decreases s.len() - i,
        {
            let res = f(&self.chunks[i]);
            match res {
                Ok(b) => {
                    out.push(b);
                },
                Err(e) => {
                    assert(call_ensures(f, (&s[i as int],), Err(e)));
                    return Err(e);
                },
            }
            i = i + 1;
        }
        let ghost outs = out@;
        let r = ChunkedGeometryArray::new(out);
        proof {
            if r.is_err() {
                assert(results_of(f, s, outs));
            }
        }
        r
    }
}

} // verus!
