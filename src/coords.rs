use vstd::prelude::*;
use crate::error::GeoError;

verus! {

/// Number of values in each coordinate tuple.
#[derive(Debug, Clone, Copy, PartialEq, Eq, Structural)]
pub enum Dimension {
    XY,
    XYZ,
}

impl Dimension {
    pub open spec fn spec_size(self) -> nat {
        match self {
            Dimension::XY => 2,
            Dimension::XYZ => 3,
        }
    }

    /// Number of values in a coordinate tuple of this dimension.
    pub fn size(&self) -> (r: usize)
        ensures
            r == self.spec_size(),
    {
        match self {
            Dimension::XY => 2,
            Dimension::XYZ => 3,
        }
    }
}

/// One coordinate tuple; `z` is present exactly for three-dimensional data.
#[derive(Debug, Clone, Copy)]
pub struct Coord<T> {
    pub x: T,
    pub y: T,
    pub z: Option<T>,
}

/// `c` has the arity that `dim` asks for.
pub open spec fn coord_has_dim<T>(c: Coord<T>, dim: Dimension) -> bool {
    c.z.is_some() <==> dim == Dimension::XYZ
}

/// Flat, immutable storage of coordinate tuples of one dimension.
pub struct CoordBuffer<T> {
    coords: Vec<Coord<T>>,
    dim: Dimension,
}

impl<T: Copy> CoordBuffer<T> {
    pub closed spec fn spec_coords(&self) -> Seq<Coord<T>> {
        self.coords@
    }

    pub closed spec fn spec_dim(&self) -> Dimension {
        self.dim
    }

    /// Every coordinate has the buffer's dimension.
    pub open spec fn wf(&self) -> bool {
        forall|i: int|
            0 <= i < self.spec_coords().len() ==> coord_has_dim(
                #[trigger] self.spec_coords()[i],
                self.spec_dim(),
            )
    }

    /// Builds a buffer from coordinate tuples, all of which must have `dim`.
    pub fn new(coords: Vec<Coord<T>>, dim: Dimension) -> (r: Result<CoordBuffer<T>, GeoError>)
        ensures
            r.is_ok() <==> (forall|i: int|
                0 <= i < coords@.len() ==> coord_has_dim(#[trigger] coords@[i], dim)),
            r matches Ok(b) ==> b.spec_coords() == coords@ && b.spec_dim() == dim && b.wf(),
            r matches Err(e) ==> e == GeoError::DimensionMismatch,
    {
        let mut i: usize = 0;
        while i < coords.len()
            invariant
                i <= coords@.len(),
                forall|k: int| 0 <= k < i ==> coord_has_dim(#[trigger] coords@[k], dim),
            decreases coords@.len() - i,
        {
            let has_z = coords[i].z.is_some();
            let want_z = match dim {
                Dimension::XY => false,
                Dimension::XYZ => true,
            };
            if has_z != want_z {
                return Err(GeoError::DimensionMismatch);
            }
            i = i + 1;
        }
        Ok(CoordBuffer { coords, dim })
    }

    /// Builds a buffer from a flat sequence of values, `dim.size()` per
    /// coordinate, interleaved (`x0, y0, [z0,] x1, y1, ...`).
    pub fn from_interleaved(values: &Vec<T>, dim: Dimension) -> (r: Result<CoordBuffer<T>, GeoError>)
        ensures
            r.is_ok() <==> values@.len() % dim.spec_size() == 0,
            r matches Ok(b) ==> {
                &&& b.wf()
                &&& b.spec_dim() == dim
                &&& b.spec_coords().len() * dim.spec_size() == values@.len()
                &&& forall|i: int|
                    0 <= i < b.spec_coords().len() ==> #[trigger] b.spec_coords()[i]
                        == interleaved_coord(values@, dim, i)
            },
            r matches Err(e) ==> e == GeoError::DimensionMismatch,
    {
        let d = dim.size();
        if values.len() % d != 0 {
            return Err(GeoError::DimensionMismatch);
        }
        let mut out: Vec<Coord<T>> = Vec::new();
        let mut j: usize = 0;
        while j < values.len()
            invariant
                d == dim.spec_size(),
                values@.len() % (d as nat) == 0,
                j <= values@.len(),
                j == out@.len() * d,
                forall|k: int| 0 <= k < out@.len() ==> #[trigger] out@[k]
                    == interleaved_coord(values@, dim, k),
                forall|k: int| 0 <= k < out@.len() ==> coord_has_dim(#[trigger] out@[k], dim),
            decreases values@.len() - j,
        {
            proof {
                let n = out@.len() as int;
                let len = values@.len() as int;
                let dd = d as int;
                assert(j + dd <= len) by (nonlinear_arith)
                    requires
                        j == n * dd,
                        j < len,
                        len % dd == 0,
                        dd == 2 || dd == 3,
                ;
            }
            let c = match dim {
                Dimension::XY => Coord { x: values[j], y: values[j + 1], z: None },
                Dimension::XYZ => Coord { x: values[j], y: values[j + 1], z: Some(values[j + 2]) },
            };
            proof {
                let n = out@.len() as int;
                assert(j as int == n * (d as int));
            }
            out.push(c);
            proof {
                let n = out@.len() as int;
                assert((n - 1) * (d as int) + (d as int) == n * (d as int)) by (nonlinear_arith);
            }
            j = j + d;
        }
        Ok(CoordBuffer { coords: out, dim })
    }

    /// Wraps coordinates already known to have `dim`.
    pub(crate) fn from_valid(coords: Vec<Coord<T>>, dim: Dimension) -> (r: CoordBuffer<T>)
        requires
            forall|i: int| 0 <= i < coords@.len() ==> coord_has_dim(#[trigger] coords@[i], dim),
        ensures
            r.spec_coords() == coords@,
            r.spec_dim() == dim,
            r.wf(),
    {
        CoordBuffer { coords, dim }
    }

    /// Number of coordinate tuples.
    pub fn len(&self) -> (r: usize)
        ensures
            r == self.spec_coords().len(),
    {
        self.coords.len()
    }

    /// The buffer's dimension.
    pub fn dim(&self) -> (r: Dimension)
        ensures
            r == self.spec_dim(),
    {
        self.dim
    }

    /// Coordinate `i`.
    pub fn get(&self, i: usize) -> (r: Coord<T>)
        requires
            i < self.spec_coords().len(),
        ensures
            r == self.spec_coords()[i as int],
    {
        self.coords[i]
    }

    /// Coordinate `i` as a pair; only two-dimensional buffers answer.
    pub fn get_xy(&self, i: usize) -> (r: Result<(T, T), GeoError>)
        requires
            i < self.spec_coords().len(),
        ensures
            r.is_ok() <==> self.spec_dim() == Dimension::XY,
            r matches Ok(p) ==> p.0 == self.spec_coords()[i as int].x && p.1
                == self.spec_coords()[i as int].y,
            r matches Err(e) ==> e == GeoError::DimensionMismatch,
    {
        match self.dim {
            Dimension::XY => {
                let c = self.coords[i];
                Ok((c.x, c.y))
            },
            Dimension::XYZ => Err(GeoError::DimensionMismatch),
        }
    }

    /// Coordinate `i` as a triple; only three-dimensional buffers answer.
    pub fn get_xyz(&self, i: usize) -> (r: Result<(T, T, T), GeoError>)
        requires
            self.wf(),
            i < self.spec_coords().len(),
        ensures
            r.is_ok() <==> self.spec_dim() == Dimension::XYZ,
            r matches Ok(p) ==> Some(p.2) == self.spec_coords()[i as int].z && p.0
                == self.spec_coords()[i as int].x && p.1 == self.spec_coords()[i as int].y,
            r matches Err(e) ==> e == GeoError::DimensionMismatch,
    {
        match self.dim {
            Dimension::XY => Err(GeoError::DimensionMismatch),
            Dimension::XYZ => {
                let c = self.coords[i];
                match c.z {
                    Some(z) => Ok((c.x, c.y, z)),
                    None => {
                        assert(coord_has_dim(self.spec_coords()[i as int], self.spec_dim()));
                        Err(GeoError::DimensionMismatch)
                    },
                }
            },
        }
    }
}

/// Coordinate `i` of an interleaved value sequence.
pub open spec fn interleaved_coord<T>(values: Seq<T>, dim: Dimension, i: int) -> Coord<T> {
    let d = dim.spec_size() as int;
    Coord {
        x: values[i * d],
        y: values[i * d + 1],
        z: if dim == Dimension::XYZ {
            Some(values[i * d + 2])
        } else {
            None
        },
    }
}

} // verus!
