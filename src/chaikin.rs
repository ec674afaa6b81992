use vstd::prelude::*;
use crate::array::{
    copy_coords, down, lemma_down, level_child_len, levels_consistent, offsets_view, GeometryArray,
    GeometryKind,
};
use crate::coords::{coord_has_dim, Coord, CoordBuffer, Dimension};
use crate::chunked::{
    keeps_shape, mixed_kinds, results_of, transform_ok, uniform, ChunkedGeometryArray,
};
use crate::error::GeoError;
use crate::offsets::{lemma_monotone_sorted, valid_offsets, OffsetBuffer};

verus! {

// Smoothing is generic over the coordinate scalar `T`. The caller hands in
// `cut(a, b)`, the scalar a quarter of the way from `a` to `b`
// (`0.75 * a + 0.25 * b`), and `same(a, b)`, whether two scalars are equal;
// every other step is the library's.

/// The value that `f` returns on `(a, b)`.
pub open spec fn cut_of<T, F: Fn(T, T) -> T>(f: F, a: T, b: T) -> T {
    choose|r: T| call_ensures(f, (a, b), r)
}

/// `f` may be called on any pair and returns one value for each.
pub open spec fn cut_ok<T, F: Fn(T, T) -> T>(f: F) -> bool {
    &&& forall|a: T, b: T| #[trigger] call_requires(f, (a, b))
    &&& forall|a: T, b: T, r: T| #[trigger] call_ensures(f, (a, b), r) ==> r == cut_of(f, a, b)
}

/// The point a quarter of the way from `p` to `q`, component by component.
pub open spec fn cut_coord<T, F: Fn(T, T) -> T>(f: F, p: Coord<T>, q: Coord<T>) -> Coord<T> {
    Coord {
        x: cut_of(f, p.x, q.x),
        y: cut_of(f, p.y, q.y),
        z: match (p.z, q.z) {
            (Some(a), Some(b)) => Some(cut_of(f, a, b)),
            _ => None,
        },
    }
}

/// The answer of `g` on `(a, b)`.
pub open spec fn same_of<T, G: Fn(T, T) -> bool>(g: G, a: T, b: T) -> bool {
    choose|r: bool| call_ensures(g, (a, b), r)
}

/// `g` may be called on any pair and gives one answer for each.
pub open spec fn same_ok<T, G: Fn(T, T) -> bool>(g: G) -> bool {
    &&& forall|a: T, b: T| #[trigger] call_requires(g, (a, b))
    &&& forall|a: T, b: T, r: bool| #[trigger] call_ensures(g, (a, b), r) ==> r == same_of(g, a, b)
}

/// `p` and `q` are the same coordinate, by `g` on each component.
pub open spec fn same_coord<T, G: Fn(T, T) -> bool>(g: G, p: Coord<T>, q: Coord<T>) -> bool {
    &&& same_of(g, p.x, q.x)
    &&& same_of(g, p.y, q.y)
    &&& match (p.z, q.z) {
        (Some(a), Some(b)) => same_of(g, a, b),
        (None, None) => true,
        _ => false,
    }
}

/// A line is closed when its first and last vertices coincide.
pub open spec fn is_closed<T, G: Fn(T, T) -> bool>(g: G, s: Seq<Coord<T>>) -> bool {
    s.len() > 0 && same_coord(g, s[0], s[s.len() - 1])
}

/// The pairs `Q_i, R_i` cut from every segment `(s[i], s[i + 1])`, in order.
pub open spec fn cuts<T, F: Fn(T, T) -> T>(f: F, s: Seq<Coord<T>>) -> Seq<Coord<T>> {
    Seq::new(
        (2 * (s.len() - 1)) as nat,
        |k: int|
            if k % 2 == 0 {
                cut_coord(f, s[k / 2], s[k / 2 + 1])
            } else {
                cut_coord(f, s[k / 2 + 1], s[k / 2])
            },
    )
}

/// One round of corner cutting on one line or ring.
#[verifier::opaque]
pub open spec fn smooth_once<T, F: Fn(T, T) -> T, G: Fn(T, T) -> bool>(f: F, g: G, s: Seq<Coord<T>>) -> Seq<
    Coord<T>,
> {
    if s.len() < 3 || (is_closed(g, s) && s.len() < 4) {
        s
    } else if is_closed(g, s) {
        cuts(f, s).push(cut_coord(f, s[0], s[1]))
    } else {
        seq![s[0]] + cuts(f, s) + seq![s[s.len() - 1]]
    }
}

/// `n` rounds of corner cutting on one line or ring.
#[verifier::opaque]
pub open spec fn smooth_n<T, F: Fn(T, T) -> T, G: Fn(T, T) -> bool>(f: F, g: G, s: Seq<Coord<T>>, n: nat) -> Seq<
    Coord<T>,
>
    decreases n,
{
    if n == 0 {
        s
    } else {
        smooth_once(f, g, smooth_n(f, g, s, (n - 1) as nat))
    }
}

/// Every coordinate of `s` has dimension `dim`.
pub open spec fn all_dim<T>(s: Seq<Coord<T>>, dim: Dimension) -> bool {
    forall|i: int| 0 <= i < s.len() ==> coord_has_dim(#[trigger] s[i], dim)
}

/// Smoothing keeps the dimension of every coordinate.
pub proof fn lemma_smooth_n_dim<T, F: Fn(T, T) -> T, G: Fn(T, T) -> bool>(
    f: F,
    g: G,
    s: Seq<Coord<T>>,
    n: nat,
    dim: Dimension,
)
    requires
        all_dim(s, dim),
    ensures
        all_dim(smooth_n(f, g, s, n), dim),
    decreases n,
{
    reveal(smooth_n);
    if n > 0 {
        reveal(smooth_once);
        let t = smooth_n(f, g, s, (n - 1) as nat);
        lemma_smooth_n_dim(f, g, s, (n - 1) as nat, dim);
        if t.len() >= 3 && !(is_closed(g, t) && t.len() < 4) {
            let c = cuts(f, t);
            assert forall|k: int| 0 <= k < c.len() implies coord_has_dim(#[trigger] c[k], dim) by {
                assert(0 <= k / 2 && k / 2 + 1 < t.len()) by (nonlinear_arith)
                    requires
                        0 <= k < 2 * (t.len() - 1),
                ;
                assert(coord_has_dim(t[k / 2], dim));
                assert(coord_has_dim(t[k / 2 + 1], dim));
            }
            if is_closed(g, t) {
                assert(coord_has_dim(t[0], dim) && coord_has_dim(t[1], dim));
                let r = c.push(cut_coord(f, t[0], t[1]));
                assert forall|k: int| 0 <= k < r.len() implies coord_has_dim(#[trigger] r[k], dim) by {
                    if k < c.len() {
                        assert(r[k] == c[k]);
                    }
                }
            } else {
                let r = seq![t[0]] + c + seq![t[t.len() - 1]];
                assert forall|k: int| 0 <= k < r.len() implies coord_has_dim(#[trigger] r[k], dim) by {
                    if k == 0 {
                        assert(r[k] == t[0]);
                    } else if k < c.len() + 1 {
                        assert(r[k] == c[k - 1]);
                    } else {
                        assert(r[k] == t[t.len() - 1]);
                    }
                }
            }
        }
    }
}

fn cut_scalar<T: Copy, F: Fn(T, T) -> T>(f: &F, a: T, b: T) -> (r: T)
    requires
        cut_ok(*f),
    ensures
        r == cut_of(*f, a, b),
{
    f(a, b)
}

/// The point a quarter of the way from `p` to `q`.
pub fn cut_point<T: Copy, F: Fn(T, T) -> T>(f: &F, p: Coord<T>, q: Coord<T>) -> (r: Coord<T>)
    requires
        cut_ok(*f),
    ensures
        r == cut_coord(*f, p, q),
{
    let z = match (p.z, q.z) {
        (Some(a), Some(b)) => Some(cut_scalar(f, a, b)),
        _ => None,
    };
    Coord { x: cut_scalar(f, p.x, q.x), y: cut_scalar(f, p.y, q.y), z }
}

fn same_scalar<T: Copy, G: Fn(T, T) -> bool>(g: &G, a: T, b: T) -> (r: bool)
    requires
        same_ok(*g),
    ensures
        r == same_of(*g, a, b),
{
    g(a, b)
}

/// Whether `p` and `q` are the same coordinate.
pub fn same_point<T: Copy, G: Fn(T, T) -> bool>(g: &G, p: Coord<T>, q: Coord<T>) -> (r: bool)
    requires
        same_ok(*g),
    ensures
        r == same_coord(*g, p, q),
{
    let z_same = match (p.z, q.z) {
        (Some(a), Some(b)) => same_scalar(g, a, b),
        (None, None) => true,
        _ => false,
    };
    same_scalar(g, p.x, q.x) && same_scalar(g, p.y, q.y) && z_same
}

/// One round of corner cutting on a line or ring.
pub fn smooth_line_once<T: Copy, F: Fn(T, T) -> T, G: Fn(T, T) -> bool>(f: &F, g: &G, s: &Vec<Coord<T>>) -> (r: Vec<
    Coord<T>,
>)
    requires
        cut_ok(*f),
        same_ok(*g),
    ensures
        r@ == smooth_once(*f, *g, s@),
{
    reveal(smooth_once);
    let m = s.len();
    if m < 3 {
        return copy_line(s);
    }
    let closed = same_point(g, s[0], s[m - 1]);
    if closed && m < 4 {
        return copy_line(s);
    }
    let mut out: Vec<Coord<T>> = Vec::new();
    let off: usize = if closed { 0 } else { 1 };
    if !closed {
        out.push(s[0]);
    }
    let ghost c = cuts(*f, s@);
    let mut i: usize = 0;
    while i + 1 < m
        invariant
            m == s@.len(),
            m >= 3,
            cut_ok(*f),
            c == cuts(*f, s@),
            off == (if closed { 0usize } else { 1usize }),
            i < m,
            out@.len() == off + 2 * i,
            !closed ==> out@[0] == s@[0],
            forall|k: int| 0 <= k < 2 * i ==> #[trigger] out@[off + k] == c[k],
        decreases m - i,
    {
        let q = cut_point(f, s[i], s[i + 1]);
        let r = cut_point(f, s[i + 1], s[i]);
        proof {
            let k0 = 2 * i as int;
            assert(k0 % 2 == 0 && k0 / 2 == i);
            assert((k0 + 1) % 2 == 1 && (k0 + 1) / 2 == i);
        }
        out.push(q);
        out.push(r);
        i = i + 1;
    }
    if closed {
        let first = out[0];
        proof {
            assert(i + 1 == m);
            assert(c.len() == 2 * i);
            assert(c[0] == cut_coord(*f, s@[0], s@[1]));
            assert forall|k: int| 0 <= k < c.len() implies #[trigger] out@[k] == c[k] by {
                assert(out@[off + k] == c[k]);
            }
            assert(out@ =~= c);
        }
        out.push(first);
        proof {
            assert(out@ =~= c.push(cut_coord(*f, s@[0], s@[1])));
        }
    } else {
        out.push(s[m - 1]);
        proof {
            assert(i + 1 == m);
            assert(c.len() == 2 * i);
            let e = seq![s@[0]] + c + seq![s@[m - 1]];
            assert forall|k: int| 0 <= k < out@.len() implies #[trigger] out@[k] == e[k] by {
                if 1 <= k < c.len() + 1 {
                    assert(out@[off + (k - 1)] == c[k - 1]);
                }
            }
            assert(out@ =~= e);
        }
    }
    out
}

/// `n` rounds of corner cutting on a line or ring.
pub fn smooth_line<T: Copy, F: Fn(T, T) -> T, G: Fn(T, T) -> bool>(f: &F, g: &G, s: &Vec<Coord<T>>, n: u32) -> (r:
    Vec<Coord<T>>)
    requires
        cut_ok(*f),
        same_ok(*g),
    ensures
        r@ == smooth_n(*f, *g, s@, n as nat),
{
    let mut cur = copy_line(s);
    proof {
        reveal(smooth_n);
    }
    let mut k: u32 = 0;
    while k < n
        invariant
            cut_ok(*f),
            same_ok(*g),
            k <= n,
            cur@ == smooth_n(*f, *g, s@, k as nat),
        decreases n - k,
    {
        cur = smooth_line_once(f, g, &cur);
        proof {
            reveal(smooth_n);
        }
        k = k + 1;
    }
    cur
}

/// The innermost offset buffer of an array's levels.
pub open spec fn inner_offsets(levels: Seq<Seq<usize>>) -> Seq<usize> {
    levels[levels.len() - 1]
}

/// Number of lines or rings in a linear array.
pub open spec fn line_count<T: Copy>(a: GeometryArray<T>) -> nat {
    (inner_offsets(a.spec_levels()).len() - 1) as nat
}

/// Line or ring `j` of a linear array.
pub open spec fn array_line<T: Copy>(a: GeometryArray<T>, j: int) -> Seq<Coord<T>> {
    let inner = inner_offsets(a.spec_levels());
    a.spec_coords().subrange(inner[j] as int, inner[j + 1] as int)
}

/// What smoothing makes of one line: nothing where it belongs to a null
/// geometry, else `n` rounds of corner cutting.
pub open spec fn line_result<T, F: Fn(T, T) -> T, G: Fn(T, T) -> bool>(
    f: F,
    g: G,
    s: Seq<Coord<T>>,
    n: nat,
    null: bool,
) -> Seq<Coord<T>> {
    if null {
        Seq::empty()
    } else {
        smooth_n(f, g, s, n)
    }
}

/// Line or ring `j` of a linear array belongs to a null geometry.
pub open spec fn line_null<T: Copy>(a: GeometryArray<T>, j: int) -> bool {
    let l = a.spec_levels();
    let d = l.len() as int;
    exists|g: int|
        0 <= g < a.spec_buffer_len() && a.spec_null_at(g) && #[trigger] down(l, 0, d - 1, g) <= j
            < down(l, 0, d - 1, g + 1)
}

/// The lines `[start, end)` of geometry `g` of the buffers.
fn line_range<T: Copy>(arr: &GeometryArray<T>, g: usize) -> (r: (usize, usize))
    requires
        arr.wf(),
        arr.spec_levels().len() >= 1,
        g < arr.spec_buffer_len(),
    ensures
        r.0 == down(arr.spec_levels(), 0, arr.spec_levels().len() - 1, g as int),
        r.1 == down(arr.spec_levels(), 0, arr.spec_levels().len() - 1, g + 1),
{
    let ghost l = arr.spec_levels();
    let ghost n = arr.spec_coords().len();
    let d = arr.kind().depth();
    let total = arr.buffer_len();
    let mut lo: usize = g;
    let mut hi: usize = g + 1;
    let mut k: usize = 0;
    while k + 1 < d
        invariant
            arr.wf(),
            l == arr.spec_levels(),
            n == arr.spec_coords().len(),
            d == l.len(),
            d >= 1,
            k < d,
            lo <= hi <= l[k as int].len() - 1,
            down(l, k as int, d - 1, lo as int) == down(l, 0, d - 1, g as int),
            down(l, k as int, d - 1, hi as int) == down(l, 0, d - 1, g + 1),
        decreases d - k,
    {
        let ghost s = l[k as int];
        assert(levels_consistent(l, n));
        assert(valid_offsets(s, level_child_len(l, k as int, n)));
        proof {
            lemma_monotone_sorted(s, lo as int, hi as int);
            lemma_monotone_sorted(s, hi as int, s.len() - 1);
        }
        let b = arr.level(k);
        let new_lo = b.get(lo);
        let new_hi = b.get(hi);
        lo = new_lo;
        hi = new_hi;
        k = k + 1;
    }
    (lo, hi)
}

/// For every line or ring of a linear array, whether it belongs to a null geometry.
fn null_lines<T: Copy>(arr: &GeometryArray<T>) -> (mask: Vec<bool>)
    requires
        arr.wf(),
        arr.spec_levels().len() >= 1,
    ensures
        mask@.len() == line_count(*arr),
        forall|j: int| 0 <= j < mask@.len() ==> #[trigger] mask@[j] == line_null(*arr, j),
{
    let ghost l = arr.spec_levels();
    let ghost n = arr.spec_coords().len();
    let ghost d = l.len() as int;
    let validity = arr.validity();
    let total = arr.buffer_len();
    proof {
        lemma_down(l, n, 0, d - 1, 0, 0);
        if validity is Some {
            assert(arr.wf());
        }
    }
    let mut mask: Vec<bool> = Vec::new();
    let mut g: usize = 0;
    while g < total
        invariant
            arr.wf(),
            l == arr.spec_levels(),
            n == arr.spec_coords().len(),
            d == l.len(),
            d >= 1,
            levels_consistent(l, n),
            total == arr.spec_buffer_len(),
            total == l[0].len() - 1,
            g <= total,
            match validity {
                Some(v) => arr.spec_validity() == Some(v@) && v@.len() == total,
                None => arr.spec_validity() == None::<Seq<bool>>,
            },
            mask@.len() == down(l, 0, d - 1, g as int),
            forall|j: int| 0 <= j < mask@.len() ==> #[trigger] mask@[j] == line_null(*arr, j),
        decreases total - g,
    {
        let (lo, hi) = line_range(arr, g);
        proof {
            lemma_down(l, n, 0, d - 1, g as int, g + 1);
        }
        let is_null = match &validity {
            Some(v) => !v[g],
            None => false,
        };
        assert(is_null == arr.spec_null_at(g as int));
        let ghost before = mask@;
        let mut t: usize = lo;
        while t < hi
            invariant
                lo <= t <= hi,
                mask@.len() == t,
                before.len() == lo,
                forall|j: int| 0 <= j < lo ==> #[trigger] mask@[j] == before[j],
                forall|j: int| lo <= j < t ==> #[trigger] mask@[j] == is_null,
            decreases hi - t,
        {
            mask.push(is_null);
            t = t + 1;
        }
        proof {
            assert forall|j: int| lo <= j < hi implies #[trigger] mask@[j] == line_null(*arr, j) by {
                if is_null {
                    assert(down(l, 0, d - 1, g as int) <= j < down(l, 0, d - 1, g + 1));
                } else {
                    assert forall|g2: int|
                        0 <= g2 < total && arr.spec_null_at(g2) implies !(#[trigger] down(l, 0, d - 1, g2)
                        <= j < down(l, 0, d - 1, g2 + 1)) by {
                        if g2 < g {
                            lemma_down(l, n, 0, d - 1, g2 + 1, g as int);
                        } else if g2 > g {
                            lemma_down(l, n, 0, d - 1, g + 1, g2);
                        }
                    }
                }
            }
            assert forall|j: int| 0 <= j < mask@.len() implies #[trigger] mask@[j] == line_null(*arr, j) by {
                if j < lo {
                    assert(mask@[j] == before[j]);
                }
            }
        }
        g = g + 1;
    }
    proof {
        lemma_down(l, n, 0, d - 1, total as int, total as int);
    }
    mask
}

/// `r` is `a` with every line or ring smoothed `n` times by `f`, and those of
/// null geometries left empty: same shape, dimension, outer offsets, validity
/// mask, window and metadata.
pub open spec fn smoothed_array<T: Copy, F: Fn(T, T) -> T, G: Fn(T, T) -> bool>(
    f: F,
    g: G,
    a: GeometryArray<T>,
    n: nat,
    r: GeometryArray<T>,
) -> bool {
    let d = a.spec_levels().len();
    &&& r.wf()
    &&& r.spec_kind() == a.spec_kind()
    &&& r.spec_dim() == a.spec_dim()
    &&& r.spec_validity() == a.spec_validity()
    &&& r.spec_metadata() == a.spec_metadata()
    &&& r.spec_offset() == a.spec_offset()
    &&& r.spec_len() == a.spec_len()
    &&& r.spec_levels().len() == d
    &&& r.spec_levels().subrange(0, d - 1) == a.spec_levels().subrange(0, d - 1)
    &&& line_count(r) == line_count(a)
    &&& forall|j: int|
        0 <= j < line_count(a) ==> #[trigger] array_line(r, j) == line_result(
            f,
            g,
            array_line(a, j),
            n,
            line_null(a, j),
        )
}

/// Appends `src` to `dst`.
fn append_coords<T: Copy>(dst: &mut Vec<Coord<T>>, src: &Vec<Coord<T>>)
    ensures
        final(dst)@ == old(dst)@ + src@,
{
    let ghost start = dst@;
    let mut i: usize = 0;
    while i < src.len()
        invariant
            i <= src@.len(),
            dst@ == start + src@.subrange(0, i as int),
        decreases src@.len() - i,
    {
        dst.push(src[i]);
        i = i + 1;
        assert(dst@ =~= start + src@.subrange(0, i as int));
    }
    assert(src@.subrange(0, i as int) =~= src@);
}

/// The coordinates and offsets of the lines of `coords` cut by `io`, each smoothed `n` times.
fn smooth_lines<T: Copy, F: Fn(T, T) -> T, G: Fn(T, T) -> bool>(
    coords: &CoordBuffer<T>,
    inner: &OffsetBuffer,
    n_iterations: u32,
    cut: &F,
    same: &G,
    mask: &Vec<bool>,
) -> (r: (Vec<Coord<T>>, Vec<usize>))
    requires
        mask@.len() == inner@.len() - 1,
        coords.wf(),
        inner.wf(),
        valid_offsets(inner@, coords.spec_coords().len()),
        cut_ok(*cut),
        same_ok(*same),
    ensures
        r.1@.len() == inner@.len(),
        valid_offsets(r.1@, r.0@.len()),
        all_dim(r.0@, coords.spec_dim()),
        forall|k: int|
            0 <= k < inner@.len() - 1 ==> r.0@.subrange(r.1@[k] as int, r.1@[k + 1] as int)
                == line_result(
                *cut,
                *same,
                #[trigger] coords.spec_coords().subrange(inner@[k] as int, inner@[k + 1] as int),
                n_iterations as nat,
                mask@[k],
            ),
{
    let ghost io = inner@;
    let ghost n = n_iterations as nat;
    let ghost cs = coords.spec_coords();
    let dim = coords.dim();
    let nlines = inner.run_count();
    let mut new_coords: Vec<Coord<T>> = Vec::new();
    let mut new_offsets: Vec<usize> = Vec::new();
    new_offsets.push(0);
    let mut j: usize = 0;
    while j < nlines
        invariant
            mask@.len() == inner@.len() - 1,
            coords.wf(),
            inner.wf(),
            cut_ok(*cut),
            same_ok(*same),
            io == inner@,
            n == n_iterations as nat,
            cs == coords.spec_coords(),
            nlines == io.len() - 1,
            valid_offsets(io, cs.len()),
            dim == coords.spec_dim(),
            j <= nlines,
            new_offsets@.len() == j + 1,
            new_offsets@[0] == 0,
            new_offsets@[j as int] == new_coords@.len(),
            forall|k: int| #![trigger new_offsets@[k], new_offsets@[k + 1]] 0 <= k < j ==> new_offsets@[k] <= new_offsets@[k + 1],
            forall|k: int|
                0 <= k < j ==> new_coords@.subrange(
                    new_offsets@[k] as int,
                    new_offsets@[k + 1] as int,
                ) == line_result(*cut, *same, #[trigger] cs.subrange(io[k] as int, io[k + 1] as int), n, mask@[k]),
            all_dim(new_coords@, dim),
        decreases nlines - j,
    {
        let (lo, hi) = inner.run_bounds(j);
        proof {
            lemma_monotone_sorted(io, j + 1, io.len() - 1);
        }
        let line = copy_coords(coords, lo, hi);
        assert(line@ == cs.subrange(io[j as int] as int, io[j + 1] as int));
        let sm = if mask[j] {
            Vec::new()
        } else {
            smooth_line(cut, same, &line, n_iterations)
        };
        proof {
            assert forall|i: int| 0 <= i < line@.len() implies coord_has_dim(#[trigger] line@[i], dim) by {
                assert(line@[i] == cs[lo + i]);
            }
            lemma_smooth_n_dim(*cut, *same, line@, n, dim);
        }
        let ghost before = new_coords@;
        let ghost offs_before = new_offsets@;
        append_coords(&mut new_coords, &sm);
        new_offsets.push(new_coords.len());
        proof {
            let exp = |k: int| line_result(*cut, *same, cs.subrange(io[k] as int, io[k + 1] as int), n, mask@[k]);
            assert(exp(j as int) == line_result(*cut, *same, cs.subrange(io[j as int] as int, io[j as int + 1] as int), n, mask@[j as int]));
            assert(sm@ =~= exp(j as int));
            assert(sm@ == exp(j as int));
            assert forall|k: int| 0 <= k < j implies before.subrange(
                offs_before[k] as int,
                offs_before[k + 1] as int,
            ) == #[trigger] exp(k) by {
                assert(cs.subrange(io[k] as int, io[k + 1] as int) == cs.subrange(io[k] as int, io[k + 1] as int));
            }
            lemma_append_run(before, offs_before, sm@, j as int, exp, dim);
            assert(new_offsets@ == offs_before.push((before.len() + sm@.len()) as usize));
            assert forall|k: int|
                0 <= k < j + 1 implies new_coords@.subrange(
                    new_offsets@[k] as int,
                    new_offsets@[k + 1] as int,
                ) == line_result(*cut, *same, #[trigger] cs.subrange(io[k] as int, io[k + 1] as int), n, mask@[k]) by {
                assert(exp(k) == line_result(*cut, *same, cs.subrange(io[k] as int, io[k + 1] as int), n, mask@[k]));
            }
        }
        j = j + 1;
    }
    (new_coords, new_offsets)
}

/// Appending one more run to a concatenation of runs keeps the earlier runs
/// where they were and places the new one last.
proof fn lemma_append_run<T>(
    before: Seq<Coord<T>>,
    offs: Seq<usize>,
    sm: Seq<Coord<T>>,
    j: int,
    exp: spec_fn(int) -> Seq<Coord<T>>,
    dim: Dimension,
)
    requires
        0 <= j,
        offs.len() == j + 1,
        offs[0] == 0,
        offs[j] == before.len(),
        before.len() + sm.len() <= usize::MAX,
        forall|k: int| #![trigger offs[k], offs[k + 1]] 0 <= k < j ==> offs[k] <= offs[k + 1],
        forall|k: int|
            0 <= k < j ==> before.subrange(offs[k] as int, offs[k + 1] as int) == #[trigger] exp(k),
        sm == exp(j),
        all_dim(before, dim),
        all_dim(sm, dim),
    ensures
        ({
            let after = before + sm;
            let offs2 = offs.push((before.len() + sm.len()) as usize);
            &&& offs2[0] == 0
            &&& forall|k: int| #![trigger offs2[k], offs2[k + 1]] 0 <= k < j + 1 ==> offs2[k] <= offs2[k + 1]
            &&& forall|k: int|
                0 <= k < j + 1 ==> after.subrange(offs2[k] as int, offs2[k + 1] as int)
                    == #[trigger] exp(k)
            &&& all_dim(after, dim)
        }),
{
    let after = before + sm;
    let offs2 = offs.push((before.len() + sm.len()) as usize);
    assert forall|k: int| #![trigger offs2[k], offs2[k + 1]] 0 <= k < j + 1 implies offs2[k] <= offs2[k + 1] by {
        if k < j {
            assert(offs2[k] == offs[k] && offs2[k + 1] == offs[k + 1]);
        }
    }
    assert forall|k: int|
        0 <= k < j + 1 implies after.subrange(offs2[k] as int, offs2[k + 1] as int)
            == #[trigger] exp(k) by {
        if k < j {
            lemma_monotone_sorted(offs, k + 1, j);
            assert(after.subrange(offs2[k] as int, offs2[k + 1] as int) =~= before.subrange(
                offs[k] as int,
                offs[k + 1] as int,
            ));
        } else {
            assert(after.subrange(offs2[k] as int, offs2[k + 1] as int) =~= sm);
        }
    }
    assert forall|i: int| 0 <= i < after.len() implies coord_has_dim(#[trigger] after[i], dim) by {
        if i < before.len() {
            assert(after[i] == before[i]);
        } else {
            assert(after[i] == sm[i - before.len()]);
        }
    }
}

/// Copies of the first `count` offset buffers of `arr`.
fn copy_levels<T: Copy>(arr: &GeometryArray<T>, count: usize) -> (r: Vec<OffsetBuffer>)
    requires
        arr.wf(),
        count <= arr.spec_levels().len(),
    ensures
        offsets_view(r@) == arr.spec_levels().subrange(0, count as int),
        forall|i: int| 0 <= i < r@.len() ==> (#[trigger] r@[i]).wf(),
{
    let ghost lv = arr.spec_levels();
    let mut levels: Vec<OffsetBuffer> = Vec::new();
    let mut k: usize = 0;
    while k < count
        invariant
            arr.wf(),
            lv == arr.spec_levels(),
            count <= lv.len(),
            k <= count,
            levels@.len() == k,
            forall|i: int| 0 <= i < k ==> #[trigger] levels@[i]@ == lv[i],
            forall|i: int| 0 <= i < levels@.len() ==> (#[trigger] levels@[i]).wf(),
        decreases count - k,
    {
        let b = arr.level(k).copy();
        levels.push(b);
        k = k + 1;
    }
    assert(offsets_view(levels@) =~= lv.subrange(0, count as int));
    levels
}

/// Corner-cutting smoothing of every line and ring of a linear array, `n_iterations` times.
/// Point and multi-point arrays have no lines and are refused.
pub fn chaikin_array<T: Copy, F: Fn(T, T) -> T, G: Fn(T, T) -> bool>(
    arr: &GeometryArray<T>,
    n_iterations: u32,
    cut: &F,
    same: &G,
) -> (r: Result<GeometryArray<T>, GeoError>)
    requires
        arr.wf(),
        cut_ok(*cut),
        same_ok(*same),
    ensures
        r.is_ok() <==> arr.spec_kind().spec_is_linear(),
        r matches Ok(a) ==> smoothed_array(*cut, *same, *arr, n_iterations as nat, a),
        r matches Err(e) ==> e == GeoError::UnsupportedVariant,
{
    let kind = arr.kind();
    match kind {
        GeometryKind::Point => {
            return Err(GeoError::UnsupportedVariant);
        },
        GeometryKind::MultiPoint => {
            return Err(GeoError::UnsupportedVariant);
        },
        _ => {},
    }
    let ghost lv = arr.spec_levels();
    let ghost n = n_iterations as nat;
    let depth = kind.depth();
    let inner = arr.level(depth - 1);
    let coords = arr.coords();
    assert(valid_offsets(inner@, arr.spec_coords().len()));
    let mask = null_lines(arr);
    let (new_coords, new_offsets) = smooth_lines(coords, inner, n_iterations, cut, same, &mask);
    let ghost no = new_offsets@;
    let ghost nc = new_coords@;
    let mut levels = copy_levels(arr, depth - 1);
    let ghost front = levels@;
    let new_inner = OffsetBuffer::from_valid(new_offsets);
    levels.push(new_inner);
    let ghost new_lv = offsets_view(levels@);
    proof {
        assert(levels@ == front.push(new_inner));
        assert(new_lv =~= lv.subrange(0, depth - 1).push(no));
        assert forall|i: int| 0 <= i < new_lv.len() implies valid_offsets(
            #[trigger] new_lv[i],
            crate::array::level_child_len(new_lv, i, nc.len()),
        ) by {
            assert(levels_consistent(lv, arr.spec_coords().len()));
            assert(valid_offsets(lv[i], crate::array::level_child_len(lv, i, arr.spec_coords().len())));
        }
    }
    let new_buf = CoordBuffer::from_valid(new_coords, coords.dim());
    let validity = arr.shared_validity();
    let metadata = arr.metadata().copy();
    proof {
        if depth > 1 {
            assert(new_lv[0] == lv[0]);
        }
    }
    let out = GeometryArray::from_parts(
        kind,
        new_buf,
        levels,
        validity,
        metadata,
        arr.offset(),
        arr.len(),
    );
    proof {
        assert(out.spec_levels() == new_lv);
        assert(out.spec_levels().subrange(0, depth - 1) =~= lv.subrange(0, depth - 1));
        assert forall|jj: int| 0 <= jj < line_count(*arr) implies #[trigger] array_line(out, jj)
            == line_result(*cut, *same, array_line(*arr, jj), n, line_null(*arr, jj)) by {
            assert(mask@[jj] == line_null(*arr, jj));
            assert(array_line(*arr, jj) == arr.spec_coords().subrange(inner@[jj] as int, inner@[jj + 1] as int));
        }
    }
    Ok(out)
}

/// `cut_ok` of the function that `f` refers to.
pub open spec fn cut_ok_at<T, F: Fn(T, T) -> T>(f: &F) -> bool {
    cut_ok(*f)
}

/// `same_ok` of the function that `g` refers to.
pub open spec fn same_ok_at<T, G: Fn(T, T) -> bool>(g: &G) -> bool {
    same_ok(*g)
}

/// `smoothed_array` of the values that `f` and `a` refer to.
pub open spec fn smoothed_array_at<T: Copy, F: Fn(T, T) -> T, G: Fn(T, T) -> bool>(
    f: &F,
    g: &G,
    a: &GeometryArray<T>,
    n: nat,
    r: GeometryArray<T>,
) -> bool {
    smoothed_array(*f, *g, *a, n, r)
}

/// Corner-cutting smoothing of every chunk of a chunked array; the result
/// has the same chunks in the same order, each smoothed as by `chaikin_array`.
pub fn chaikin_chunked<T: Copy, F: Fn(T, T) -> T, G: Fn(T, T) -> bool>(
    arr: &ChunkedGeometryArray<T>,
    n_iterations: u32,
    cut: &F,
    same: &G,
) -> (r: Result<ChunkedGeometryArray<T>, GeoError>)
    requires
        arr.wf(),
        cut_ok(*cut),
        same_ok(*same),
    ensures
        r.is_ok() <==> (arr.spec_chunks().len() == 0 || arr.spec_chunks()[0].spec_kind().spec_is_linear()),
        r matches Ok(c) ==> {
            &&& c.wf()
            &&& c.spec_chunks().len() == arr.spec_chunks().len()
            &&& forall|i: int|
                0 <= i < arr.spec_chunks().len() ==> smoothed_array(
                    *cut,
                    *same,
                    arr.spec_chunks()[i],
                    n_iterations as nat,
                    #[trigger] c.spec_chunks()[i],
                )
        },
        r matches Err(e) ==> e == GeoError::UnsupportedVariant,
{
    let ghost s = arr.spec_chunks();
    let f = |a: &GeometryArray<T>| -> (r: Result<GeometryArray<T>, GeoError>)
        requires
            a.wf(),
            cut_ok_at(cut),
            same_ok_at(same),
        ensures
            r.is_ok() <==> a.spec_kind().spec_is_linear(),
            r matches Ok(b) ==> smoothed_array_at(cut, same, a, n_iterations as nat, b),
            r matches Err(e) ==> e == GeoError::UnsupportedVariant,
        { chaikin_array(a, n_iterations, cut, same) };
    assert(transform_ok(f));
    assert(keeps_shape(f));
    let r = arr.map_chunks(f);
    proof {
        if s.len() > 0 && r is Ok {
            let c = r->Ok_0;
            assert(call_ensures(f, (&s[0],), Ok(c.spec_chunks()[0])));
        }
        if r is Err && s.len() > 0 {
            let e = r->Err_0;
            if exists|i: int| 0 <= i < s.len() && #[trigger] call_ensures(f, (&s[i],), Err(e)) {
                let i = choose|i: int| 0 <= i < s.len() && #[trigger] call_ensures(f, (&s[i],), Err(e));
                assert(s[i].spec_kind() == s[0].spec_kind());
            } else {
                let outs = choose|outs: Seq<GeometryArray<T>>| #[trigger] results_of(f, s, outs) && !uniform(outs)
                    && (e == GeoError::ChunkVariantMismatch <==> mixed_kinds(outs)) && (e
                    == GeoError::ChunkVariantMismatch || e == GeoError::ChunkDimensionMismatch);
                assert forall|k: int| 0 <= k < outs.len() implies (#[trigger] outs[k]).spec_kind()
                    == outs[0].spec_kind() && outs[k].spec_dim() == outs[0].spec_dim() by {
                    assert(call_ensures(f, (&s[k],), Ok(outs[k])));
                    assert(call_ensures(f, (&s[0],), Ok(outs[0])));
                }
                assert(false);
            }
        }
    }
    r
}

/// A single geometry array or a chunked one.
pub enum GeometryInput<T> {
    Array(GeometryArray<T>),
    Chunked(ChunkedGeometryArray<T>),
}

impl<T: Copy> GeometryInput<T> {
    pub open spec fn wf(&self) -> bool {
        match self {
            GeometryInput::Array(a) => a.wf(),
            GeometryInput::Chunked(c) => c.wf(),
        }
    }

    /// The input holds lines or rings, or no chunk at all.
    pub open spec fn spec_is_linear(&self) -> bool {
        match self {
            GeometryInput::Array(a) => a.spec_kind().spec_is_linear(),
            GeometryInput::Chunked(c) => c.spec_chunks().len() == 0 || c.spec_chunks()[0].spec_kind().spec_is_linear(),
        }
    }
}

/// `r` is `input` with every line and ring smoothed `n` times by `f`, of the
/// same form (single or chunked) and with the same chunks.
pub open spec fn smoothed_input<T: Copy, F: Fn(T, T) -> T, G: Fn(T, T) -> bool>(
    f: F,
    g: G,
    input: GeometryInput<T>,
    n: nat,
    r: GeometryInput<T>,
) -> bool {
    match (input, r) {
        (GeometryInput::Array(a), GeometryInput::Array(b)) => smoothed_array(f, g, a, n, b),
        (GeometryInput::Chunked(a), GeometryInput::Chunked(b)) => {
            &&& b.wf()
            &&& b.spec_chunks().len() == a.spec_chunks().len()
            &&& forall|i: int|
                0 <= i < a.spec_chunks().len() ==> smoothed_array(
                    f,
                    g,
                    a.spec_chunks()[i],
                    n,
                    #[trigger] b.spec_chunks()[i],
                )
        },
        _ => false,
    }
}

/// Corner-cutting smoothing, `n_iterations` rounds, of every line and ring of
/// a single or chunked geometry array. `cut(a, b)` gives the scalar a quarter
/// of the way from `a` to `b`; `same(a, b)` tells whether two scalars are
/// equal, which decides whether a line is a closed ring. Point and
/// multi-point input is refused.
pub fn chaikin_smoothing<T: Copy, F: Fn(T, T) -> T, G: Fn(T, T) -> bool>(
    input: GeometryInput<T>,
    n_iterations: u32,
    cut: F,
    same: G,
) -> (r: Result<GeometryInput<T>, GeoError>)
    requires
        input.wf(),
        cut_ok(cut),
        same_ok(same),
    ensures
        r.is_ok() <==> input.spec_is_linear(),
        r matches Ok(out) ==> smoothed_input(cut, same, input, n_iterations as nat, out),
        r matches Err(e) ==> e == GeoError::UnsupportedVariant,
{
    match input {
        GeometryInput::Array(arr) => {
            match chaikin_array(&arr, n_iterations, &cut, &same) {
                Ok(a) => Ok(GeometryInput::Array(a)),
                Err(e) => Err(e),
            }
        },
        GeometryInput::Chunked(arr) => {
            match chaikin_chunked(&arr, n_iterations, &cut, &same) {
                Ok(c) => Ok(GeometryInput::Chunked(c)),
                Err(e) => Err(e),
            }
        },
    }
}

/// An equal copy of a line.
fn copy_line<T: Copy>(s: &Vec<Coord<T>>) -> (r: Vec<Coord<T>>)
    ensures
        r@ == s@,
{
    let mut out: Vec<Coord<T>> = Vec::new();
    let mut i: usize = 0;
    while i < s.len()
        invariant
            i <= s@.len(),
            out@ == s@.subrange(0, i as int),
        decreases s@.len() - i,
    {
        out.push(s[i]);
        i = i + 1;
        assert(out@ =~= s@.subrange(0, i as int));
    }
    assert(out@ =~= s@);
    out
}

} // verus!
