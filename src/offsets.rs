use vstd::prelude::*;
use crate::error::GeoError;

verus! {

/// `s` is a valid offset sequence over a child buffer of `child_len` items:
/// non-empty, starting at zero, non-decreasing, ending at `child_len`.
pub open spec fn valid_offsets(s: Seq<usize>, child_len: nat) -> bool {
    &&& s.len() >= 1
    &&& s[0] == 0
    &&& forall|i: int| #![trigger s[i], s[i + 1]] 0 <= i < s.len() - 1 ==> s[i] <= s[i + 1]
    &&& s[s.len() - 1] == child_len
}

/// Monotone sequences are sorted pairwise.
pub proof fn lemma_monotone_sorted(s: Seq<usize>, i: int, j: int)
    requires
        forall|k: int| #![trigger s[k], s[k + 1]] 0 <= k < s.len() - 1 ==> s[k] <= s[k + 1],
        0 <= i <= j < s.len(),
    ensures
        s[i] <= s[j],
    decreases j - i,
{
    if i < j {
        lemma_monotone_sorted(s, i, j - 1);
        assert(s[j - 1] <= s[(j - 1) + 1]);
    }
}

/// An ordered sequence of `n + 1` offsets describing `n` runs
/// `[offsets[i], offsets[i + 1])` over a child buffer.
pub struct OffsetBuffer {
    offsets: Vec<usize>,
}

impl View for OffsetBuffer {
    type V = Seq<usize>;

    closed spec fn view(&self) -> Seq<usize> {
        self.offsets@
    }
}

impl OffsetBuffer {
    /// Internal invariant: a valid offset sequence over its own last value.
    pub open spec fn wf(&self) -> bool {
        valid_offsets(self@, self@[self@.len() - 1] as nat)
    }

    /// Number of runs, `length - 1`.
    pub open spec fn spec_run_count(&self) -> nat {
        (self@.len() - 1) as nat
    }

    /// Length of the child buffer that the last offset addresses.
    pub open spec fn spec_child_len(&self) -> nat {
        self@[self@.len() - 1] as nat
    }

    /// Validates `offsets` against a child buffer of `child_len` items.
    pub fn try_new(offsets: Vec<usize>, child_len: usize) -> (r: Result<OffsetBuffer, GeoError>)
        ensures
            valid_offsets(offsets@, child_len as nat) <==> r.is_ok(),
            r matches Ok(b) ==> b@ == offsets@ && b.wf(),
            r matches Err(e) ==> e == GeoError::InvalidOffsets,
    {
        let n = offsets.len();
        if n == 0 || offsets[0] != 0 || offsets[n - 1] != child_len {
            return Err(GeoError::InvalidOffsets);
        }
        let mut i: usize = 0;
        while i + 1 < n
            invariant
                n == offsets@.len(),
                n >= 1,
                0 <= i < n,
                forall|k: int| #![trigger offsets@[k], offsets@[k + 1]] 0 <= k < i ==> offsets@[k] <= offsets@[k + 1],
            decreases n - i,
        {
            if offsets[i] > offsets[i + 1] {
                return Err(GeoError::InvalidOffsets);
            }
            i = i + 1;
        }
        Ok(OffsetBuffer { offsets })
    }

    /// Number of runs that the buffer describes.
    pub fn run_count(&self) -> (r: usize)
        requires
            self.wf(),
        ensures
            r == self.spec_run_count(),
    {
        self.offsets.len() - 1
    }

    /// Length of the child buffer addressed by the last offset.
    pub fn child_len(&self) -> (r: usize)
        requires
            self.wf(),
        ensures
            r == self.spec_child_len(),
    {
        self.offsets[self.offsets.len() - 1]
    }

    /// The raw offset at position `i`.
    pub fn get(&self, i: usize) -> (r: usize)
        requires
            i < self@.len(),
        ensures
            r == self@[i as int],
    {
        self.offsets[i]
    }

    /// Bounds `(start, end)` of run `i`.
    pub fn run_bounds(&self, i: usize) -> (r: (usize, usize))
        requires
            self.wf(),
            i < self.spec_run_count(),
        ensures
            r.0 == self@[i as int],
            r.1 == self@[i + 1],
            r.0 <= r.1,
    {
        let n = self.offsets.len();
        assert(i + 1 < n);
        (self.offsets[i], self.offsets[i + 1])
    }

    /// An equal copy.
    pub fn copy(&self) -> (r: OffsetBuffer)
        ensures
            r@ == self@,
            self.wf() ==> r.wf(),
    {
        OffsetBuffer { offsets: self.offsets.clone() }
    }

    /// Wraps offsets already known to be valid.
    pub(crate) fn from_valid(offsets: Vec<usize>) -> (r: OffsetBuffer)
        requires
            offsets@.len() >= 1,
            valid_offsets(offsets@, offsets@[offsets@.len() - 1] as nat),
        ensures
            r@ == offsets@,
            r.wf(),
    {
        OffsetBuffer { offsets }
    }

    /// A copy of the offsets.
    pub fn to_vec(&self) -> (r: Vec<usize>)
        ensures
            r@ == self@,
    {
        self.offsets.clone()
    }
}

} // verus!
