//! The embedding cache: whether vectors read back from disk fit the catalogue.
use vstd::prelude::*;

verus! {

/// Cached embedding vectors, given by their lengths, fit a catalogue of
/// `expected` movies: one vector per movie, and none of them empty.
pub open spec fn cache_fits_spec(expected: usize, lengths: Seq<usize>) -> bool {
    lengths.len() == expected && forall|k: int| 0 <= k < lengths.len() ==> #[trigger] lengths[k] > 0
}

/// Whether cached vectors of these lengths can serve a catalogue of
/// `expected` movies (one non-empty vector per movie); otherwise the
/// embeddings are computed afresh.
pub fn cache_fits(expected: usize, lengths: &Vec<usize>) -> (r: bool)
    ensures
        r == cache_fits_spec(expected, lengths@),
{
    if lengths.len() != expected {
        return false;
    }
    let mut k: usize = 0;
    while k < lengths.len()
        invariant
            k <= lengths.len(),
            forall|j: int| 0 <= j < k ==> #[trigger] lengths@[j] > 0,
        decreases lengths.len() - k,
    {
        if lengths[k] == 0 {
            return false;
        }
        k += 1;
    }
    true
}

} // verus!
