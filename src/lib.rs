//! Fixed-length texture descriptors of raster images: a column histogram of
//! bright pixels and local correlation counts of a binarized image.
pub mod correlation;
pub mod histogram;

pub use correlation::calculate_features;
pub use histogram::calculate_features_histogram;

use vstd::prelude::*;
use crate::correlation::correlation_features;
use crate::histogram::histogram;

verus! {

/// Both descriptors depend on their arguments alone and have a fixed length:
/// equal buffers with equal dimensions give equal vectors, of 100 bins and of
/// 25 features, whatever the dimensions.
pub proof fn lemma_deterministic(a: Seq<u8>, b: Seq<u8>, width: int, height: int, corr: int)
    requires
        a == b,
    ensures
        histogram(a, width, height) == histogram(b, width, height),
        histogram(a, width, height).len() == 100,
        correlation_features(a, width, height, corr) == correlation_features(
            b,
            width,
            height,
            corr,
        ),
        correlation_features(a, width, height, corr).len() == 25,
{
}

} // verus!
