//! The feature vector of a text, held as exact fractions.

use crate::vocabulary::mass;
use vstd::prelude::*;

verus! {

/// The counts as natural numbers.
pub open spec fn as_nats(counts: Seq<usize>) -> Seq<nat> {
    counts.map_values(|c: usize| c as nat)
}

/// A feature vector over the first slots of a vocabulary. Entry `i` is the
/// fraction `counts[i] / total`, and is zero where `total` is zero.
#[derive(Debug, PartialEq, Eq)]
pub struct FeatureVector {
    /// How often the token of each slot stands in the text.
    pub counts: Vec<usize>,
    /// The sum of all counts: the common denominator of the entries.
    pub total: usize,
}

impl View for FeatureVector {
    type V = Seq<nat>;

    open spec fn view(&self) -> Seq<nat> {
        as_nats(self.counts@)
    }
}

impl FeatureVector {
    /// The denominator is the sum of the numerators.
    pub open spec fn wf(&self) -> bool {
        self.total == mass(self@)
    }
}

} // verus!
