// Transfer entropy handles.
use vstd::prelude::*;

verus! {

/// Transfer entropy estimator.
pub struct TransferEntropy;

/// Transfer entropy configuration.
pub struct TEConfig;

} // verus!
