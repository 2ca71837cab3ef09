// Causality: signal fusion methods and transfer entropy handles.
pub mod fusion;
pub mod transfer_entropy;
