//! Verified core of a delivery-proof generator: asset discovery and
//! classification, natural-order sorting, per-asset processing with
//! failure isolation, the worker/dashboard event protocol, and the
//! dashboard's reducer state machine.

pub mod cli;
pub mod dashboard;
pub mod events;
pub mod natural;
pub mod report;
pub mod scan;
pub mod text;
