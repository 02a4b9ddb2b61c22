//! What the library promises of its operations, stated of their inputs and
//! results.
pub mod blocking;
pub mod captioning;
pub mod drawing;
pub mod extracting;
pub mod gathering;
pub mod indexing;
pub mod loading;
pub mod naming;
pub mod navigating;
pub mod parsing;
pub mod printing;
pub mod reading;
pub mod relating;
pub mod resources;
pub mod storing;
pub mod texturing;
pub mod wording;
