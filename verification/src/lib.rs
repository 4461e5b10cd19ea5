//! Retained egui: run a part of a ui in a viewport of its own and paint the result.

pub mod accuracy;
pub mod agreement;
pub mod call_laws;
pub mod exact;
pub mod finite_laws;
pub mod float;
pub mod geometry;
pub mod input;
pub mod input_laws;
pub mod layout_laws;
pub mod output;
pub mod output_laws;
pub mod pass;
pub mod pass_laws;
pub mod retain_laws;
pub mod root;
pub mod root_laws;
pub mod rounding;
pub mod scalar;
pub mod swipe_back;
pub mod swipe_laws;
pub mod transform;
pub mod transform_laws;
pub mod viewport;

pub use root::RootScope;
pub use transform::Transform;
pub use viewport::{Regui, ReguiOutput};
