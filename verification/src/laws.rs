//! What the plans of the library achieve, proved in every world of the
//! disk model.

pub mod removal;
pub mod transfer;
pub mod walking;
