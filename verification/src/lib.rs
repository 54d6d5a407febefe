pub mod text;
pub mod segment;
pub mod tagged;
pub mod plan;
pub mod freeform;
pub mod role;
pub mod splice;
pub mod restrip;
pub mod laws;
