pub mod color;
pub mod roles;
pub mod variant;

pub use color::TonePolarity;
pub use roles::DynamicColorRole;
pub use variant::Variant;
