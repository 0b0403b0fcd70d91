pub mod wu;
pub mod wsmeans;
