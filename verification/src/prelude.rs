//! The most commonly used items, re-exported in one place.

pub use crate::grid::Alignment;
pub use crate::grid::DividerStrategy;
pub use crate::grid::Grid;
pub use crate::grid::SplitStrategy;

pub use crate::out::Action;
pub use crate::out::Handler;
pub use crate::process::DrawProcess;
pub use crate::trim::FormatError;
pub use crate::trim::TrimStrategy;
