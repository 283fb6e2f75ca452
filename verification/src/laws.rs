//! What the operations of the sorter are for, stated apart from how they work.

pub mod answers;
pub mod asking;
pub mod carrying;
pub mod deciding;
pub mod moving;
pub mod naming;
pub mod reading;
pub mod refining;
pub mod scanning;
pub mod sentences;
pub mod serving;
pub mod standing;
pub mod telling;
pub mod texts;
