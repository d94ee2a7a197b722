pub mod index;
pub mod score;

pub use index::SearchIndex;
pub use score::{fold, score};
