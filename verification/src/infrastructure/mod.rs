pub mod error;
pub mod github;
pub mod homebrew;
pub mod privilege;

pub use error::InfrastructureError;
