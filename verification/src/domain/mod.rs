pub mod operation;
pub mod package;
pub mod version;
pub mod version_order;

pub use operation::BrewAction;
pub use package::{Package, PackageId, PackageKind, PackageName, UpdateState};
pub use version::Version;
pub use version_order::version_cmp;
