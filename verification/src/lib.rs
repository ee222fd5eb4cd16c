//! Version parsing and comparison for a mod/plugin manifest ecosystem.
//!
//! The core is `Version`: a loosely-formatted version value parsed from a
//! dotted string, with a literal, non-semantic ordering. `comp_version` is an
//! older, independent comparison over purely numeric dotted strings. The
//! manifest types are inert data containers that carry version strings.

pub mod digits;
pub mod manifest;
pub mod utils;
pub mod version;

pub use manifest::Compatibility;
pub use manifest::CompatibilityStatus;
pub use manifest::Manifest;
pub use manifest::ModCompatibility;
pub use manifest::ModDependency;
pub use manifest::ModPage;
pub use manifest::PrivateAssembly;
pub use utils::comp_version;
pub use utils::is_numeric_version;
pub use version::ParseError;
pub use version::Version;
