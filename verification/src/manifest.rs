//! Inert data containers for a mod package: the manifest itself, its
//! dependencies and private assemblies, and the compatibility records read
//! from an external compatibility document. They carry version strings but
//! do not parse or compare them.

use vstd::prelude::*;

use crate::version::Version;

verus! {

/// A reference to another package by identifier, with an optional
/// required-ness flag and an optional minimum version kept as unparsed text.
#[derive(Debug)]
pub struct ModDependency {
    pub unique_id: String,
    pub is_required: Option<bool>,
    pub minimum_version: Option<String>,
}

/// A bundled assembly private to the package.
#[derive(Debug)]
pub struct PrivateAssembly {
    pub name: String,
    pub used_dynamically: Option<bool>,
}

/// A closed classification of a mod's health against the current host
/// version.
#[derive(Debug, Clone, Copy, PartialEq, Eq, Structural)]
pub enum CompatibilityStatus {
    Okay,
    Unofficial,
    Workaround,
    Broken,
    Obsolete,
    Abandoned,
}

/// A compatibility block: the status, a free-text summary, optionally the
/// version the mod broke in, and optionally a link to an unofficial fix.
#[derive(Debug)]
pub struct Compatibility {
    pub status: CompatibilityStatus,
    pub summary: String,
    pub broke_in: Option<String>,
    pub unofficial_version: Option<ModPage>,
}

/// One compatibility record of an external, read-only document.
#[derive(Debug)]
pub struct ModCompatibility {
    pub name: String,
    pub author: String,
    pub compatibility: Compatibility,
    pub mod_pages: Vec<ModPage>,
}

/// A reference page for a mod: a link and its text.
#[derive(Debug)]
pub struct ModPage {
    pub url: String,
    pub text: String,
}

/// The top-level description of a mod package: identity, version, and the
/// optional update, entry and dependency information.
#[derive(Debug)]
pub struct Manifest {
    pub name: String,
    pub author: String,
    pub version: Version,
    pub description: String,
    pub unique_id: String,
    pub update_keys: Option<Vec<String>>,
    pub entry_dll: Option<String>,
    pub content_pack_for: Option<ModDependency>,
    pub minimum_api_version: Option<String>,
    pub dependencies: Option<Vec<ModDependency>>,
    pub private_assemblies: Option<Vec<PrivateAssembly>>,
}

/// The declared dependencies of a manifest: what the optional field holds,
/// or the empty sequence when it is absent.
pub open spec fn spec_dependencies(m: &Manifest) -> Seq<ModDependency> {
    match m.dependencies {
        Some(d) => d@,
        None => Seq::empty(),
    }
}

impl Manifest {
    /// The display name of the package.
    pub fn name(&self) -> (r: &str)
        ensures
            r@ == self.name@,
    {
        self.name.as_str()
    }

    /// The structured version of the package.
    pub fn version(&self) -> (r: &Version)
        ensures
            *r == self.version,
    {
        &self.version
    }

    /// The unique identifier of the package.
    pub fn unique_id(&self) -> (r: &str)
        ensures
            r@ == self.unique_id@,
    {
        self.unique_id.as_str()
    }

    /// The declared dependencies: the empty slice, never a failure, when the
    /// optional field is absent.
    pub fn dependencies(&self) -> (r: &[ModDependency])
        ensures
            r@ == spec_dependencies(self),
    {
        match &self.dependencies {
            Some(d) => d.as_slice(),
            None => &[],
        }
    }
}

impl CompatibilityStatus {
    /// Whether this status passes compatibility gating: true exactly for
    /// `Okay`; the five other statuses all fail.
    pub fn inspect(&self) -> (r: bool)
        ensures
            r <==> (*self is Okay),
    {
        matches!(self, CompatibilityStatus::Okay)
    }
}

} // verus!
