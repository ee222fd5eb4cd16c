use sdv_mods::CompatibilityStatus;
use sdv_mods::Manifest;
use sdv_mods::ModDependency;
use sdv_mods::Version;

fn sample_manifest(dependencies: Option<Vec<ModDependency>>) -> Manifest {
    Manifest {
        name: "Example Mod".to_owned(),
        author: "someone".to_owned(),
        version: Version::new(1, 2, 3, String::new()),
        description: "an example".to_owned(),
        unique_id: "someone.example".to_owned(),
        update_keys: None,
        entry_dll: None,
        content_pack_for: None,
        minimum_api_version: None,
        dependencies,
        private_assemblies: None,
    }
}

#[test]
fn dependencies_of_a_manifest_without_any_is_empty() {
    let m = sample_manifest(None);
    assert!(m.dependencies().is_empty());
}

#[test]
fn dependencies_hands_back_what_the_manifest_holds() {
    let dep = ModDependency {
        unique_id: "other.mod".to_owned(),
        is_required: Some(true),
        minimum_version: Some("2.0".to_owned()),
    };
    let m = sample_manifest(Some(vec![dep]));
    let deps = m.dependencies();
    assert_eq!(deps.len(), 1);
    assert_eq!(deps[0].unique_id, "other.mod");
    assert_eq!(deps[0].is_required, Some(true));
    assert_eq!(deps[0].minimum_version.as_deref(), Some("2.0"));
}

#[test]
fn manifest_getters_hand_back_the_fields() {
    let m = sample_manifest(None);
    assert_eq!(m.name(), "Example Mod");
    assert_eq!(m.unique_id(), "someone.example");
    assert_eq!(m.version(), &Version::new(1, 2, 3, String::new()));
}

#[test]
fn only_the_okay_status_passes_inspection() {
    assert!(CompatibilityStatus::Okay.inspect());
    assert!(!CompatibilityStatus::Unofficial.inspect());
    assert!(!CompatibilityStatus::Workaround.inspect());
    assert!(!CompatibilityStatus::Broken.inspect());
    assert!(!CompatibilityStatus::Obsolete.inspect());
    assert!(!CompatibilityStatus::Abandoned.inspect());
}
