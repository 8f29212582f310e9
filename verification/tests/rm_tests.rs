//! Removing dependencies and collecting stale feature references.

use manifest_edit::dependency::Dependency;
use manifest_edit::dependency::RegistrySource;
use manifest_edit::dependency::Source;
use manifest_edit::errors::Error;
use manifest_edit::manifest::LocalManifest;
use manifest_edit::manifest::Manifest;

const RM_FIXTURE: &str = "[package]\nname = \"cargo-remove-test-fixture\"\nversion = \"0.0.0\"\n\n[lib]\npath = \"dummy.rs\"\n\n[dependencies]\ndocopt = \"0.6\"\nsemver = \"0.1\"\n\n[dev-dependencies]\nregex = \"0.1.41\"\n\n[build-dependencies]\nsemver = \"0.1\"\n";

fn fixture_manifest() -> LocalManifest {
    let manifest = Manifest::from_str(RM_FIXTURE).expect("fixture parses");
    LocalManifest::new("/w/Cargo.toml".to_owned(), manifest)
}

#[test]
fn remove_existing_dependency() {
    let mut lm = fixture_manifest();
    assert!(lm.manifest.data["dependencies"].get("docopt").is_some());

    lm.remove_from_table("dependencies", "docopt").unwrap();
    lm.gc_dep("docopt");

    assert!(lm.manifest.data["dependencies"].get("docopt").is_none());
}

#[test]
fn remove_existing_dependency_from_specific_section() {
    let mut lm = fixture_manifest();

    assert!(lm.manifest.data["dev-dependencies"].get("regex").is_some());
    lm.remove_from_table("dev-dependencies", "regex").unwrap();
    lm.gc_dep("regex");
    assert!(lm.manifest.data.get("dev-dependencies").is_none());

    assert!(lm.manifest.data["build-dependencies"].get("semver").is_some());
    lm.remove_from_table("build-dependencies", "semver").unwrap();
    lm.gc_dep("semver");
    assert!(lm.manifest.data.get("build-dependencies").is_none());
}

#[test]
fn remove_section_after_removed_last_dependency() {
    let mut lm = fixture_manifest();
    assert!(lm.manifest.data["dev-dependencies"].get("regex").is_some());
    assert_eq!(lm.manifest.data["dev-dependencies"].as_table().unwrap().len(), 1);

    lm.remove_from_table("dev-dependencies", "regex").unwrap();

    assert!(lm.manifest.data.get("dev-dependencies").is_none());
}

#[test]
fn issue_32() {
    let mut lm = fixture_manifest();
    assert!(lm.manifest.data["dependencies"].get("foo").is_none());

    let deps = vec!["dependencies".to_owned()];
    lm.insert_into_table(
        &deps,
        &Dependency::new("foo").set_source(Source::Registry(RegistrySource::new("1.0"))),
    )
    .unwrap();
    lm.insert_into_table(
        &deps,
        &Dependency::new("bar").set_source(Source::Registry(RegistrySource::new("1.0.7"))),
    )
    .unwrap();

    assert!(lm.manifest.data["dependencies"].get("foo").is_some());
    assert!(lm.manifest.data["dependencies"].get("bar").is_some());

    lm.remove_from_table("dependencies", "foo").unwrap();
    lm.gc_dep("foo");
    lm.remove_from_table("dependencies", "bar").unwrap();
    lm.gc_dep("bar");

    assert!(lm.manifest.data["dependencies"].get("foo").is_none());
    assert!(lm.manifest.data["dependencies"].get("bar").is_none());
}

#[test]
fn invalid_dependency() {
    let mut lm = fixture_manifest();
    let err = lm.remove_from_table("dependencies", "invalid_dependency_name").unwrap_err();
    assert_eq!(
        err.message(),
        "The dependency `invalid_dependency_name` could not be found in `dependencies`."
    );
}

#[test]
fn invalid_section() {
    let mut lm = fixture_manifest();
    lm.remove_from_table("build-dependencies", "semver").unwrap();
    let err = lm.remove_from_table("build-dependencies", "semver").unwrap_err();
    assert_eq!(err.message(), "The table `build-dependencies` could not be found.");
}

#[test]
fn invalid_dependency_in_section() {
    let mut lm = fixture_manifest();
    let err = lm.remove_from_table("dev-dependencies", "semver").unwrap_err();
    assert_eq!(
        err.message(),
        "The dependency `semver` could not be found in `dev-dependencies`."
    );
}

#[test]
fn gc_keeps_subfeature_of_required_dependency() {
    // Removing a required dependency from one section prunes its bare
    // activation but keeps `foo/extra` references, because the dependency
    // is still required elsewhere.
    let text = "[package]\nname = \"demo\"\nversion = \"0.0.0\"\n\n[dependencies]\nfoo = \"1.0\"\nbar = \"1.0\"\n\n[features]\na = [\"foo\"]\nb = [\"foo/extra\", \"bar\"]\n";
    let manifest = Manifest::from_str(text).expect("parses");
    let mut lm = LocalManifest::new("/w/Cargo.toml".to_owned(), manifest);

    // `foo` stays present in [dependencies]: its status is Required.
    lm.gc_dep("foo");

    let features = &lm.manifest.data["features"];
    let a = features["a"].as_array().unwrap();
    assert_eq!(a.len(), 0);
    let b = features["b"].as_array().unwrap();
    assert_eq!(b.len(), 2);
    assert_eq!(b.get(0).unwrap().as_str(), Some("foo/extra"));
    assert_eq!(b.get(1).unwrap().as_str(), Some("bar"));
}

#[test]
fn gc_prunes_all_references_of_removed_dependency() {
    let text = "[package]\nname = \"demo\"\nversion = \"0.0.0\"\n\n[dependencies]\nbar = \"1.0\"\n\n[features]\na = [\"foo\"]\nb = [\"foo/extra\", \"bar\", \"dep:foo\"]\n";
    let manifest = Manifest::from_str(text).expect("parses");
    let mut lm = LocalManifest::new("/w/Cargo.toml".to_owned(), manifest);

    // `foo` is in no section: everything referring to it goes, but the
    // bare `"foo"` only because an explicit `dep:foo` exists elsewhere.
    lm.gc_dep("foo");

    let features = &lm.manifest.data["features"];
    let a = features["a"].as_array().unwrap();
    assert_eq!(a.len(), 1);
    assert_eq!(a.get(0).unwrap().as_str(), Some("foo"));
    let b = features["b"].as_array().unwrap();
    assert_eq!(b.len(), 1);
    assert_eq!(b.get(0).unwrap().as_str(), Some("bar"));
}

#[test]
fn gc_leaves_optional_dependency_alone() {
    let text = "[package]\nname = \"demo\"\nversion = \"0.0.0\"\n\n[dependencies]\nfoo = { version = \"1.0\", optional = true }\n\n[features]\na = [\"foo\"]\n";
    let manifest = Manifest::from_str(text).expect("parses");
    let mut lm = LocalManifest::new("/w/Cargo.toml".to_owned(), manifest);

    lm.gc_dep("foo");

    let a = lm.manifest.data["features"]["a"].as_array().unwrap();
    assert_eq!(a.len(), 1);
    assert_eq!(a.get(0).unwrap().as_str(), Some("foo"));
}

#[test]
fn remove_keeps_other_error_data() {
    let mut lm = fixture_manifest();
    let err = lm.remove_from_table("absent-table", "docopt").unwrap_err();
    assert!(matches!(err, Error::NonExistentTable { .. }));
}
