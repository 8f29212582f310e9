//! Adding dependencies to a manifest: fresh inserts into every section
//! kind, and merges over existing entries.

use manifest_edit::args::Args;
use manifest_edit::dependency::Dependency;
use manifest_edit::dependency::GitSource;
use manifest_edit::dependency::PathSource;
use manifest_edit::dependency::RegistrySource;
use manifest_edit::dependency::Source;
use manifest_edit::manifest::LocalManifest;
use manifest_edit::manifest::Manifest;

const ADD_FIXTURE: &str = "[package]\nname = \"cargo-list-test-fixture\"\nversion = \"0.0.0\"\n\n[lib]\npath = \"dummy.rs\"\n";

fn fixture_manifest() -> LocalManifest {
    let manifest = Manifest::from_str(ADD_FIXTURE).expect("fixture parses");
    LocalManifest::new("/w/Cargo.toml".to_owned(), manifest)
}

fn deps_path() -> Vec<String> {
    vec!["dependencies".to_owned()]
}

fn registry_dep(name: &str, version: &str) -> Dependency {
    Dependency::new(name).set_source(Source::Registry(RegistrySource::new(version)))
}

fn default_args() -> Args {
    Args {
        crates: vec!["demo".to_owned()],
        rename: None,
        dev: false,
        build: false,
        git: None,
        branch: None,
        tag: None,
        rev: None,
        target: None,
        optional: false,
        no_optional: false,
        manifest_path: None,
        pkgid: None,
        features: None,
        no_default_features: false,
        default_features: false,
        quiet: false,
        offline: true,
        registry: None,
        unstable_features: vec![],
    }
}

#[test]
fn adds_dependency() {
    let mut lm = fixture_manifest();
    assert!(lm.manifest.data.get("dependencies").is_none());

    lm.insert_into_table(&deps_path(), &registry_dep("my-package", "my-package--CURRENT_VERSION_TEST"))
        .unwrap();

    let val = &lm.manifest.data["dependencies"]["my-package"];
    assert_eq!(val.as_str().unwrap(), "my-package--CURRENT_VERSION_TEST");
}

#[test]
fn adds_prerelease_dependency() {
    let mut lm = fixture_manifest();
    assert!(lm.manifest.data.get("dependencies").is_none());

    lm.insert_into_table(
        &deps_path(),
        &registry_dep("my-package", "my-package--PRERELEASE_VERSION_TEST"),
    )
    .unwrap();

    let val = &lm.manifest.data["dependencies"]["my-package"];
    assert_eq!(val.as_str().unwrap(), "my-package--PRERELEASE_VERSION_TEST");
}

fn upgrade_test_helper(expected_prefix: &str) {
    let mut lm = fixture_manifest();
    assert!(lm.manifest.data.get("dependencies").is_none());

    let version = format!("{}my-package--CURRENT_VERSION_TEST", expected_prefix);
    lm.insert_into_table(&deps_path(), &registry_dep("my-package", &version)).unwrap();

    let val = &lm.manifest.data["dependencies"]["my-package"];
    let expected_result = format!("{}my-package--CURRENT_VERSION_TEST", expected_prefix);
    assert_eq!(val.as_str().unwrap(), expected_result);
}

#[test]
fn adds_dependency_with_upgrade_none() {
    upgrade_test_helper("=");
}

#[test]
fn adds_dependency_with_upgrade_patch() {
    upgrade_test_helper("~");
}

#[test]
fn adds_dependency_with_upgrade_minor() {
    upgrade_test_helper("^");
}

#[test]
fn adds_dependency_with_upgrade_all() {
    upgrade_test_helper(">=");
}

#[test]
fn adds_multiple_dependencies() {
    let mut lm = fixture_manifest();
    assert!(lm.manifest.data.get("dependencies").is_none());

    lm.insert_into_table(&deps_path(), &registry_dep("my-package1", "my-package1--CURRENT_VERSION_TEST"))
        .unwrap();
    lm.insert_into_table(&deps_path(), &registry_dep("my-package2", "my-package2--CURRENT_VERSION_TEST"))
        .unwrap();

    let val = &lm.manifest.data["dependencies"]["my-package1"];
    assert_eq!(val.as_str().unwrap(), "my-package1--CURRENT_VERSION_TEST");
    let val = &lm.manifest.data["dependencies"]["my-package2"];
    assert_eq!(val.as_str().unwrap(), "my-package2--CURRENT_VERSION_TEST");
}

#[test]
fn adds_renamed_dependency() {
    let mut lm = fixture_manifest();
    assert!(lm.manifest.data.get("dependencies").is_none());

    let dep = registry_dep("my-package1", "my-package1--CURRENT_VERSION_TEST").set_rename("renamed");
    lm.insert_into_table(&deps_path(), &dep).unwrap();

    let renamed = &lm.manifest.data["dependencies"]["renamed"];
    assert_eq!(renamed["version"].as_str().unwrap(), "my-package1--CURRENT_VERSION_TEST");
    assert_eq!(renamed["package"].as_str().unwrap(), "my-package1");
}

#[test]
fn adds_multiple_dev_build_dependencies() {
    let mut lm = fixture_manifest();
    assert!(lm.manifest.data.get("dev-dependencies").is_none());
    assert!(lm.manifest.data.get("build-dependencies").is_none());

    let dev_args = Args { dev: true, ..default_args() };
    let build_args = Args { build: true, ..default_args() };
    lm.insert_into_table(
        &dev_args.get_section(),
        &registry_dep("my-dev-package1", "my-dev-package1--CURRENT_VERSION_TEST"),
    )
    .unwrap();
    lm.insert_into_table(
        &dev_args.get_section(),
        &registry_dep("my-dev-package2", "my-dev-package2--CURRENT_VERSION_TEST"),
    )
    .unwrap();
    lm.insert_into_table(
        &build_args.get_section(),
        &registry_dep("my-build-package1", "my-build-package1--CURRENT_VERSION_TEST"),
    )
    .unwrap();
    lm.insert_into_table(
        &build_args.get_section(),
        &registry_dep("my-build-package2", "my-build-package2--CURRENT_VERSION_TEST"),
    )
    .unwrap();

    let toml = &lm.manifest.data;
    assert_eq!(
        toml["dev-dependencies"]["my-dev-package1"].as_str().unwrap(),
        "my-dev-package1--CURRENT_VERSION_TEST"
    );
    assert_eq!(
        toml["dev-dependencies"]["my-dev-package2"].as_str().unwrap(),
        "my-dev-package2--CURRENT_VERSION_TEST"
    );
    assert_eq!(
        toml["build-dependencies"]["my-build-package1"].as_str().unwrap(),
        "my-build-package1--CURRENT_VERSION_TEST"
    );
    assert_eq!(
        toml["build-dependencies"]["my-build-package2"].as_str().unwrap(),
        "my-build-package2--CURRENT_VERSION_TEST"
    );
}

#[test]
fn adds_specified_version_with_inline_notation() {
    let mut lm = fixture_manifest();
    assert!(lm.manifest.data.get("dependencies").is_none());

    lm.insert_into_table(&deps_path(), &registry_dep("versioned-package", ">=0.1.1")).unwrap();

    let val = &lm.manifest.data["dependencies"]["versioned-package"];
    assert_eq!(val.as_str().expect("not string"), ">=0.1.1");
}

#[test]
fn adds_multiple_dependencies_with_versions() {
    let mut lm = fixture_manifest();
    assert!(lm.manifest.data.get("dependencies").is_none());

    lm.insert_into_table(&deps_path(), &registry_dep("my-package1", ">=0.1.1")).unwrap();
    lm.insert_into_table(&deps_path(), &registry_dep("my-package2", "0.2.3")).unwrap();

    let val = &lm.manifest.data["dependencies"]["my-package1"];
    assert_eq!(val.as_str().expect("not string"), ">=0.1.1");
    let val = &lm.manifest.data["dependencies"]["my-package2"];
    assert_eq!(val.as_str().expect("not string"), "0.2.3");
}

#[test]
fn adds_multiple_dependencies_with_some_versions() {
    let mut lm = fixture_manifest();
    assert!(lm.manifest.data.get("dependencies").is_none());

    lm.insert_into_table(&deps_path(), &registry_dep("my-package1", "my-package1--CURRENT_VERSION_TEST"))
        .unwrap();
    lm.insert_into_table(&deps_path(), &registry_dep("my-package2", "0.2.3")).unwrap();

    let val = &lm.manifest.data["dependencies"]["my-package1"];
    assert_eq!(val.as_str().expect("not string"), "my-package1--CURRENT_VERSION_TEST");
    let val = &lm.manifest.data["dependencies"]["my-package2"];
    assert_eq!(val.as_str().expect("not string"), "0.2.3");
}

#[test]
fn adds_git_source_using_flag() {
    let mut lm = fixture_manifest();
    assert!(lm.manifest.data.get("dependencies").is_none());

    let dep = Dependency::new("git-package")
        .set_source(Source::Git(GitSource::new("http://localhost/git-package.git".to_owned())));
    lm.insert_into_table(&deps_path(), &dep).unwrap();

    let val = &lm.manifest.data["dependencies"]["git-package"];
    assert_eq!(val["git"].as_str(), Some("http://localhost/git-package.git"));
    assert_eq!(val.get("branch").and_then(|i| i.as_str()), None);

    assert!(lm.manifest.data.get("dev-dependencies").is_none());
    let dev_args = Args { dev: true, ..default_args() };
    let dep = Dependency::new("git-dev-pkg")
        .set_source(Source::Git(GitSource::new("http://site/gp.git".to_owned())));
    lm.insert_into_table(&dev_args.get_section(), &dep).unwrap();

    let val = &lm.manifest.data["dev-dependencies"]["git-dev-pkg"];
    assert_eq!(val["git"].as_str(), Some("http://site/gp.git"));
    assert_eq!(val.get("branch").and_then(|i| i.as_str()), None);
}

#[test]
fn adds_git_branch_using_flag() {
    let mut lm = fixture_manifest();
    assert!(lm.manifest.data.get("dependencies").is_none());

    let dep = Dependency::new("git-package").set_source(
        Source::Git(GitSource::new("http://localhost/git-package.git".to_owned()).set_branch("master")),
    );
    lm.insert_into_table(&deps_path(), &dep).unwrap();

    let val = &lm.manifest.data["dependencies"]["git-package"];
    assert_eq!(val["git"].as_str(), Some("http://localhost/git-package.git"));
    assert_eq!(val["branch"].as_str(), Some("master"));

    assert!(lm.manifest.data.get("dev-dependencies").is_none());
    let dev_args = Args { dev: true, ..default_args() };
    let dep = Dependency::new("git-dev-pkg")
        .set_source(Source::Git(GitSource::new("http://site/gp.git".to_owned()).set_branch("master")));
    lm.insert_into_table(&dev_args.get_section(), &dep).unwrap();

    let val = &lm.manifest.data["dev-dependencies"]["git-dev-pkg"];
    assert_eq!(val["git"].as_str(), Some("http://site/gp.git"));
    assert_eq!(val["branch"].as_str(), Some("master"));
}

#[test]
fn adds_local_source_using_flag() {
    let mut lm = fixture_manifest();
    assert!(lm.manifest.data.get("dependencies").is_none());

    let dep = Dependency::new("local").set_source(Source::Path(PathSource::new("/path/to/pkg".to_owned())));
    lm.insert_into_table(&deps_path(), &dep).unwrap();

    let val = &lm.manifest.data["dependencies"]["local"];
    assert_eq!(val["path"].as_str(), Some("../path/to/pkg"));

    assert!(lm.manifest.data.get("dev-dependencies").is_none());
    let dev_args = Args { dev: true, ..default_args() };
    let dep = Dependency::new("local-dev")
        .set_source(Source::Path(PathSource::new("/path/to/pkg-dev".to_owned())));
    lm.insert_into_table(&dev_args.get_section(), &dep).unwrap();

    let val = &lm.manifest.data["dev-dependencies"]["local-dev"];
    assert_eq!(val["path"].as_str(), Some("../path/to/pkg-dev"));
}

#[test]
fn adds_local_source_with_version_flag() {
    let mut lm = fixture_manifest();
    assert!(lm.manifest.data.get("dependencies").is_none());

    let dep = Dependency::new("local")
        .set_source(Source::Path(PathSource::new("/path/to/pkg".to_owned()).set_version("0.4.3")));
    lm.insert_into_table(&deps_path(), &dep).unwrap();

    let val = &lm.manifest.data["dependencies"]["local"];
    assert_eq!(val["path"].as_str(), Some("../path/to/pkg"));
    assert_eq!(val["version"].as_str(), Some("0.4.3"));

    assert!(lm.manifest.data.get("dev-dependencies").is_none());
    let dev_args = Args { dev: true, ..default_args() };
    let dep = Dependency::new("local-dev")
        .set_source(Source::Path(PathSource::new("/path/to/pkg-dev".to_owned()).set_version("0.4.3")));
    lm.insert_into_table(&dev_args.get_section(), &dep).unwrap();

    let val = &lm.manifest.data["dev-dependencies"]["local-dev"];
    assert_eq!(val["path"].as_str(), Some("../path/to/pkg-dev"));
    assert_eq!(val["version"].as_str(), Some("0.4.3"));
}

#[test]
fn adds_local_source_with_version_flag_and_semver_metadata() {
    let mut lm = fixture_manifest();
    assert!(lm.manifest.data.get("dependencies").is_none());

    let dep = Dependency::new("local").set_source(
        Source::Path(PathSource::new("/path/to/pkg".to_owned()).set_version("0.4.3+useless-metadata.1.0.0")),
    );
    lm.insert_into_table(&deps_path(), &dep).unwrap();

    let val = &lm.manifest.data["dependencies"]["local"];
    assert_eq!(val["path"].as_str(), Some("../path/to/pkg"));
    assert_eq!(val["version"].as_str(), Some("0.4.3"));

    assert!(lm.manifest.data.get("dev-dependencies").is_none());
    let dev_args = Args { dev: true, ..default_args() };
    let dep = Dependency::new("local-dev")
        .set_source(Source::Path(PathSource::new("/path/to/pkg-dev".to_owned()).set_version("0.4.3")));
    lm.insert_into_table(&dev_args.get_section(), &dep).unwrap();

    let val = &lm.manifest.data["dev-dependencies"]["local-dev"];
    assert_eq!(val["path"].as_str(), Some("../path/to/pkg-dev"));
    assert_eq!(val["version"].as_str(), Some("0.4.3"));
}

#[test]
fn adds_local_source_with_inline_version_notation() {
    let mut lm = fixture_manifest();
    assert!(lm.manifest.data.get("dependencies").is_none());

    let dep = Dependency::new("local")
        .set_source(Source::Path(PathSource::new("/path/to/pkg".to_owned()).set_version("0.4.3")));
    lm.insert_into_table(&deps_path(), &dep).unwrap();

    let val = &lm.manifest.data["dependencies"]["local"];
    assert_eq!(val["path"].as_str(), Some("../path/to/pkg"));
    assert_eq!(val["version"].as_str(), Some("0.4.3"));

    assert!(lm.manifest.data.get("dev-dependencies").is_none());
    let dev_args = Args { dev: true, ..default_args() };
    let dep = Dependency::new("local-dev")
        .set_source(Source::Path(PathSource::new("/path/to/pkg-dev".to_owned()).set_version("0.4.3")));
    lm.insert_into_table(&dev_args.get_section(), &dep).unwrap();

    let val = &lm.manifest.data["dev-dependencies"]["local-dev"];
    assert_eq!(val["path"].as_str(), Some("../path/to/pkg-dev"));
    assert_eq!(val["version"].as_str(), Some("0.4.3"));
}

#[test]
fn adds_optional_dependency() {
    let mut lm = fixture_manifest();
    assert!(lm.manifest.data.get("dependencies").is_none());

    let dep = registry_dep("versioned-package", ">=0.1.1").set_optional(true);
    lm.insert_into_table(&deps_path(), &dep).unwrap();

    let val = &lm.manifest.data["dependencies"]["versioned-package"]["optional"];
    assert_eq!(val.as_bool().expect("optional not a bool"), true);
}

#[test]
fn adds_multiple_optional_dependencies() {
    let mut lm = fixture_manifest();
    assert!(lm.manifest.data.get("dependencies").is_none());

    let args = Args { optional: true, ..default_args() };
    for name in ["my-package1", "my-package2"] {
        let dep = args.populate_dependency(registry_dep(
            name,
            &format!("{}--CURRENT_VERSION_TEST", name),
        ));
        lm.insert_into_table(&deps_path(), &dep).unwrap();
    }

    let toml = &lm.manifest.data;
    assert!(toml["dependencies"]["my-package1"]["optional"].as_bool().expect("optional not a bool"));
    assert!(toml["dependencies"]["my-package2"]["optional"].as_bool().expect("optional not a bool"));
}

#[test]
fn adds_no_default_features_dependency() {
    let mut lm = fixture_manifest();
    assert!(lm.manifest.data.get("dependencies").is_none());

    let dep = registry_dep("versioned-package", ">=0.1.1").set_default_features(false);
    lm.insert_into_table(&deps_path(), &dep).unwrap();

    let val = &lm.manifest.data["dependencies"]["versioned-package"]["default-features"];
    assert_eq!(val.as_bool().expect("default-features not a bool"), false);
}

#[test]
fn adds_multiple_no_default_features_dependencies() {
    let mut lm = fixture_manifest();
    assert!(lm.manifest.data.get("dependencies").is_none());

    let args = Args { no_default_features: true, ..default_args() };
    for name in ["my-package1", "my-package2"] {
        let dep = args.populate_dependency(registry_dep(
            name,
            &format!("{}--CURRENT_VERSION_TEST", name),
        ));
        lm.insert_into_table(&deps_path(), &dep).unwrap();
    }

    let toml = &lm.manifest.data;
    assert!(!toml["dependencies"]["my-package1"]["default-features"]
        .as_bool()
        .expect("default-features not a bool"));
    assert!(!toml["dependencies"]["my-package2"]["default-features"]
        .as_bool()
        .expect("default-features not a bool"));
}

#[test]
fn adds_alternative_registry_dependency() {
    let mut lm = fixture_manifest();
    assert!(lm.manifest.data.get("dependencies").is_none());

    let dep = registry_dep("versioned-package", ">=0.1.1").set_registry("alternative");
    lm.insert_into_table(&deps_path(), &dep).unwrap();

    let val = &lm.manifest.data["dependencies"]["versioned-package"]["registry"];
    assert_eq!(val.as_str().expect("registry not a string"), "alternative");
}

#[test]
fn adds_multiple_alternative_registry_dependencies() {
    let mut lm = fixture_manifest();
    assert!(lm.manifest.data.get("dependencies").is_none());

    for name in ["my-package1", "my-package2"] {
        let dep = registry_dep(name, &format!("{}--CURRENT_VERSION_TEST", name))
            .set_registry("alternative");
        lm.insert_into_table(&deps_path(), &dep).unwrap();
    }

    let toml = &lm.manifest.data;
    assert_eq!(
        toml["dependencies"]["my-package1"]["registry"].as_str().expect("registry not a string"),
        "alternative"
    );
    assert_eq!(
        toml["dependencies"]["my-package2"]["registry"].as_str().expect("registry not a string"),
        "alternative"
    );
}

#[test]
fn adds_dependency_with_target_triple() {
    let mut lm = fixture_manifest();
    assert!(lm.manifest.data.get("target").is_none());

    let args = Args { target: Some("i686-unknown-linux-gnu".to_owned()), ..default_args() };
    lm.insert_into_table(
        &args.get_section(),
        &registry_dep("my-package1", "my-package1--CURRENT_VERSION_TEST"),
    )
    .unwrap();

    let val = &lm.manifest.data["target"]["i686-unknown-linux-gnu"]["dependencies"]["my-package1"];
    assert_eq!(val.as_str().unwrap(), "my-package1--CURRENT_VERSION_TEST");
}

#[test]
fn adds_dependency_with_target_cfg() {
    let mut lm = fixture_manifest();
    assert!(lm.manifest.data.get("target").is_none());

    let args = Args { target: Some("cfg(unix)".to_owned()), ..default_args() };
    lm.insert_into_table(
        &args.get_section(),
        &registry_dep("my-package1", "my-package1--CURRENT_VERSION_TEST"),
    )
    .unwrap();

    let val = &lm.manifest.data["target"]["cfg(unix)"]["dependencies"]["my-package1"];
    assert_eq!(val.as_str().unwrap(), "my-package1--CURRENT_VERSION_TEST");
}

#[test]
fn adds_dependency_with_custom_target() {
    let mut lm = fixture_manifest();

    let args = Args { target: Some("windows.json".to_owned()), ..default_args() };
    lm.insert_into_table(
        &args.get_section(),
        &registry_dep("my-package1", "my-package1--CURRENT_VERSION_TEST"),
    )
    .unwrap();

    let val = &lm.manifest.data["target"]["windows.json"]["dependencies"]["my-package1"];
    assert_eq!(val.as_str(), Some("my-package1--CURRENT_VERSION_TEST"));
}

fn overwrite_dependency_test(first: &Dependency, second: &Dependency, expected: &str) {
    let mut lm = fixture_manifest();
    lm.insert_into_table(&deps_path(), first).unwrap();
    lm.insert_into_table(&deps_path(), second).unwrap();

    let expected = format!(
        "[package]\nname = \"cargo-list-test-fixture\"\nversion = \"0.0.0\"\n\n[lib]\npath = \"dummy.rs\"\n{}",
        expected
    );
    let expected_dep: toml_edit::Document = expected.parse().expect("toml parse error");
    assert_eq!(expected_dep.to_string(), lm.manifest.data.to_string().replace("\r\n", "\n"));
}

#[test]
fn overwrite_version_with_version() {
    overwrite_dependency_test(
        &registry_dep("versioned-package", "0.1.1").set_optional(true),
        &registry_dep("versioned-package", "versioned-package--CURRENT_VERSION_TEST")
            .set_optional(true),
        "\n[dependencies]\nversioned-package = { version = \"versioned-package--CURRENT_VERSION_TEST\", optional = true }\n",
    )
}

#[test]
fn overwrite_version_with_git() {
    overwrite_dependency_test(
        &registry_dep("versioned-package", "0.1.1").set_optional(true),
        &Dependency::new("versioned-package")
            .set_source(Source::Git(GitSource::new("git://git.git".to_owned())))
            .set_optional(true),
        "\n[dependencies]\nversioned-package = { optional = true, git = \"git://git.git\" }\n",
    )
}

#[test]
fn overwrite_version_with_path() {
    overwrite_dependency_test(
        &registry_dep("versioned-package", "0.1.1").set_optional(true),
        &Dependency::new("versioned-package")
            .set_source(Source::Path(PathSource::new("/foo".to_owned())))
            .set_optional(true),
        "\n[dependencies]\nversioned-package = { optional = true, path = \"../foo\" }\n",
    )
}

#[test]
fn overwrite_git_with_path() {
    overwrite_dependency_test(
        &Dependency::new("versioned-package")
            .set_source(Source::Git(GitSource::new("git://git.git".to_owned())))
            .set_optional(true),
        &Dependency::new("versioned-package")
            .set_source(Source::Path(PathSource::new("/foo".to_owned())))
            .set_optional(true),
        "\n[dependencies]\nversioned-package = { optional = true, path = \"../foo\" }\n",
    )
}

#[test]
fn overwrite_path_with_version() {
    overwrite_dependency_test(
        &Dependency::new("versioned-package")
            .set_source(Source::Path(PathSource::new("/foo".to_owned()))),
        &registry_dep("versioned-package", "versioned-package--CURRENT_VERSION_TEST"),
        "\n[dependencies]\nversioned-package = \"versioned-package--CURRENT_VERSION_TEST\"\n",
    )
}

#[test]
fn overwrite_renamed() {
    // A changed package identity replaces the node wholesale: the entry
    // freshly written under the alias carries the canonical name.
    let crate_root = "/w";
    let first = registry_dep("versioned-package", "0.1");
    let mut item = first.to_toml(crate_root);
    let second = registry_dep("versioned-package", "versioned-package--CURRENT_VERSION_TEST")
        .set_rename("renamed");
    second.update_toml(crate_root, &mut item);

    let t = item.as_inline_table().unwrap();
    assert_eq!(
        t.get("version").unwrap().as_str(),
        Some("versioned-package--CURRENT_VERSION_TEST")
    );
    assert_eq!(t.get("package").unwrap().as_str(), Some("versioned-package"));
}

#[test]
fn overwrite_renamed_optional() {
    let crate_root = "/w";
    let first = registry_dep("versioned-package", "0.1").set_optional(true);
    let mut item = first.to_toml(crate_root);
    let second = registry_dep("versioned-package", "versioned-package--CURRENT_VERSION_TEST")
        .set_rename("renamed")
        .set_optional(true);
    second.update_toml(crate_root, &mut item);

    let t = item.as_inline_table().unwrap();
    assert_eq!(
        t.get("version").unwrap().as_str(),
        Some("versioned-package--CURRENT_VERSION_TEST")
    );
    assert_eq!(t.get("package").unwrap().as_str(), Some("versioned-package"));
    assert_eq!(t.get("optional").unwrap().as_bool(), Some(true));
}

#[test]
fn overwrite_previously_renamed() {
    // Dropping the rename changes the package identity back: the entry
    // collapses to the short form.
    let crate_root = "/w";
    let first = registry_dep("a", "0.1").set_rename("a1");
    let mut item = first.to_toml(crate_root);
    let second = registry_dep("a", "0.2");
    second.update_toml(crate_root, &mut item);

    assert_eq!(item.as_str(), Some("0.2"));
}
