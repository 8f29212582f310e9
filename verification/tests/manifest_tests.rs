//! The manifest engine: parsing, identity, sections, features, and the
//! merge scenarios.

use manifest_edit::dependency::Dependency;
use manifest_edit::dependency::RegistrySource;
use manifest_edit::dependency::Source;
use manifest_edit::errors::Error;
use manifest_edit::feature_value::FeatureValue;
use manifest_edit::manifest::LocalManifest;
use manifest_edit::manifest::Manifest;

fn local(text: &str) -> LocalManifest {
    let manifest = Manifest::from_str(text).expect("fixture parses");
    LocalManifest::new("/w/Cargo.toml".to_owned(), manifest)
}

fn registry_dep(name: &str, version: &str) -> Dependency {
    Dependency::new(name).set_source(Source::Registry(RegistrySource::new(version)))
}

#[test]
fn invalid_manifest() {
    let err = Manifest::from_str(
        "[package]\nname = \"foo\"\nversion = \"0.0.1\"\n\n[dependencies]\nkey = invalid-value\n",
    )
    .unwrap_err();
    assert!(matches!(err, Error::InvalidToml { .. }));
    assert!(err.message().starts_with("Manifest not valid TOML"));
}

#[test]
fn short_form_replaced_when_flag_arrives() {
    // Inserting `dep = "1.0"` into an empty table and inserting again with
    // an optional flag turns the short form into an inline table.
    let mut lm = local("[package]\nname = \"demo\"\nversion = \"0.0.0\"\n\n[dependencies]\n");
    let deps = vec!["dependencies".to_owned()];

    lm.insert_into_table(&deps, &registry_dep("dep", "1.0")).unwrap();
    assert_eq!(lm.manifest.data["dependencies"]["dep"].as_str(), Some("1.0"));

    lm.insert_into_table(&deps, &registry_dep("dep", "1.0").set_optional(true)).unwrap();
    let entry = lm.manifest.data["dependencies"]["dep"].as_inline_table().unwrap();
    assert_eq!(entry.get("version").unwrap().as_str(), Some("1.0"));
    assert_eq!(entry.get("optional").unwrap().as_bool(), Some(true));
}

#[test]
fn renamed_insert_replaces_wholesale() {
    // A second insert under the same key with a changed package identity
    // replaces the node outright.
    let mut lm = local("[package]\nname = \"demo\"\nversion = \"0.0.0\"\n\n[dependencies]\na1 = { version = \"0.1\", registry = \"alt\" }\n");
    let deps = vec!["dependencies".to_owned()];

    lm.insert_into_table(&deps, &registry_dep("a", "0.2").set_rename("a1")).unwrap();

    let entry = lm.manifest.data["dependencies"]["a1"].as_inline_table().unwrap();
    assert_eq!(entry.get("version").unwrap().as_str(), Some("0.2"));
    assert_eq!(entry.get("package").unwrap().as_str(), Some("a"));
    assert!(entry.get("registry").is_none());
}

#[test]
fn merge_keeps_unrelated_keys() {
    // A merge that only bumps the version leaves an unrecognized extra key
    // exactly as it was.
    let mut lm = local("[package]\nname = \"demo\"\nversion = \"0.0.0\"\n\n[dependencies]\ndep = { version = \"1.0\", zzz = \"keep-me\", optional = true }\n");
    let deps = vec!["dependencies".to_owned()];

    lm.insert_into_table(&deps, &registry_dep("dep", "2.0").set_optional(true)).unwrap();

    let entry = lm.manifest.data["dependencies"]["dep"].as_inline_table().unwrap();
    assert_eq!(entry.get("version").unwrap().as_str(), Some("2.0"));
    assert_eq!(entry.get("zzz").unwrap().as_str(), Some("keep-me"));
    assert_eq!(entry.get("optional").unwrap().as_bool(), Some(true));
}

#[test]
fn merge_unions_features() {
    // Updating a dependency with features {a, b} by one with {b, c} yields
    // {a, b, c}: existing first, then the new ones, duplicates collapsed.
    let mut lm = local("[package]\nname = \"demo\"\nversion = \"0.0.0\"\n\n[dependencies]\ndep = { version = \"1.0\", features = [\"a\", \"b\"] }\n");
    let deps = vec!["dependencies".to_owned()];

    let update = registry_dep("dep", "1.0").set_features(vec!["b".to_owned(), "c".to_owned()]);
    lm.insert_into_table(&deps, &update).unwrap();

    let entry = lm.manifest.data["dependencies"]["dep"].as_inline_table().unwrap();
    let features = entry.get("features").unwrap().as_array().unwrap();
    let got: Vec<&str> = features.iter().map(|v| v.as_str().unwrap()).collect();
    assert_eq!(got, vec!["a", "b", "c"]);
}

#[test]
fn package_identity() {
    let lm = local("[package]\nname = \"demo\"\nversion = \"0.1.2\"\n");
    assert_eq!(lm.manifest.package_name().unwrap(), "demo");
    assert_eq!(lm.manifest.package_version().unwrap(), "0.1.2");

    let lm = local("[workspace]\nmembers = []\n");
    let err = lm.manifest.package_name().unwrap_err();
    assert_eq!(err.message(), "Unable to parse external Cargo.toml");
}

#[test]
fn get_table_reports_missing_segment() {
    let lm = local("[package]\nname = \"demo\"\nversion = \"0.0.0\"\n\n[dependencies]\ndep = \"1.0\"\n");
    assert!(lm.manifest.get_table(&["dependencies".to_owned()]).is_ok());

    let err = lm.manifest.get_table(&["dev-dependencies".to_owned()]).unwrap_err();
    assert_eq!(err.message(), "The table `dev-dependencies` could not be found.");

    let err = lm
        .manifest
        .get_table(&["dependencies".to_owned(), "dep".to_owned(), "x".to_owned()])
        .unwrap_err();
    assert_eq!(err.message(), "The table `dep` could not be found.");
}

#[test]
fn sections_cover_targets() {
    let text = "[package]\nname = \"demo\"\nversion = \"0.0.0\"\n\n[dependencies]\na = \"1\"\n\n[build-dependencies]\nb = \"1\"\n\n[target.'cfg(unix)'.dependencies]\nc = \"1\"\n\n[target.'cfg(unix)'.dev-dependencies]\nd = \"1\"\n";
    let lm = local(text);
    let sections = lm.manifest.get_sections();
    let paths: Vec<Vec<String>> = sections.into_iter().map(|(p, _)| p).collect();
    assert_eq!(
        paths,
        vec![
            vec!["dependencies".to_owned()],
            vec!["build-dependencies".to_owned()],
            vec!["target".to_owned(), "cfg(unix)".to_owned(), "dependencies".to_owned()],
            vec!["target".to_owned(), "cfg(unix)".to_owned(), "dev-dependencies".to_owned()],
        ]
    );
}

#[test]
fn features_are_derived_from_table_and_optional_deps() {
    let text = "[package]\nname = \"demo\"\nversion = \"0.0.0\"\n\n[features]\nextra = [\"opt\"]\n\n[dependencies]\nopt = { version = \"1\", optional = true }\nother = { version = \"1\", optional = true }\nplain = \"1\"\n";
    let lm = local(text);
    let features = lm.manifest.features().unwrap();
    assert_eq!(
        features,
        vec![
            ("extra".to_owned(), vec!["opt".to_owned()]),
            ("opt".to_owned(), vec![]),
            ("other".to_owned(), vec![]),
        ]
    );
}

#[test]
fn declared_feature_is_not_overridden_by_implicit_one() {
    let text = "[package]\nname = \"demo\"\nversion = \"0.0.0\"\n\n[features]\nopt = [\"x\"]\nx = []\n\n[dependencies]\nopt = { version = \"1\", optional = true }\n";
    let lm = local(text);
    let features = lm.manifest.features().unwrap();
    assert_eq!(
        features,
        vec![("opt".to_owned(), vec!["x".to_owned()]), ("x".to_owned(), vec![])]
    );
}

#[test]
fn invalid_features_config_is_rejected() {
    let text = "[package]\nname = \"demo\"\nversion = \"0.0.0\"\n\n[features]\nbad = \"not-an-array\"\n";
    let lm = local(text);
    let err = lm.manifest.features().unwrap_err();
    assert_eq!(err.message(), "Invalid cargo config");

    let text = "[package]\nname = \"demo\"\nversion = \"0.0.0\"\n\n[features]\nbad = [1, 2]\n";
    let lm = local(text);
    let err = lm.manifest.features().unwrap_err();
    assert_eq!(err.message(), "Invalid cargo config");
}

#[test]
fn render_rejects_manifests_without_identity() {
    let lm = local("[workspace]\nmembers = []\n");
    let err = lm.render().unwrap_err();
    assert!(matches!(err, Error::VirtualManifest { .. }));
    assert!(err.message().starts_with("Found virtual manifest at /w/Cargo.toml"));

    let lm = local("[dependencies]\ndep = \"1\"\n");
    let err = lm.render().unwrap_err();
    assert_eq!(
        err.message(),
        "Missing expected `package` or `project` fields in /w/Cargo.toml"
    );

    let lm = local("[package]\nname = \"demo\"\nversion = \"0.0.0\"\n");
    assert!(lm.render().is_ok());
}

#[test]
fn render_round_trips_untouched_text() {
    let text = "# heading comment\n[package]\nname = \"demo\"  # inline comment\nversion = \"0.0.0\"\n\n[dependencies]\ndep = \"1.0\"   # keep me\n";
    let lm = local(text);
    assert_eq!(lm.render().unwrap(), text);
}

#[test]
fn insert_preserves_comments_elsewhere() {
    let text = "[package]\nname = \"demo\"\nversion = \"0.0.0\"\n\n[dependencies]\n# a load-bearing comment\nold = \"1.0\"\n";
    let mut lm = local(text);
    lm.insert_into_table(&["dependencies".to_owned()], &registry_dep("new", "2.0")).unwrap();
    let out = lm.render().unwrap();
    assert!(out.contains("# a load-bearing comment"));
    assert!(out.contains("old = \"1.0\""));
    assert!(out.contains("new = \"2.0\""));
}

#[test]
fn get_dependency_versions_finds_every_section() {
    let text = "[package]\nname = \"demo\"\nversion = \"0.0.0\"\n\n[dependencies]\ndep = \"1.0\"\n\n[dev-dependencies]\ndep = { version = \"2.0\" }\n";
    let lm = local(text);
    let found = lm.get_dependency_versions("dep");
    assert_eq!(found.len(), 2);
    assert_eq!(found[0].0, vec!["dependencies".to_owned()]);
    assert_eq!(found[0].1.as_ref().unwrap().version(), Some("1.0"));
    assert_eq!(found[1].0, vec!["dev-dependencies".to_owned()]);
    assert_eq!(found[1].1.as_ref().unwrap().version(), Some("2.0"));
}

#[test]
fn get_dependency_versions_reports_invalid_entries() {
    let text = "[package]\nname = \"demo\"\nversion = \"0.0.0\"\n\n[dependencies]\ndep = { }\n";
    let lm = local(text);
    let found = lm.get_dependency_versions("dep");
    assert_eq!(found.len(), 1);
    let err = found[0].1.as_ref().unwrap_err();
    assert_eq!(err.message(), "Invalid dependency dependencies.dep");
}

#[test]
fn feature_values_parse_each_form() {
    assert_eq!(FeatureValue::parse("plain"), FeatureValue::Feature("plain".to_owned()));
    assert_eq!(
        FeatureValue::parse("dep:foo"),
        FeatureValue::Dep { dep_name: "foo".to_owned() }
    );
    assert_eq!(
        FeatureValue::parse("foo/extra"),
        FeatureValue::DepFeature {
            dep_name: "foo".to_owned(),
            dep_feature: "extra".to_owned(),
            weak: false,
        }
    );
    assert_eq!(
        FeatureValue::parse("foo?/extra"),
        FeatureValue::DepFeature {
            dep_name: "foo".to_owned(),
            dep_feature: "extra".to_owned(),
            weak: true,
        }
    );
}

#[test]
fn inserting_into_missing_tables_creates_them() {
    let mut lm = local("[package]\nname = \"demo\"\nversion = \"0.0.0\"\n");
    let path = vec!["target".to_owned(), "cfg(unix)".to_owned(), "dependencies".to_owned()];
    lm.insert_into_table(&path, &registry_dep("dep", "1.0")).unwrap();
    assert_eq!(
        lm.manifest.data["target"]["cfg(unix)"]["dependencies"]["dep"].as_str(),
        Some("1.0")
    );
}

#[test]
fn inserting_under_non_table_segment_fails() {
    let mut lm = local("target = 5\n\n[package]\nname = \"demo\"\nversion = \"0.0.0\"\n");
    let before = lm.manifest.data.to_string();
    let path = vec!["target".to_owned(), "x".to_owned(), "dependencies".to_owned()];
    let err = lm.insert_into_table(&path, &registry_dep("dep", "1.0")).unwrap_err();
    assert_eq!(err.message(), "The table `target` could not be found.");
    assert_eq!(lm.manifest.data.to_string(), before);
}
