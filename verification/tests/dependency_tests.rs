//! The dependency model's persisted forms, and their round trips.

use manifest_edit::dependency::Dependency;
use manifest_edit::dependency::GitReference;
use manifest_edit::dependency::GitSource;
use manifest_edit::dependency::PathSource;
use manifest_edit::dependency::RegistrySource;
use manifest_edit::dependency::Source;

fn verify_roundtrip(crate_root: &str, key: &str, item: &toml_edit::Item) {
    let roundtrip = Dependency::from_toml(crate_root, key, item).unwrap();
    let round_key = roundtrip.toml_key().to_owned();
    let round_item = roundtrip.to_toml(crate_root);
    assert_eq!(key, round_key);
    assert_eq!(item.to_string(), round_item.to_string());
}

#[test]
fn to_toml_simple_dep() {
    let crate_root = "/";
    let dep = Dependency::new("dep").set_source(Source::Registry(RegistrySource::new("1.0")));
    let key = dep.toml_key().to_owned();
    let item = dep.to_toml(crate_root);

    assert_eq!(key, "dep".to_owned());

    verify_roundtrip(crate_root, &key, &item);
}

#[test]
fn to_toml_simple_dep_with_version() {
    let crate_root = "/";
    let dep = Dependency::new("dep").set_source(Source::Registry(RegistrySource::new("1.0")));
    let key = dep.toml_key().to_owned();
    let item = dep.to_toml(crate_root);

    assert_eq!(key, "dep".to_owned());
    assert_eq!(item.as_str(), Some("1.0"));

    verify_roundtrip(crate_root, &key, &item);
}

#[test]
fn to_toml_optional_dep() {
    let crate_root = "/";
    let dep = Dependency::new("dep")
        .set_source(Source::Registry(RegistrySource::new("1.0")))
        .set_optional(true);
    let key = dep.toml_key().to_owned();
    let item = dep.to_toml(crate_root);

    assert_eq!(key, "dep".to_owned());
    assert!(item.is_inline_table());

    let dep = item.as_inline_table().unwrap();
    assert_eq!(dep.get("optional").unwrap().as_bool(), Some(true));

    verify_roundtrip(crate_root, &key, &item);
}

#[test]
fn to_toml_dep_without_default_features() {
    let crate_root = "/";
    let dep = Dependency::new("dep")
        .set_source(Source::Registry(RegistrySource::new("1.0")))
        .set_default_features(false);
    let key = dep.toml_key().to_owned();
    let item = dep.to_toml(crate_root);

    assert_eq!(key, "dep".to_owned());
    assert!(item.is_inline_table());

    let dep = item.as_inline_table().unwrap();
    assert_eq!(dep.get("default-features").unwrap().as_bool(), Some(false));

    verify_roundtrip(crate_root, &key, &item);
}

#[test]
fn to_toml_dep_with_path_source() {
    let crate_root = "/foo";
    let dep = Dependency::new("dep").set_source(Source::Path(PathSource::new("/bar".to_owned())));
    let key = dep.toml_key().to_owned();
    let item = dep.to_toml(crate_root);

    assert_eq!(key, "dep".to_owned());
    assert!(item.is_inline_table());

    let dep = item.as_inline_table().unwrap();
    assert_eq!(dep.get("path").unwrap().as_str(), Some("../bar"));

    verify_roundtrip(crate_root, &key, &item);
}

#[test]
fn to_toml_dep_with_git_source() {
    let crate_root = "/";
    let dep = Dependency::new("dep")
        .set_source(Source::Git(GitSource::new("https://foor/bar.git".to_owned())));
    let key = dep.toml_key().to_owned();
    let item = dep.to_toml(crate_root);

    assert_eq!(key, "dep".to_owned());
    assert!(item.is_inline_table());

    let dep = item.as_inline_table().unwrap();
    assert_eq!(dep.get("git").unwrap().as_str(), Some("https://foor/bar.git"));

    verify_roundtrip(crate_root, &key, &item);
}

#[test]
fn to_toml_renamed_dep() {
    let crate_root = "/";
    let dep = Dependency::new("dep")
        .set_source(Source::Registry(RegistrySource::new("1.0")))
        .set_rename("d");
    let key = dep.toml_key().to_owned();
    let item = dep.to_toml(crate_root);

    assert_eq!(key, "d".to_owned());
    assert!(item.is_inline_table());

    let dep = item.as_inline_table().unwrap();
    assert_eq!(dep.get("package").unwrap().as_str(), Some("dep"));

    verify_roundtrip(crate_root, &key, &item);
}

#[test]
fn to_toml_dep_from_alt_registry() {
    let crate_root = "/";
    let dep = Dependency::new("dep")
        .set_source(Source::Registry(RegistrySource::new("1.0")))
        .set_registry("alternative");
    let key = dep.toml_key().to_owned();
    let item = dep.to_toml(crate_root);

    assert_eq!(key, "dep".to_owned());
    assert!(item.is_inline_table());

    let dep = item.as_inline_table().unwrap();
    assert_eq!(dep.get("registry").unwrap().as_str(), Some("alternative"));

    verify_roundtrip(crate_root, &key, &item);
}

#[test]
fn to_toml_complex_dep() {
    let crate_root = "/";
    let dep = Dependency::new("dep")
        .set_source(Source::Registry(RegistrySource::new("1.0")))
        .set_default_features(false)
        .set_rename("d");
    let key = dep.toml_key().to_owned();
    let item = dep.to_toml(crate_root);

    assert_eq!(key, "d".to_owned());
    assert!(item.is_inline_table());

    let dep = item.as_inline_table().unwrap();
    assert_eq!(dep.get("package").unwrap().as_str(), Some("dep"));
    assert_eq!(dep.get("version").unwrap().as_str(), Some("1.0"));
    assert_eq!(dep.get("default-features").unwrap().as_bool(), Some(false));

    verify_roundtrip(crate_root, &key, &item);
}

#[test]
fn paths_with_forward_slashes_are_left_as_is() {
    let crate_root = "/";
    let path = "/sibling/crate";
    let relpath = "sibling/crate";
    let dep = Dependency::new("dep").set_source(Source::Path(PathSource::new(path.to_owned())));
    let key = dep.toml_key().to_owned();
    let item = dep.to_toml(crate_root);

    let table = item.as_inline_table().unwrap();
    let got = table.get("path").unwrap().as_str().unwrap();
    assert_eq!(got, relpath);

    verify_roundtrip(crate_root, &key, &item);
}

#[test]
fn normalise_windows_style_paths() {
    let crate_root = "/";
    let original = "/sibling\\crate";
    let should_be = "sibling/crate";
    let dep = Dependency::new("dep")
        .set_source(Source::Path(PathSource::new(original.to_owned())));
    let item = dep.to_toml(crate_root);

    let table = item.as_inline_table().unwrap();
    let got = table.get("path").unwrap().as_str().unwrap();
    assert_eq!(got, should_be);
}

#[test]
fn semver_metadata_is_stripped() {
    let src = RegistrySource::new("0.4.3+useless-metadata.1.0.0");
    assert_eq!(src.version, "0.4.3");

    let psrc = PathSource::new("/p".to_owned()).set_version("0.4.3+meta");
    assert_eq!(psrc.version.as_deref(), Some("0.4.3"));
}

#[test]
fn features_collapse_duplicates_in_order() {
    let dep = Dependency::new("dep").set_features(vec![
        "b".to_owned(),
        "a".to_owned(),
        "b".to_owned(),
    ]);
    assert_eq!(dep.features.as_deref(), Some(&["b".to_owned(), "a".to_owned()][..]));

    let dep = dep.extend_features(vec!["c".to_owned(), "a".to_owned()]);
    assert_eq!(
        dep.features.as_deref(),
        Some(&["b".to_owned(), "a".to_owned(), "c".to_owned()][..])
    );
}

#[test]
fn clear_version_per_source() {
    let dep = Dependency::new("dep")
        .set_source(Source::Registry(RegistrySource::new("1.0")))
        .clear_version();
    assert!(dep.source.is_none());

    let dep = Dependency::new("dep")
        .set_source(Source::Path(PathSource::new("/p".to_owned()).set_version("1.0")))
        .clear_version();
    match dep.source.unwrap() {
        Source::Path(p) => assert!(p.version.is_none()),
        _ => panic!("path source expected"),
    }
}

#[test]
fn git_reference_setters_are_exclusive() {
    let src = GitSource::new("u".to_owned()).set_branch("b").set_tag("t").set_rev("r");
    assert!(src.branch.is_none());
    assert!(src.tag.is_none());
    assert_eq!(src.rev.as_deref(), Some("r"));
}

#[test]
fn source_accessors() {
    let reg = Source::Registry(RegistrySource::new("1.0"));
    assert!(reg.as_registry().is_some());
    assert!(reg.as_path().is_none());
    assert!(reg.as_git().is_none());

    let path = Source::Path(PathSource::new("/p".to_owned()));
    assert!(path.as_path().is_some());
    assert!(path.as_registry().is_none());

    let git = Source::Git(GitSource::new("u".to_owned()));
    assert!(git.as_git().is_some());
    assert!(git.as_path().is_none());
}

#[test]
fn from_toml_reads_wrong_shapes_as_errors() {
    let doc: toml_edit::Document = "a = { git = 1 }\nb = { features = \"x\", version = \"1\" }\nc = 5\nd = { }\n"
        .parse()
        .unwrap();

    let err = Dependency::from_toml("/", "a", &doc["a"]).unwrap_err();
    assert_eq!(err.message(), "Found integer for git when string was expected for a");

    let err = Dependency::from_toml("/", "b", &doc["b"]).unwrap_err();
    assert_eq!(err.message(), "Found string for features when array was expected for b");

    let err = Dependency::from_toml("/", "c", &doc["c"]).unwrap_err();
    assert_eq!(err.message(), "Unrecognized dependency entry format for `c`");

    let err = Dependency::from_toml("/", "d", &doc["d"]).unwrap_err();
    assert_eq!(err.message(), "Unrecognized dependency source for `d`");

    let doc: toml_edit::Document =
        "e = { version = \"1\", optional = \"yes\" }\nf = { version = \"1\", default-features = 1 }\n"
            .parse()
            .unwrap();

    let err = Dependency::from_toml("/", "e", &doc["e"]).unwrap_err();
    assert_eq!(err.message(), "Found string for optional when boolean was expected for e");

    let err = Dependency::from_toml("/", "f", &doc["f"]).unwrap_err();
    assert_eq!(
        err.message(),
        "Found integer for default-features when boolean was expected for f"
    );
}

#[test]
fn git_ref_selects_one_reference() {
    let src = GitSource::new("u".to_owned());
    assert_eq!(src.git_ref(), GitReference::DefaultBranch);
    let src = GitSource::new("u".to_owned()).set_rev("r");
    assert_eq!(src.git_ref(), GitReference::Rev("r".to_owned()));
    let src = GitSource::new("u".to_owned()).set_tag("t");
    assert_eq!(src.git_ref(), GitReference::Tag("t".to_owned()));
    let src = GitSource::new("u".to_owned()).set_branch("b");
    assert_eq!(src.git_ref(), GitReference::Branch("b".to_owned()));
}

#[test]
fn from_toml_resolves_relative_path() {
    let doc: toml_edit::Document = "dep = { path = \"sub/dir\" }\n".parse().unwrap();
    let dep = Dependency::from_toml("/w", "dep", &doc["dep"]).unwrap();
    match dep.source.unwrap() {
        Source::Path(p) => assert_eq!(p.path, "/w/sub/dir"),
        _ => panic!("path source expected"),
    }
}
