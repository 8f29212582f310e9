//! Structured failures of the manifest editor.
//!
//! Every failure is terminal for the current operation and carries enough
//! context (key names, path segments, expected and actual shapes) to be
//! shown to a user; the library itself never formats prose beyond
//! `message`.

use vstd::prelude::*;

verus! {

/// Ghost mirror of `Error`, used by specification functions.
pub enum ErrView {
    InvalidType { dep: Seq<char>, key: Seq<char>, actual: Seq<char>, expected: Seq<char> },
    UnrecognizedSource { key: Seq<char> },
    UnrecognizedEntry { key: Seq<char> },
    ParseManifest,
    NonExistentTable { table: Seq<char> },
    InvalidCargoConfig,
    InvalidToml { detail: Seq<char> },
    InvalidDependency { table: Seq<char>, key: Seq<char> },
    VirtualManifest { path: Seq<char> },
    MissingIdentity { path: Seq<char> },
    DependencyNotFound { key: Seq<char>, table: Seq<char> },
}

#[derive(Debug, Clone, PartialEq, Eq)]
pub enum Error {
    /// A recognized key has the wrong node shape.
    InvalidType { dep: String, key: String, actual: String, expected: String },
    /// A table-like dependency node has none of `git`, `path`, `version`.
    UnrecognizedSource { key: String },
    /// A dependency node is neither a string nor table-like.
    UnrecognizedEntry { key: String },
    /// The document lacks the expected package identity fields.
    ParseManifest,
    /// A requested table path is absent or a segment is not table-like.
    NonExistentTable { table: String },
    /// The `[features]` table holds something besides arrays of strings.
    InvalidCargoConfig,
    /// The text is not valid TOML; the detail carries the parser's words.
    InvalidToml { detail: String },
    /// A dependency entry in a section could not be read.
    InvalidDependency { table: String, key: String },
    /// The manifest is workspace-only and cannot be written for a package.
    VirtualManifest { path: String },
    /// The manifest lacks a `package` or `project` table.
    MissingIdentity { path: String },
    /// The dependency to remove is not in the requested table.
    DependencyNotFound { key: String, table: String },
}

impl View for Error {
    type V = ErrView;

    open spec fn view(&self) -> ErrView {
        match self {
            Error::InvalidType { dep, key, actual, expected } => ErrView::InvalidType {
                dep: dep@,
                key: key@,
                actual: actual@,
                expected: expected@,
            },
            Error::UnrecognizedSource { key } => ErrView::UnrecognizedSource { key: key@ },
            Error::UnrecognizedEntry { key } => ErrView::UnrecognizedEntry { key: key@ },
            Error::ParseManifest => ErrView::ParseManifest,
            Error::NonExistentTable { table } => ErrView::NonExistentTable { table: table@ },
            Error::InvalidCargoConfig => ErrView::InvalidCargoConfig,
            Error::InvalidToml { detail } => ErrView::InvalidToml { detail: detail@ },
            Error::InvalidDependency { table, key } => ErrView::InvalidDependency {
                table: table@,
                key: key@,
            },
            Error::VirtualManifest { path } => ErrView::VirtualManifest { path: path@ },
            Error::MissingIdentity { path } => ErrView::MissingIdentity { path: path@ },
            Error::DependencyNotFound { key, table } => ErrView::DependencyNotFound {
                key: key@,
                table: table@,
            },
        }
    }
}

/// The user-displayable description of an error.
pub open spec fn message_spec(e: ErrView) -> Seq<char> {
    match e {
        ErrView::InvalidType { dep, key, actual, expected } => "Found "@ + actual + " for "@ + key
            + " when "@ + expected + " was expected for "@ + dep,
        ErrView::UnrecognizedSource { key } => "Unrecognized dependency source for `"@ + key
            + "`"@,
        ErrView::UnrecognizedEntry { key } => "Unrecognized dependency entry format for `"@ + key
            + "`"@,
        ErrView::ParseManifest => "Unable to parse external Cargo.toml"@,
        ErrView::NonExistentTable { table } => "The table `"@ + table + "` could not be found."@,
        ErrView::InvalidCargoConfig => "Invalid cargo config"@,
        ErrView::InvalidToml { detail } => "Manifest not valid TOML: "@ + detail,
        ErrView::InvalidDependency { table, key } => "Invalid dependency "@ + table + "."@ + key,
        ErrView::VirtualManifest { path } => "Found virtual manifest at "@ + path
            + ", but this command requires running against an actual package in this workspace."@,
        ErrView::MissingIdentity { path } => "Missing expected `package` or `project` fields in "@
            + path,
        ErrView::DependencyNotFound { key, table } => "The dependency `"@ + key
            + "` could not be found in `"@ + table + "`."@,
    }
}

impl Error {
    /// The user-displayable description of the error.
    pub fn message(&self) -> (r: String)
        ensures
            r@ == message_spec(self@),
    {
        let mut out = String::new();
        match self {
            Error::InvalidType { dep, key, actual, expected } => {
                out.append("Found ");
                out.append(actual.as_str());
                out.append(" for ");
                out.append(key.as_str());
                out.append(" when ");
                out.append(expected.as_str());
                out.append(" was expected for ");
                out.append(dep.as_str());
            },
            Error::UnrecognizedSource { key } => {
                out.append("Unrecognized dependency source for `");
                out.append(key.as_str());
                out.append("`");
            },
            Error::UnrecognizedEntry { key } => {
                out.append("Unrecognized dependency entry format for `");
                out.append(key.as_str());
                out.append("`");
            },
            Error::ParseManifest => {
                out.append("Unable to parse external Cargo.toml");
            },
            Error::NonExistentTable { table } => {
                out.append("The table `");
                out.append(table.as_str());
                out.append("` could not be found.");
            },
            Error::InvalidCargoConfig => {
                out.append("Invalid cargo config");
            },
            Error::InvalidToml { detail } => {
                out.append("Manifest not valid TOML: ");
                out.append(detail.as_str());
            },
            Error::InvalidDependency { table, key } => {
                out.append("Invalid dependency ");
                out.append(table.as_str());
                out.append(".");
                out.append(key.as_str());
            },
            Error::VirtualManifest { path } => {
                out.append("Found virtual manifest at ");
                out.append(path.as_str());
                out.append(
                    ", but this command requires running against an actual package in this workspace.",
                );
            },
            Error::MissingIdentity { path } => {
                out.append("Missing expected `package` or `project` fields in ");
                out.append(path.as_str());
            },
            Error::DependencyNotFound { key, table } => {
                out.append("The dependency `");
                out.append(key.as_str());
                out.append("` could not be found in `");
                out.append(table.as_str());
                out.append("`.");
            },
        }
        out
    }
}

/// A recognized key held a node of the wrong shape.
pub fn invalid_type(dep: &str, key: &str, actual: &str, expected: &str) -> (r: Error)
    ensures
        r@ == (ErrView::InvalidType {
            dep: dep@,
            key: key@,
            actual: actual@,
            expected: expected@,
        }),
{
    Error::InvalidType {
        dep: dep.to_owned(),
        key: key.to_owned(),
        actual: actual.to_owned(),
        expected: expected.to_owned(),
    }
}

/// The document lacks the expected package identity fields.
pub fn parse_manifest_err() -> (r: Error)
    ensures
        r@ == ErrView::ParseManifest,
{
    Error::ParseManifest
}

/// A requested table is absent or a path segment is not table-like.
pub fn non_existent_table_err(table: &str) -> (r: Error)
    ensures
        r@ == (ErrView::NonExistentTable { table: table@ }),
{
    Error::NonExistentTable { table: table.to_owned() }
}

/// The `[features]` table holds something besides arrays of strings.
pub fn invalid_cargo_config() -> (r: Error)
    ensures
        r@ == ErrView::InvalidCargoConfig,
{
    Error::InvalidCargoConfig
}

} // verus!
