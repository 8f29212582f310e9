//! The add command's parsed arguments, and what they decide: which section
//! a dependency goes to and which per-dependency flags are applied.
//!
//! Reading the command line itself, and everything that needs a registry,
//! a workspace or the file system, is a collaborator's job; this module
//! holds the decisions that are pure functions of the parsed values.

use vstd::prelude::*;
use crate::dependency::Dependency;
use crate::dependency::DepView;
use crate::strutil::strs;

verus! {

/// The subcommand: adding dependencies to a manifest.
#[derive(Debug, Clone, PartialEq, Eq)]
pub enum Command {
    /// Add dependencies to a manifest file.
    Add(Args),
}

/// Unstable flags.
#[derive(Copy, Clone, Debug, PartialEq, Eq)]
pub enum UnstableOptions {
    /// Allow git sources.
    Git,
}

/// The add command's arguments.
#[derive(Debug, Clone, PartialEq, Eq)]
pub struct Args {
    /// The packages to add, each as `<name>`, `<name>@<version-req>` or a
    /// path.
    pub crates: Vec<String>,
    /// Disable the default features.
    pub no_default_features: bool,
    /// Re-enable the default features.
    pub default_features: bool,
    /// Features to add.
    pub features: Option<Vec<String>>,
    /// Mark the dependency as optional.
    pub optional: bool,
    /// Mark the dependency as required.
    pub no_optional: bool,
    /// Rename the dependency.
    pub rename: Option<String>,
    /// Package registry for the dependency.
    pub registry: Option<String>,
    /// Add as a development dependency.
    pub dev: bool,
    /// Add as a build dependency.
    pub build: bool,
    /// Add as a dependency of the given target platform.
    pub target: Option<String>,
    /// Path to the manifest.
    pub manifest_path: Option<String>,
    /// Package to modify.
    pub pkgid: Option<String>,
    /// Run without accessing the network.
    pub offline: bool,
    /// Print nothing on success.
    pub quiet: bool,
    /// Unstable flags.
    pub unstable_features: Vec<UnstableOptions>,
    /// Git repository location.
    pub git: Option<String>,
    /// Git branch to fetch.
    pub branch: Option<String>,
    /// Git tag to fetch.
    pub tag: Option<String>,
    /// Git revision to fetch.
    pub rev: Option<String>,
}

/// An explicitly given boolean flag pair: at most one side may be set.
pub fn resolve_bool_arg(yes: bool, no: bool) -> (r: Option<bool>)
    requires
        !(yes && no),
    ensures
        r == (if yes {
            Some(true)
        } else if no {
            Some(false)
        } else {
            None::<bool>
        }),
{
    match (yes, no) {
        (true, false) => Some(true),
        (false, true) => Some(false),
        _ => None,
    }
}

/// The path of the table the arguments select.
pub open spec fn section_spec(dev: bool, build: bool, target: Option<Seq<char>>) -> Seq<Seq<char>> {
    if dev {
        seq!["dev-dependencies"@]
    } else if build {
        seq!["build-dependencies"@]
    } else {
        match target {
            Some(t) => seq!["target"@, t, "dependencies"@],
            None => seq!["dependencies"@],
        }
    }
}

impl Args {
    /// The dot-path of the dependency table the arguments select:
    /// `dev-dependencies`, `build-dependencies`, a target's `dependencies`,
    /// or the plain `dependencies` table.
    pub fn get_section(&self) -> (r: Vec<String>)
        requires
            (match self.target {
                Some(t) => !self.dev && !self.build ==> t@.len() > 0,
                None => true,
            }),
        ensures
            strs(r@) == section_spec(
                self.dev,
                self.build,
                match self.target {
                    Some(t) => Some(t@),
                    None => None,
                },
            ),
    {
        let mut out: Vec<String> = Vec::new();
        if self.dev {
            out.push("dev-dependencies".to_owned());
            proof {
                assert(strs(out@) =~= seq!["dev-dependencies"@]);
            }
        } else if self.build {
            out.push("build-dependencies".to_owned());
            proof {
                assert(strs(out@) =~= seq!["build-dependencies"@]);
            }
        } else {
            match &self.target {
                Some(target) => {
                    out.push("target".to_owned());
                    out.push(target.clone());
                    out.push("dependencies".to_owned());
                    proof {
                        assert(strs(out@) =~= seq!["target"@, self.target->Some_0@, "dependencies"@]);
                    }
                },
                None => {
                    out.push("dependencies".to_owned());
                    proof {
                        assert(strs(out@) =~= seq!["dependencies"@]);
                    }
                },
            }
        }
        out
    }

    /// What the two default-feature flags resolve to.
    pub fn default_features(&self) -> (r: Option<bool>)
        requires
            !(self.default_features && self.no_default_features),
        ensures
            r == (if self.default_features {
                Some(true)
            } else if self.no_default_features {
                Some(false)
            } else {
                None::<bool>
            }),
    {
        resolve_bool_arg(self.default_features, self.no_default_features)
    }

    /// What the two optional flags resolve to.
    pub fn optional(&self) -> (r: Option<bool>)
        requires
            !(self.optional && self.no_optional),
        ensures
            r == (if self.optional {
                Some(true)
            } else if self.no_optional {
                Some(false)
            } else {
                None::<bool>
            }),
    {
        resolve_bool_arg(self.optional, self.no_optional)
    }

    /// Applies the per-dependency flags — optional, default features,
    /// rename — to a freshly resolved dependency.
    pub fn populate_dependency(&self, dependency: Dependency) -> (r: Dependency)
        requires
            !(self.optional && self.no_optional),
            !(self.default_features && self.no_default_features),
        ensures
            r@ == (DepView {
                optional: if self.optional {
                    Some(true)
                } else if self.no_optional {
                    Some(false)
                } else {
                    None::<bool>
                },
                default_features: if self.default_features {
                    Some(true)
                } else if self.no_default_features {
                    Some(false)
                } else {
                    None::<bool>
                },
                rename: match self.rename {
                    Some(rn) => Some(rn@),
                    None => dependency@.rename,
                },
                ..dependency@
            }),
            r@.wf() == dependency@.wf(),
    {
        let optional = self.optional();
        let default_features = self.default_features();
        let mut dependency = Dependency { optional, default_features, ..dependency };
        match &self.rename {
            Some(rename) => {
                dependency = dependency.set_rename(rename.as_str());
            },
            None => {},
        }
        dependency
    }
}

} // verus!
