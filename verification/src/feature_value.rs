//! The grammar of one entry in a feature's component list.
//!
//! An entry either names another feature, activates a dependency without
//! its implicit feature (`dep:name`), or enables a dependency's own
//! feature (`name/feature`, weakly with `name?/feature`).

use vstd::prelude::*;
use vstd::string::*;
use crate::strutil::find_char;
use crate::strutil::find_char_exec;

verus! {

#[derive(Debug, Clone, PartialEq, Eq)]
pub enum FeatureValue {
    /// Another feature of this package.
    Feature(String),
    /// An explicit dependency activation: `dep:name`.
    Dep { dep_name: String },
    /// A dependency's own feature: `name/feature`, weak when written
    /// `name?/feature`.
    DepFeature { dep_name: String, dep_feature: String, weak: bool },
}

pub enum FeatValView {
    Feature(Seq<char>),
    Dep { dep_name: Seq<char> },
    DepFeature { dep_name: Seq<char>, dep_feature: Seq<char>, weak: bool },
}

impl View for FeatureValue {
    type V = FeatValView;

    open spec fn view(&self) -> FeatValView {
        match self {
            FeatureValue::Feature(s) => FeatValView::Feature(s@),
            FeatureValue::Dep { dep_name } => FeatValView::Dep { dep_name: dep_name@ },
            FeatureValue::DepFeature { dep_name, dep_feature, weak } => FeatValView::DepFeature {
                dep_name: dep_name@,
                dep_feature: dep_feature@,
                weak: *weak,
            },
        }
    }
}

/// How a feature-list entry reads: a `/` anywhere makes it a dependency
/// feature (split at the first `/`, a trailing `?` on the name read as
/// weak); otherwise a `dep:` prefix makes it an explicit activation; and
/// anything else names a feature.
pub open spec fn fv_parse(s: Seq<char>) -> FeatValView {
    let slash = find_char(s, '/');
    if slash < s.len() {
        let dep = s.subrange(0, slash);
        let weak = dep.len() > 0 && dep[dep.len() - 1] == '?';
        FeatValView::DepFeature {
            dep_name: if weak {
                dep.subrange(0, dep.len() - 1)
            } else {
                dep
            },
            dep_feature: s.subrange(slash + 1, s.len() as int),
            weak,
        }
    } else if s.len() >= 4 && s.subrange(0, 4) == "dep:"@ {
        FeatValView::Dep { dep_name: s.subrange(4, s.len() as int) }
    } else {
        FeatValView::Feature(s)
    }
}

/// The dependency name an entry refers to: the name itself for a bare
/// feature, the target of a `dep:` activation, the dependency of a
/// `name/feature` reference.
pub open spec fn fv_dep_name(v: FeatValView) -> Seq<char> {
    match v {
        FeatValView::Feature(s) => s,
        FeatValView::Dep { dep_name } => dep_name,
        FeatValView::DepFeature { dep_name, .. } => dep_name,
    }
}

impl FeatureValue {
    /// Reads one feature-list entry.
    pub fn parse(s: &str) -> (r: FeatureValue)
        ensures
            r@ == fv_parse(s@),
    {
        let len = s.unicode_len();
        let slash = find_char_exec(s, '/', 0);
        if slash < len {
            let dep_raw = s.substring_char(0, slash);
            let feat = s.substring_char(slash + 1, len);
            let dlen = dep_raw.unicode_len();
            let weak = dlen > 0 && dep_raw.get_char(dlen - 1) == '?';
            let dep_name = if weak {
                let trimmed = dep_raw.substring_char(0, dlen - 1);
                proof {
                    assert(trimmed@ =~= s@.subrange(0, slash as int).subrange(
                        0,
                        s@.subrange(0, slash as int).len() - 1,
                    ));
                }
                trimmed.to_owned()
            } else {
                dep_raw.to_owned()
            };
            FeatureValue::DepFeature { dep_name, dep_feature: feat.to_owned(), weak }
        } else if len >= 4 && s.get_char(0) == 'd' && s.get_char(1) == 'e' && s.get_char(2) == 'p'
            && s.get_char(3) == ':' {
            proof {
                reveal_strlit("dep:");
                assert(s@.subrange(0, 4) =~= "dep:"@);
            }
            let name = s.substring_char(4, len);
            FeatureValue::Dep { dep_name: name.to_owned() }
        } else {
            proof {
                reveal_strlit("dep:");
                if s@.len() >= 4 && s@.subrange(0, 4) == "dep:"@ {
                    assert(s@[0] == 'd' && s@[1] == 'e' && s@[2] == 'p' && s@[3] == ':') by {
                        assert(s@.subrange(0, 4)[0] == s@[0]);
                        assert(s@.subrange(0, 4)[1] == s@[1]);
                        assert(s@.subrange(0, 4)[2] == s@[2]);
                        assert(s@.subrange(0, 4)[3] == s@[3]);
                    }
                }
            }
            FeatureValue::Feature(s.to_owned())
        }
    }
}

} // verus!
