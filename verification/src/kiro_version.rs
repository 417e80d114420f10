//! The version of the editor that requests give as their origin.
use crate::text::{copy_opt, is_blank, opt_text, same_text, trimmed};
use vstd::prelude::*;

verus! {

/// The version that queries of usage give, whatever the latest one is.
pub const USAGE_API_KIRO_VERSION: &'static str = "0.9.2";

/// The latest version that is known, if one is.
pub struct LatestVersion {
    pub version: Option<String>,
}

impl View for LatestVersion {
    type V = Option<Seq<char>>;

    open spec fn view(&self) -> Option<Seq<char>> {
        opt_text(self.version)
    }
}

impl LatestVersion {
    /// No version is known yet.
    pub fn unknown() -> (r: Self)
        ensures
            r@ is None,
    {
        LatestVersion { version: None }
    }

    /// Takes a version as the latest, and tells whether it is another than before.
    pub fn store(&mut self, version: &str) -> (changed: bool)
        ensures
            final(self)@ == Some(version@),
            changed == (old(self)@ != Some(version@)),
    {
        let changed = match &self.version {
            Some(v) => !same_text(v.as_str(), version),
            None => true,
        };
        self.version = Some(version.to_owned());
        changed
    }
}

/// The latest version that is known.
pub fn cached(latest: &LatestVersion) -> (r: Option<String>)
    ensures
        opt_text(r) == latest@,
{
    copy_opt(&latest.version)
}

/// The version to give: the latest that is known, or else `fallback`.
pub open spec fn version_given(latest: Option<Seq<char>>, fallback: Seq<char>) -> Seq<char> {
    match latest {
        Some(v) => v,
        None => fallback,
    }
}

/// The version to give: the latest that is known, or else `fallback`.
pub fn effective(latest: &LatestVersion, fallback: &str) -> (r: String)
    ensures
        r@ == version_given(latest@, fallback@),
{
    match cached(latest) {
        Some(v) => v,
        None => fallback.to_owned(),
    }
}

/// The release to take, where metadata names `release`: a blank one is none.
pub open spec fn release_taken(release: Option<Seq<char>>) -> Option<Seq<char>> {
    match release {
        Some(v) => if trimmed(v).len() == 0 {
            None
        } else {
            Some(v)
        },
        None => None,
    }
}

/// The release to take, where metadata names `release`.
pub fn current_release(release: Option<String>) -> (r: Option<String>)
    ensures
        opt_text(r) == release_taken(opt_text(release)),
{
    match release {
        Some(v) => if is_blank(v.as_str()) {
            None
        } else {
            Some(v)
        },
        None => None,
    }
}

} // verus!
