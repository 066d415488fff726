//! Versions of Just.

use crate::text::{concat5, decimal, decimal_text};
use semver::Version;
use vstd::prelude::*;

verus! {

/// Why a text is no semantic version: the message of `semver::Version::parse`,
/// or nothing if it is one.
pub uninterp spec fn semver_error(text: Seq<char>) -> Option<Seq<char>>;

/// `semver` orders the first version before the second.
pub uninterp spec fn semver_below(a: Seq<char>, b: Seq<char>) -> bool;

/// A release without prerelease and build parts.
pub struct Release {
    pub major: nat,
    pub minor: nat,
    pub patch: nat,
}

/// The numbers fit in what `semver` counts with.
pub open spec fn countable(release: Release) -> bool {
    release.major <= u64::MAX && release.minor <= u64::MAX && release.patch <= u64::MAX
}

pub open spec fn release_text(release: Release) -> Seq<char> {
    decimal(release.major) + "."@ + decimal(release.minor) + "."@ + decimal(release.patch)
}

/// The first release comes before the second.
pub open spec fn earlier_release(a: Release, b: Release) -> bool {
    ||| a.major < b.major
    ||| a.major == b.major && a.minor < b.minor
    ||| a.major == b.major && a.minor == b.minor && a.patch < b.patch
}

/// `semver::Version::parse`: what it accepts is named here, with the message of
/// what it refuses. A plain release whose numbers fit in 64 bits is accepted.
#[verifier::external_body]
fn semver_check(text: &str) -> (result: Result<(), String>)
    ensures
        match semver_error(text@) {
            None => result is Ok,
            Some(message) => result matches Err(shown) && shown@ == message,
        },
        forall|release: Release|
            countable(release) && text@ == #[trigger] release_text(release) ==> result is Ok,
{
    match Version::parse(text) {
        Ok(_) => Ok(()),
        Err(error) => Err(error.to_string()),
    }
}

/// `<` on `semver::Version`: precedence is named here. A version does not come
/// before itself, and plain releases are ordered by their numbers.
#[verifier::external_body]
fn semver_less(a: &str, b: &str) -> (less: bool)
    requires
        semver_error(a@) is None,
        semver_error(b@) is None,
    ensures
        less == semver_below(a@, b@),
        a@ == b@ ==> !less,
        forall|x: Release, y: Release|
            countable(x) && countable(y) && a@ == #[trigger] release_text(x) && b@
                == #[trigger] release_text(y) ==> less == earlier_release(x, y),
{
    match (Version::parse(a), Version::parse(b)) {
        (Ok(a), Ok(b)) => a < b,
        _ => false,
    }
}

/// A semantic version, as it is written.
#[derive(Debug, PartialEq, Eq)]
pub struct JustVersion {
    text: String,
}

impl View for JustVersion {
    type V = Seq<char>;

    closed spec fn view(&self) -> Seq<char> {
        self.text@
    }
}

impl JustVersion {
    #[verifier::type_invariant]
    spec fn is_version(self) -> bool {
        semver_error(self.text@) is None
    }

    /// The version that a text spells.
    pub fn parse(text: &str) -> (result: Result<JustVersion, String>)
        ensures
            match semver_error(text@) {
                None => result matches Ok(version) && version@ == text@,
                Some(message) => result matches Err(shown) && shown@ == message,
            },
            forall|release: Release|
                countable(release) && text@ == #[trigger] release_text(release) ==> result is Ok,
    {
        match semver_check(text) {
            Ok(()) => Ok(JustVersion { text: String::from_str(text) }),
            Err(message) => Err(message),
        }
    }

    /// A plain release.
    pub fn release(major: u64, minor: u64, patch: u64) -> (version: JustVersion)
        ensures
            version@ == release_text(
                Release { major: major as nat, minor: minor as nat, patch: patch as nat },
            ),
    {
        let text = concat5(
            decimal_text(major).as_str(),
            ".",
            decimal_text(minor).as_str(),
            ".",
            decimal_text(patch).as_str(),
        );
        let ghost release = Release {
            major: major as nat,
            minor: minor as nat,
            patch: patch as nat,
        };
        proof {
            assert(text@ == release_text(release));
            assert(countable(release));
        }
        let checked = semver_check(text.as_str());
        proof {
            assert(checked is Ok);
        }
        JustVersion { text }
    }

    /// The version as it is written.
    pub fn text(&self) -> (text: &str)
        ensures
            text@ == self@,
            semver_error(self@) is None,
    {
        proof {
            use_type_invariant(self);
        }
        self.text.as_str()
    }

    /// Whether this version comes before another.
    pub fn is_below(&self, other: &JustVersion) -> (below: bool)
        ensures
            below == semver_below(self@, other@),
            self@ == other@ ==> !below,
            forall|x: Release, y: Release|
                countable(x) && countable(y) && self@ == #[trigger] release_text(x) && other@
                    == #[trigger] release_text(y) ==> below == earlier_release(x, y),
    {
        proof {
            use_type_invariant(self);
            use_type_invariant(other);
        }
        semver_less(self.text.as_str(), other.text.as_str())
    }
}

impl Clone for JustVersion {
    fn clone(&self) -> (copy: JustVersion)
        ensures
            copy@ == self@,
    {
        proof {
            use_type_invariant(self);
        }
        JustVersion { text: String::from_str(self.text.as_str()) }
    }
}

} // verus!
