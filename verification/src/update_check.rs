//! Deciding whether a published release is an update: the release's tag,
//! without its leading `v`s, must be a semantic version newer than the
//! running one, and the release must carry the asset built for this target.
//! Parsing, ordering and printing versions is the `semver` crate's work.

use vstd::prelude::*;
use crate::release::{asset_suffix, release_asset_name_for};

verus! {

#[verifier::external_type_specification]
#[verifier::external_body]
pub struct ExSemverVersion(semver::Version);

/// Whether `semver::Version::parse` accepts the text.
pub uninterp spec fn semver_valid(text: Seq<char>) -> bool;

/// Whether the version parsed from `a` is greater than the one parsed from
/// `b` in `semver::Version`'s order.
pub uninterp spec fn semver_newer(a: Seq<char>, b: Seq<char>) -> bool;

/// How `semver::Version` prints the version parsed from the text.
pub uninterp spec fn semver_display(text: Seq<char>) -> Seq<char>;

/// A version with the text it was parsed from. Only `parse_version` makes
/// one, so the version is always what `semver` parsed from the text.
pub struct ParsedVersion {
    text: String,
    version: semver::Version,
}

impl ParsedVersion {
    /// The text the version was parsed from.
    pub closed spec fn text(&self) -> Seq<char> {
        self.text@
    }
}

/// `semver::Version::parse`: a version when the text is one, with the text
/// kept beside it.
#[verifier::external_body]
fn parse_version(text: &str) -> (v: Option<ParsedVersion>)
    ensures
        v is Some == semver_valid(text@),
        v matches Some(p) ==> p.text() == text@,
{
    match semver::Version::parse(text) {
        Ok(version) => Some(ParsedVersion { text: text.to_string(), version }),
        Err(_) => None,
    }
}

/// `semver::Version`'s `>`: whether `a` is the newer version. Each version
/// is what `semver` parsed from its text, so the answer depends on the two
/// texts alone.
#[verifier::external_body]
fn is_newer(a: &ParsedVersion, b: &ParsedVersion) -> (r: bool)
    ensures
        r == semver_newer(a.text(), b.text()),
{
    a.version > b.version
}

/// `semver::Version`'s `Display`: the version as `semver` prints it.
#[verifier::external_body]
fn display_version(v: &ParsedVersion) -> (s: String)
    ensures
        s@ == semver_display(v.text()),
{
    v.version.to_string()
}

/// The text without its leading `v` characters.
pub open spec fn strip_leading_v(s: Seq<char>) -> Seq<char>
    decreases s.len(),
{
    if s.len() > 0 && s[0] == 'v' {
        strip_leading_v(s.drop_first())
    } else {
        s
    }
}

/// Remove the leading `v` characters of a release tag.
pub fn trim_leading_v(tag: &str) -> (t: &str)
    ensures
        t@ == strip_leading_v(tag@),
{
    let n = tag.unicode_len();
    let mut i: usize = 0;
    proof {
        assert(tag@.subrange(0, n as int) =~= tag@);
    }
    while i < n && tag.get_char(i) == 'v'
        invariant
            n == tag@.len(),
            i <= n,
            strip_leading_v(tag@.subrange(i as int, n as int)) == strip_leading_v(tag@),
        decreases n - i,
    {
        proof {
            assert(tag@.subrange(i as int, n as int).drop_first() =~= tag@.subrange(i + 1, n as int));
        }
        i += 1;
    }
    proof {
        if i < n {
            assert(tag@.subrange(i as int, n as int)[0] == tag@[i as int]);
        }
    }
    tag.substring_char(i, n)
}

/// The position of the first name in `names` equal to `name`.
pub open spec fn first_index(names: Seq<String>, name: Seq<char>) -> Option<int> {
    if exists|i: int| 0 <= i < names.len() && (#[trigger] names[i])@ == name {
        Some(
            choose|i: int|
                0 <= i < names.len() && (#[trigger] names[i])@ == name && forall|j: int| 0 <= j < i ==> names[j]@ != name,
        )
    } else {
        None
    }
}

/// What an update check finds: when the running version and the tag
/// (without its leading `v`s) are both versions, the tag's is newer, this
/// target has a release asset, and the release carries it, the new version as
/// `semver` prints it and the position of that asset among the release's
/// assets; otherwise nothing.
pub open spec fn spec_newer_release(current: Seq<char>, tag: Seq<char>, assets: Seq<String>, os: Seq<char>, arch: Seq<char>) -> Option<(Seq<char>, int)> {
    let t = strip_leading_v(tag);
    if semver_valid(current) && semver_valid(t) && semver_newer(t, current) {
        match asset_suffix(os, arch) {
            None => None,
            Some(suffix) => {
                let v = semver_display(t);
                match first_index(assets, "antarian-chess-rs-"@ + v + suffix) {
                    Some(i) => Some((v, i)),
                    None => None,
                }
            },
        }
    } else {
        None
    }
}

/// Check a published release against the running version `current`: its
/// `tag`, and the names of its `assets`, for the target `os` and `arch`.
pub fn newer_release(current: &str, tag: &str, assets: &Vec<String>, os: &str, arch: &str) -> (r: Option<(String, usize)>)
    ensures
        match spec_newer_release(current@, tag@, assets@, os@, arch@) {
            Some((v, i)) => r matches Some((s, k)) && s@ == v && k == i,
            None => r is None,
        },
{
    let current_version = match parse_version(current) {
        Some(v) => v,
        None => return None,
    };
    let t = trim_leading_v(tag);
    let latest = match parse_version(t) {
        Some(v) => v,
        None => return None,
    };
    if !is_newer(&latest, &current_version) {
        return None;
    }
    let text = display_version(&latest);
    let name = match release_asset_name_for(os, arch, text.as_str()) {
        Ok(name) => name,
        Err(_) => return None,
    };
    let mut i: usize = 0;
    while i < assets.len()
        invariant
            i <= assets.len(),
            forall|j: int| 0 <= j < i ==> assets@[j]@ != name@,
            semver_valid(current@),
            semver_valid(strip_leading_v(tag@)),
            semver_newer(strip_leading_v(tag@), current@),
            text@ == semver_display(strip_leading_v(tag@)),
            asset_suffix(os@, arch@) matches Some(suffix) && name@ == "antarian-chess-rs-"@ + text@ + suffix,
        decreases assets.len() - i,
    {
        let same = assets[i] == name;
        if same {
            proof {
                assert(assets@[i as int]@ == name@);
                assert(forall|j: int| 0 <= j < i ==> assets@[j]@ != name@);
                let k = choose|k: int|
                    0 <= k < assets@.len() && (#[trigger] assets@[k])@ == name@ && forall|j: int| 0 <= j < k ==> assets@[j]@ != name@;
                assert(k == i) by {
                    if k < i {
                        assert(assets@[k]@ != name@);
                    }
                    if k > i {
                        assert(assets@[i as int]@ != name@);
                    }
                }
            }
            return Some((text, i));
        }
        i += 1;
    }
    proof {
        assert(!exists|k: int| 0 <= k < assets@.len() && (#[trigger] assets@[k])@ == name@);
    }
    None
}

} // verus!
