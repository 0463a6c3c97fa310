//! Self-update of the CLI: comparing the running version with the latest
//! release, and naming the release asset and URLs. Fetching and replacing the
//! binary happen outside this crate.

use vstd::prelude::*;

use crate::text::same_text;

verus! {

#[verifier::external_type_specification]
#[verifier::external_body]
pub struct ExSemverVersion(semver::Version);

/// Whether semver accepts `text` as a version (`Version::parse` succeeds).
pub uninterp spec fn semver_valid(text: Seq<char>) -> bool;

/// Whether the version written `later` has higher precedence than the one
/// written `earlier` (semver's order on `Version`).
pub uninterp spec fn semver_newer(later: Seq<char>, earlier: Seq<char>) -> bool;

/// A version as semver parsed it, together with its text.
pub struct SemVersion {
    text: String,
    version: semver::Version,
}

impl View for SemVersion {
    type V = Seq<char>;

    closed spec fn view(&self) -> Seq<char> {
        self.text@
    }
}

/// `semver::Version::parse`. Claimed: it succeeds exactly when
/// `semver_valid` holds of the text, and the version keeps that text.
#[verifier::external_body]
fn parse_semver(text: &str) -> (r: Option<SemVersion>)
    ensures
        r is Some <==> semver_valid(text@),
        r matches Some(v) ==> v@ == text@,
{
    match semver::Version::parse(text) {
        Ok(version) => Some(SemVersion { text: text.to_string(), version }),
        Err(_) => None,
    }
}

/// `>` on `semver::Version` (its derived `Ord`). Claimed: the result is
/// `semver_newer` of the two texts, and a version is not newer than itself.
#[verifier::external_body]
fn semver_gt(later: &SemVersion, earlier: &SemVersion) -> (r: bool)
    ensures
        r == semver_newer(later@, earlier@),
        later@ == earlier@ ==> !r,
{
    later.version > earlier.version
}

/// Why an update check failed.
#[derive(Debug, Clone)]
pub enum UpdateError {
    /// A version text that semver rejects.
    InvalidVersion(String),
    /// No prebuilt binary for this platform.
    NoPrebuiltBinary,
}

/// Number of `v`s at the start of `s`.
pub open spec fn leading_vs(s: Seq<char>) -> nat
    decreases s.len(),
{
    if s.len() > 0 && s[0] == 'v' {
        1 + leading_vs(s.subrange(1, s.len() as int))
    } else {
        0
    }
}

/// `s` without its leading `v`s (`str::trim_start_matches('v')`).
pub open spec fn without_v(s: Seq<char>) -> Seq<char> {
    s.subrange(leading_vs(s) as int, s.len() as int)
}

/// Removes the leading `v`s of a tag such as `v0.1.2`.
pub fn strip_v(s: &str) -> (r: &str)
    ensures
        r@ == without_v(s@),
{
    let n = s.unicode_len();
    let mut i: usize = 0;
    assert(s@.subrange(0, n as int) =~= s@);
    while i < n && s.get_char(i) == 'v'
        invariant
            n == s@.len(),
            i <= n,
            leading_vs(s@) == i + leading_vs(s@.subrange(i as int, n as int)),
        decreases n - i,
    {
        assert(s@.subrange(i as int, n as int).subrange(1, n - i) =~= s@.subrange(i + 1, n as int));
        i = i + 1;
    }
    if i < n {
        assert(s@.subrange(i as int, n as int)[0] == s@[i as int]);
    }
    s.substring_char(i, n)
}

/// Parses a version string, tolerating leading `v`s.
pub fn parse_version(s: &str) -> (r: Result<SemVersion, UpdateError>)
    ensures
        match r {
            Ok(v) => semver_valid(without_v(s@)) && v@ == without_v(s@),
            Err(UpdateError::InvalidVersion(t)) => !semver_valid(without_v(s@)) && t@ == s@,
            Err(_) => false,
        },
{
    match parse_semver(strip_v(s)) {
        Some(v) => Ok(v),
        None => Err(UpdateError::InvalidVersion(String::from_str(s))),
    }
}

/// Compares the running version `current` with the latest release `tag`:
/// the newer version (without its leading `v`s) when the release is newer,
/// `None` when already up to date.
pub fn check_newer(current: &str, tag: &str) -> (r: Result<Option<String>, UpdateError>)
    ensures
        !semver_valid(without_v(current@)) ==> (r matches Err(UpdateError::InvalidVersion(t)) && t@
            == current@),
        semver_valid(without_v(current@)) && !semver_valid(without_v(tag@)) ==> (r matches Err(
            UpdateError::InvalidVersion(t),
        ) && t@ == tag@),
        semver_valid(without_v(current@)) && semver_valid(without_v(tag@)) ==> match r {
            Ok(Some(v)) => semver_newer(without_v(tag@), without_v(current@)) && v@ == without_v(tag@),
            Ok(None) => !semver_newer(without_v(tag@), without_v(current@)),
            Err(_) => false,
        },
{
    let current_version = parse_version(current)?;
    let latest = parse_version(tag)?;
    if semver_gt(&latest, &current_version) {
        Ok(Some(String::from_str(strip_v(tag))))
    } else {
        Ok(None)
    }
}

/// Whether the release `tag` should replace the running version: only when
/// it is strictly newer.
pub fn update_available(current: &SemVersion, latest: &SemVersion) -> (r: bool)
    ensures
        r == semver_newer(latest@, current@),
{
    semver_gt(latest, current)
}

/// Default repository to fetch releases from.
pub const DEFAULT_REPO: &'static str = "llinguini/borehole";

/// The repository: the override when it is set and not empty, else the default.
pub fn repo(override_value: Option<&str>) -> (r: String)
    ensures
        match override_value {
            Some(v) if v@.len() > 0 => r@ == v@,
            _ => r@ == DEFAULT_REPO@,
        },
{
    match override_value {
        Some(v) => {
            if v.unicode_len() > 0 {
                String::from_str(v)
            } else {
                String::from_str(DEFAULT_REPO)
            }
        },
        None => String::from_str(DEFAULT_REPO),
    }
}

/// The release asset for an OS/architecture pair, as the installer names them.
pub open spec fn asset_for(os: Seq<char>, arch: Seq<char>) -> Option<Seq<char>> {
    if os == "linux"@ && arch == "x86_64"@ {
        Some("borehole-x86_64-unknown-linux-musl"@)
    } else if os == "macos"@ && arch == "x86_64"@ {
        Some("borehole-x86_64-apple-darwin"@)
    } else if os == "macos"@ && arch == "aarch64"@ {
        Some("borehole-aarch64-apple-darwin"@)
    } else if os == "windows"@ && arch == "x86_64"@ {
        Some("borehole-x86_64-pc-windows-msvc.exe"@)
    } else {
        None
    }
}

/// Maps an OS/arch pair to the release asset name.
pub fn asset_name(os: &str, arch: &str) -> (r: Result<&'static str, UpdateError>)
    ensures
        match asset_for(os@, arch@) {
            Some(a) => r matches Ok(n) && n@ == a,
            None => r matches Err(UpdateError::NoPrebuiltBinary),
        },
{
    if same_text(os, "linux") && same_text(arch, "x86_64") {
        Ok("borehole-x86_64-unknown-linux-musl")
    } else if same_text(os, "macos") && same_text(arch, "x86_64") {
        Ok("borehole-x86_64-apple-darwin")
    } else if same_text(os, "macos") && same_text(arch, "aarch64") {
        Ok("borehole-aarch64-apple-darwin")
    } else if same_text(os, "windows") && same_text(arch, "x86_64") {
        Ok("borehole-x86_64-pc-windows-msvc.exe")
    } else {
        Err(UpdateError::NoPrebuiltBinary)
    }
}

/// The GitHub API URL of the latest release of `repo`.
pub fn latest_release_url(repo: &str) -> (r: String)
    ensures
        r@ == "https://api.github.com/repos/"@ + repo@ + "/releases/latest"@,
{
    let mut url = String::from_str("https://api.github.com/repos/");
    url.append(repo);
    url.append("/releases/latest");
    url
}

/// The download URL of release asset `asset` of `tag`.
pub fn download_url(repo: &str, tag: &str, asset: &str) -> (r: String)
    ensures
        r@ == "https://github.com/"@ + repo@ + "/releases/download/"@ + tag@ + "/"@ + asset@,
{
    let mut url = String::from_str("https://github.com/");
    url.append(repo);
    url.append("/releases/download/");
    url.append(tag);
    url.append("/");
    url.append(asset);
    url
}

} // verus!
