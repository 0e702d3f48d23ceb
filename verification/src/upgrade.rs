//! The decisions behind `aria-memo upgrade`: which release to install, which asset
//! to download for a platform, where the release list lives, how to unpack it.
use vstd::prelude::*;
use crate::text::{
    ascii_lower, ascii_lower_exec, chars_eq, chars_of, contains_seq, contains_str, ends_with,
    ends_with_exec, join3, owned, starts_with, starts_with_exec, str_eq, string_of, trim, trim_chars,
};
use crate::config::DEFAULT_UPGRADE_URL_COM;
use crate::version::{
    normalize_tag, parse_semver, spec_normalize_tag, spec_parse_semver, spec_strip_v, strip_v,
};

verus! {

/// One downloadable file of a release.
#[derive(Debug, Clone, PartialEq, Eq)]
pub struct ReleaseAsset {
    pub name: String,
    pub download_url: String,
}

/// One release as the releases API lists it.
#[derive(Debug, Clone, PartialEq, Eq)]
pub struct ReleaseInfo {
    pub tag: String,
    pub prerelease: bool,
    pub draft: bool,
    pub assets: Vec<ReleaseAsset>,
}

/// Why an upgrade step could not go on.
#[derive(Debug, Clone, PartialEq, Eq)]
pub enum UpgradeError {
    /// No release is both stable and tagged with a version.
    NoStableRelease,
    /// No release carries the requested version.
    ReleaseNotFound(String),
    /// The upgrade URL is neither on GitHub nor on Gitee.
    UnsupportedHost(String),
    /// No release asset is built for this operating system and architecture.
    UnsupportedPlatform(String, String),
    /// The release has no asset of this name.
    AssetNotFound(String),
    /// The archive name ends neither in `.zip` nor in `.tar.gz`/`.tgz`.
    UnknownArchive(String),
}

/// A release that `select_release` may pick when no version is asked for.
pub open spec fn stable(r: ReleaseInfo) -> bool {
    !r.draft && !r.prerelease && spec_parse_semver(r.tag@) is Some
}

/// Lexicographic order on `(major, minor, patch)`.
pub open spec fn semver_lt(a: (u64, u64, u64), b: (u64, u64, u64)) -> bool {
    a.0 < b.0 || (a.0 == b.0 && (a.1 < b.1 || (a.1 == b.1 && a.2 < b.2)))
}

/// `rs[i]` is the newest stable release, the last one listed among equally new ones
/// (what `max_by_key` picks).
pub open spec fn is_latest(rs: Seq<ReleaseInfo>, i: int) -> bool {
    &&& 0 <= i < rs.len()
    &&& stable(rs[i])
    &&& forall|j: int|
        0 <= j < rs.len() && stable(#[trigger] rs[j]) ==> !semver_lt(
            spec_parse_semver(rs[i].tag@).unwrap(),
            spec_parse_semver(rs[j].tag@).unwrap(),
        )
    &&& forall|j: int|
        i < j < rs.len() && stable(#[trigger] rs[j]) ==> semver_lt(
            spec_parse_semver(rs[j].tag@).unwrap(),
            spec_parse_semver(rs[i].tag@).unwrap(),
        )
}

/// `r` answers a request for version `v`: not a draft, and tagged `v` either as written
/// or once normalized.
pub open spec fn answers(r: ReleaseInfo, v: Seq<char>) -> bool {
    !r.draft && (spec_normalize_tag(r.tag@) == spec_normalize_tag(v) || r.tag@ == v)
}

/// The release picked when no version is asked for is neither a prerelease nor a draft,
/// carries a version tag, and no other release that is neither a prerelease nor a draft
/// carries a newer version.
pub proof fn lemma_latest_is_stable(rs: Seq<ReleaseInfo>, i: int)
    requires
        is_latest(rs, i),
    ensures
        !rs[i].prerelease,
        !rs[i].draft,
        spec_parse_semver(rs[i].tag@) is Some,
        forall|j: int|
            0 <= j < rs.len() && !(#[trigger] rs[j]).draft && !rs[j].prerelease && spec_parse_semver(
                rs[j].tag@,
            ) is Some ==> !semver_lt(
                spec_parse_semver(rs[i].tag@).unwrap(),
                spec_parse_semver(rs[j].tag@).unwrap(),
            ),
{
    assert forall|j: int|
        0 <= j < rs.len() && !(#[trigger] rs[j]).draft && !rs[j].prerelease && spec_parse_semver(
            rs[j].tag@,
        ) is Some implies !semver_lt(
            spec_parse_semver(rs[i].tag@).unwrap(),
            spec_parse_semver(rs[j].tag@).unwrap(),
        ) by {
        assert(stable(rs[j]));
    }
}

fn semver_less(a: (u64, u64, u64), b: (u64, u64, u64)) -> (r: bool)
    ensures
        r == semver_lt(a, b),
{
    a.0 < b.0 || (a.0 == b.0 && (a.1 < b.1 || (a.1 == b.1 && a.2 < b.2)))
}

/// Picks the release to install: with no version, the newest stable release by
/// semantic version (not by list order); with a version, the first non-draft release
/// tagged with it, with or without the leading `v`.
pub fn select_release<'a>(releases: &'a [ReleaseInfo], version: Option<&str>) -> (r: Result<
    &'a ReleaseInfo,
    UpgradeError,
>)
    ensures
        version is None ==> {
            &&& r is Ok <==> exists|i: int| 0 <= i < releases@.len() && stable(
                #[trigger] releases@[i],
            )
            &&& r matches Ok(rel) ==> exists|i: int| is_latest(releases@, i) && *rel == releases@[i]
            &&& r is Err ==> r == Err::<&ReleaseInfo, UpgradeError>(UpgradeError::NoStableRelease)
        },
        version matches Some(v) ==> {
            &&& r is Ok <==> exists|i: int| 0 <= i < releases@.len() && answers(
                #[trigger] releases@[i],
                v@,
            )
            &&& r matches Ok(rel) ==> exists|i: int|
                0 <= i < releases@.len() && answers(releases@[i], v@) && *rel == releases@[i]
                    && forall|j: int| 0 <= j < i ==> !answers(#[trigger] releases@[j], v@)
            &&& r matches Err(e) ==> (e matches UpgradeError::ReleaseNotFound(s) && s@ == v@)
        },
{
    match version {
        None => {
            let mut best: Option<usize> = None;
            let mut best_ver: (u64, u64, u64) = (0, 0, 0);
            let mut i: usize = 0;
            while i < releases.len()
                invariant
                    i <= releases@.len(),
                    best is None ==> forall|j: int| 0 <= j < i ==> !stable(#[trigger] releases@[j]),
                    best matches Some(b) ==> {
                        &&& b < i
                        &&& stable(releases@[b as int])
                        &&& spec_parse_semver(releases@[b as int].tag@) == Some(best_ver)
                        &&& forall|j: int|
                            0 <= j < i && stable(#[trigger] releases@[j]) ==> !semver_lt(
                                best_ver,
                                spec_parse_semver(releases@[j].tag@).unwrap(),
                            )
                        &&& forall|j: int|
                            b < j < i && stable(#[trigger] releases@[j]) ==> semver_lt(
                                spec_parse_semver(releases@[j].tag@).unwrap(),
                                best_ver,
                            )
                    },
                decreases releases@.len() - i,
            {
                let rel = &releases[i];
                if !rel.draft && !rel.prerelease {
                    match parse_semver(rel.tag.as_str()) {
                        Some(v) => {
                            let take = match best {
                                None => true,
                                Some(_) => !semver_less(v, best_ver),
                            };
                            if take {
                                best = Some(i);
                                best_ver = v;
                            }
                        },
                        None => {},
                    }
                }
                i += 1;
            }
            match best {
                Some(b) => {
                    proof {
                        assert(is_latest(releases@, b as int));
                    }
                    Ok(&releases[b])
                },
                None => Err(UpgradeError::NoStableRelease),
            }
        },
        Some(v) => {
            let want = normalize_tag(v);
            let want_c = chars_of(want.as_str());
            let v_c = chars_of(v);
            let mut i: usize = 0;
            while i < releases.len()
                invariant
                    i <= releases@.len(),
                    version == Some(v),
                    want_c@ == spec_normalize_tag(v@),
                    v_c@ == v@,
                    forall|j: int| 0 <= j < i ==> !answers(#[trigger] releases@[j], v@),
                decreases releases@.len() - i,
            {
                let rel = &releases[i];
                if !rel.draft {
                    let norm = normalize_tag(rel.tag.as_str());
                    let norm_c = chars_of(norm.as_str());
                    let tag_c = chars_of(rel.tag.as_str());
                    if chars_eq(&norm_c, &want_c) || chars_eq(&tag_c, &v_c) {
                        proof {
                            assert(answers(releases@[i as int], v@));
                        }
                        return Ok(rel);
                    }
                }
                i += 1;
            }
            Err(UpgradeError::ReleaseNotFound(owned(v)))
        },
    }
}

} // verus!

verus! {

/// What `UpgradeError::message` says.
pub open spec fn spec_upgrade_message(e: UpgradeError) -> Seq<char> {
    match e {
        UpgradeError::NoStableRelease => "no stable release found"@,
        UpgradeError::ReleaseNotFound(v) => "release "@ + v@ + " not found"@,
        UpgradeError::UnsupportedHost(u) => "unsupported upgrade_url host: "@ + u@,
        UpgradeError::UnsupportedPlatform(os, arch) => "unsupported platform "@ + os@ + "/"@
            + arch@ + " for upgrade"@,
        UpgradeError::AssetNotFound(n) => "release asset not found: "@ + n@,
        UpgradeError::UnknownArchive(n) => "unknown archive type: "@ + n@,
    }
}

impl UpgradeError {
    /// The human-readable text of the error.
    pub fn message(&self) -> (r: String)
        ensures
            r@ == spec_upgrade_message(*self),
    {
        proof {
            reveal_strlit("");
        }
        match self {
            UpgradeError::NoStableRelease => owned("no stable release found"),
            UpgradeError::ReleaseNotFound(v) => join3("release ", v.as_str(), " not found"),
            UpgradeError::UnsupportedHost(u) => join3("unsupported upgrade_url host: ", u.as_str(), ""),
            UpgradeError::UnsupportedPlatform(os, arch) => {
                let head = join3("unsupported platform ", os.as_str(), "/");
                join3(head.as_str(), arch.as_str(), " for upgrade")
            },
            UpgradeError::AssetNotFound(n) => join3("release asset not found: ", n.as_str(), ""),
            UpgradeError::UnknownArchive(n) => join3("unknown archive type: ", n.as_str(), ""),
        }
    }
}

/// Where the releases of the `memo` repository are listed.
#[derive(Debug, Clone, Copy, PartialEq, Eq)]
pub enum ReleaseHost {
    GitHub,
    Gitee,
}

/// Which host an upgrade URL points at: Gitee when `gitee.com` occurs in it (any case),
/// else GitHub when `github.com` does.
pub open spec fn spec_detect_host(org_url: Seq<char>) -> Option<ReleaseHost> {
    if contains_seq(ascii_lower(org_url), "gitee.com"@) {
        Some(ReleaseHost::Gitee)
    } else if contains_seq(ascii_lower(org_url), "github.com"@) {
        Some(ReleaseHost::GitHub)
    } else {
        None
    }
}

/// Tells the release host from the upgrade URL.
pub fn detect_host(org_url: &str) -> (r: Result<ReleaseHost, UpgradeError>)
    ensures
        spec_detect_host(org_url@) matches Some(h) ==> r == Ok::<ReleaseHost, UpgradeError>(h),
        spec_detect_host(org_url@) is None ==> (r matches Err(UpgradeError::UnsupportedHost(u))
            && u@ == org_url@),
{
    let lower = ascii_lower_exec(&chars_of(org_url));
    if contains_str(&lower, "gitee.com") {
        Ok(ReleaseHost::Gitee)
    } else if contains_str(&lower, "github.com") {
        Ok(ReleaseHost::GitHub)
    } else {
        Err(UpgradeError::UnsupportedHost(owned(org_url)))
    }
}

/// The text after the last `/` (all of `s` when it has none).
pub open spec fn after_last_slash(s: Seq<char>) -> Seq<char>
    decreases s.len(),
{
    if s.len() == 0 {
        s
    } else if s.last() == '/' {
        Seq::empty()
    } else {
        after_last_slash(s.drop_last()).push(s.last())
    }
}

/// The releases API endpoint for the `memo` repository of the URL's owner.
pub open spec fn spec_releases_api_url(host: ReleaseHost, org: Seq<char>) -> Seq<char> {
    match host {
        ReleaseHost::GitHub => "https://api.github.com/repos/"@ + after_last_slash(org)
            + "/memo/releases?per_page=30"@,
        ReleaseHost::Gitee => "https://gitee.com/api/v5/repos/"@ + after_last_slash(org)
            + "/memo/releases?per_page=30"@,
    }
}

fn last_segment(s: &Vec<char>) -> (r: Vec<char>)
    ensures
        r@ == after_last_slash(s@),
{
    let mut j = s.len();
    proof {
        assert(s@.take(j as int) =~= s@);
        assert(s@.subrange(j as int, j as int) =~= Seq::<char>::empty());
        assert(s@ + Seq::<char>::empty() =~= s@);
    }
    while j > 0 && s[j - 1] != '/'
        invariant
            j <= s.len(),
            after_last_slash(s@) == after_last_slash(s@.take(j as int)) + s@.subrange(
                j as int,
                s.len() as int,
            ),
        decreases j,
    {
        proof {
            let t = s@.take(j as int);
            assert(t.drop_last() =~= s@.take(j - 1));
            assert(t.last() == s@[j - 1]);
            assert(after_last_slash(t) == after_last_slash(s@.take(j - 1)).push(s@[j - 1]));
            assert(after_last_slash(s@.take(j - 1)).push(s@[j - 1]) + s@.subrange(
                j as int,
                s.len() as int,
            ) =~= after_last_slash(s@.take(j - 1)) + s@.subrange(j - 1, s.len() as int));
        }
        j -= 1;
    }
    proof {
        let t = s@.take(j as int);
        if j > 0 {
            assert(t.last() == s@[j - 1]);
        }
        assert(after_last_slash(t) =~= Seq::<char>::empty());
        assert(after_last_slash(s@) =~= s@.subrange(j as int, s.len() as int));
    }
    crate::text::slice_chars(s, j, s.len())
}

/// The releases API URL (`owner` is what follows the last `/` of the upgrade URL).
pub fn releases_api_url(host: ReleaseHost, org: &str) -> (r: String)
    ensures
        r@ == spec_releases_api_url(host, org@),
{
    let owner = string_of(&last_segment(&chars_of(org)));
    match host {
        ReleaseHost::GitHub => join3(
            "https://api.github.com/repos/",
            owner.as_str(),
            "/memo/releases?per_page=30",
        ),
        ReleaseHost::Gitee => join3(
            "https://gitee.com/api/v5/repos/",
            owner.as_str(),
            "/memo/releases?per_page=30",
        ),
    }
}

/// The archive name of the CLI build for a version and platform.
pub open spec fn spec_memo_asset_name(version: Seq<char>, asset_os: Seq<char>) -> Seq<char> {
    if starts_with(asset_os, "windows"@) {
        "aria-memo_"@ + version + "_"@ + asset_os + ".zip"@
    } else {
        "aria-memo_"@ + version + "_"@ + asset_os + ".tar.gz"@
    }
}

/// `aria-memo_{version}_{asset_os}.tar.gz`, or `.zip` for Windows builds.
pub fn memo_asset_name(version: &str, asset_os: &str) -> (r: String)
    ensures
        r@ == spec_memo_asset_name(version@, asset_os@),
{
    let head = join3("aria-memo_", version, "_");
    if starts_with_exec(&chars_of(asset_os), "windows") {
        join3(head.as_str(), asset_os, ".zip")
    } else {
        join3(head.as_str(), asset_os, ".tar.gz")
    }
}

/// Finds the asset with the given name.
pub fn find_asset<'a>(assets: &'a [ReleaseAsset], name: &str) -> (r: Result<
    &'a ReleaseAsset,
    UpgradeError,
>)
    ensures
        r is Ok <==> exists|i: int| 0 <= i < assets@.len() && (#[trigger] assets@[i]).name@ == name@,
        r matches Ok(a) ==> exists|i: int|
            0 <= i < assets@.len() && assets@[i].name@ == name@ && *a == assets@[i] && forall|
                j: int,
            | 0 <= j < i ==> (#[trigger] assets@[j]).name@ != name@,
        r matches Err(e) ==> (e matches UpgradeError::AssetNotFound(n) && n@ == name@),
{
    let mut i: usize = 0;
    while i < assets.len()
        invariant
            i <= assets@.len(),
            forall|j: int| 0 <= j < i ==> (#[trigger] assets@[j]).name@ != name@,
        decreases assets@.len() - i,
    {
        if str_eq(assets[i].name.as_str(), name) {
            return Ok(&assets[i]);
        }
        i += 1;
    }
    Err(UpgradeError::AssetNotFound(owned(name)))
}

/// How a downloaded archive is unpacked.
#[derive(Debug, Clone, Copy, PartialEq, Eq)]
pub enum ArchiveKind {
    Zip,
    TarGz,
}

/// The archive kind of a file name, compared without regard to ASCII case.
pub open spec fn spec_archive_kind(file_name: Seq<char>) -> Option<ArchiveKind> {
    let n = ascii_lower(file_name);
    if ends_with(n, ".zip"@) {
        Some(ArchiveKind::Zip)
    } else if ends_with(n, ".tar.gz"@) || ends_with(n, ".tgz"@) {
        Some(ArchiveKind::TarGz)
    } else {
        None
    }
}

/// `.zip` archives are unzipped; `.tar.gz` and `.tgz` ones are gunzipped and untarred.
pub fn archive_kind(file_name: &str) -> (r: Result<ArchiveKind, UpgradeError>)
    ensures
        spec_archive_kind(file_name@) matches Some(k) ==> r == Ok::<ArchiveKind, UpgradeError>(k),
        spec_archive_kind(file_name@) is None ==> (r matches Err(UpgradeError::UnknownArchive(n))
            && n@ == ascii_lower(file_name@)),
{
    let lower = ascii_lower_exec(&chars_of(file_name));
    if ends_with_exec(&lower, ".zip") {
        Ok(ArchiveKind::Zip)
    } else if ends_with_exec(&lower, ".tar.gz") || ends_with_exec(&lower, ".tgz") {
        Ok(ArchiveKind::TarGz)
    } else {
        Err(UpgradeError::UnknownArchive(string_of(&lower)))
    }
}

/// The platform part of an asset name for an operating system and architecture.
pub open spec fn spec_asset_os(os: Seq<char>, arch: Seq<char>) -> Option<Seq<char>> {
    if os == "linux"@ && arch == "x86_64"@ {
        Some("linux_x86_64"@)
    } else if os == "linux"@ && arch == "aarch64"@ {
        Some("linux_arm64"@)
    } else if os == "macos"@ {
        Some("macos"@)
    } else if os == "windows"@ && arch == "x86_64"@ {
        Some("windows_x86_64"@)
    } else {
        None
    }
}

/// Maps `std::env::consts::{OS, ARCH}` to the platform part of an asset name.
pub fn asset_os_for(os: &str, arch: &str) -> (r: Result<&'static str, UpgradeError>)
    ensures
        spec_asset_os(os@, arch@) matches Some(p) ==> (r matches Ok(s) && s@ == p),
        spec_asset_os(os@, arch@) is None ==> (r matches Err(UpgradeError::UnsupportedPlatform(o, a))
            && o@ == os@ && a@ == arch@),
{
    if str_eq(os, "linux") && str_eq(arch, "x86_64") {
        Ok("linux_x86_64")
    } else if str_eq(os, "linux") && str_eq(arch, "aarch64") {
        Ok("linux_arm64")
    } else if str_eq(os, "macos") {
        Ok("macos")
    } else if str_eq(os, "windows") && str_eq(arch, "x86_64") {
        Ok("windows_x86_64")
    } else {
        Err(UpgradeError::UnsupportedPlatform(owned(os), owned(arch)))
    }
}

} // verus!

verus! {

/// `s` without any trailing `/`.
pub open spec fn strip_trailing_slashes(s: Seq<char>) -> Seq<char>
    decreases s.len(),
{
    if s.len() > 0 && s.last() == '/' {
        strip_trailing_slashes(s.drop_last())
    } else {
        s
    }
}

/// The releases org root with trailing slashes removed.
pub fn org_root(url: &str) -> (r: String)
    ensures
        r@ == strip_trailing_slashes(url@),
{
    let s = chars_of(url);
    let mut j = s.len();
    proof {
        assert(s@.take(j as int) =~= s@);
    }
    while j > 0 && s[j - 1] == '/'
        invariant
            j <= s.len(),
            strip_trailing_slashes(s@) == strip_trailing_slashes(s@.take(j as int)),
        decreases j,
    {
        proof {
            assert(s@.take(j as int).drop_last() =~= s@.take(j - 1));
        }
        j -= 1;
    }
    proof {
        if j > 0 {
            assert(s@.take(j as int).last() == s@[j - 1]);
        }
    }
    string_of(&crate::text::slice_chars(&s, 0, j))
}

/// The characters of an optional string slice.
pub open spec fn opt_view(o: Option<&str>) -> Option<Seq<char>> {
    match o {
        Some(s) => Some(s@),
        None => None,
    }
}

/// An explicit `--url` counts when it is not blank, and is used trimmed.
pub open spec fn spec_explicit_url(arg: Option<Seq<char>>) -> Option<Seq<char>> {
    match arg {
        Some(v) => if trim(v).len() > 0 {
            Some(trim(v))
        } else {
            None
        },
        None => None,
    }
}

/// The `--url` override, when one was given.
pub fn explicit_url(arg: Option<&str>) -> (r: Option<String>)
    ensures
        r matches Some(u) ==> spec_explicit_url(opt_view(arg)) == Some(u@),
        r is None ==> spec_explicit_url(opt_view(arg)) is None,
{
    match arg {
        Some(v) => {
            let t = trim_chars(&chars_of(v));
            if t.len() > 0 {
                Some(string_of(&t))
            } else {
                None
            }
        },
        None => None,
    }
}

/// The upgrade URL when no `--url` was given: the saved config's `upgrade_url` if set,
/// else `ARIA_MEMO_UPGRADE_URL` (trimmed) if not blank, else the built-in GitHub root.
pub open spec fn spec_fallback_url(config_url: Seq<char>, env_url: Option<Seq<char>>) -> Seq<char> {
    if config_url.len() > 0 {
        config_url
    } else {
        match env_url {
            Some(e) => if trim(e).len() > 0 {
                trim(e)
            } else {
                DEFAULT_UPGRADE_URL_COM@
            },
            None => DEFAULT_UPGRADE_URL_COM@,
        }
    }
}

/// Chooses the upgrade URL from the saved config and the environment.
pub fn fallback_url(config_url: &str, env_url: Option<&str>) -> (r: String)
    ensures
        r@ == spec_fallback_url(config_url@, opt_view(env_url)),
{
    if !config_url.is_empty() {
        return owned(config_url);
    }
    match env_url {
        Some(e) => {
            let t = trim_chars(&chars_of(e));
            if t.len() > 0 {
                string_of(&t)
            } else {
                owned(DEFAULT_UPGRADE_URL_COM)
            }
        },
        None => owned(DEFAULT_UPGRADE_URL_COM),
    }
}

} // verus!

verus! {

/// What to do once a release is chosen.
#[derive(Debug, Clone, PartialEq, Eq)]
pub enum UpgradePlan {
    /// The running binary already has this version.
    AlreadyCurrent(String),
    /// Download `asset` (named `asset_name`) and install `version`.
    Install { version: String, asset_name: String, download_url: String },
}

/// Decides, for the chosen release, whether to install it and which asset to fetch:
/// nothing when its version (tag without `v`) equals the current one; otherwise the
/// asset named for that version and this platform, which the release must carry.
pub fn plan_install(release: &ReleaseInfo, current_version: &str, os: &str, arch: &str) -> (r:
    Result<UpgradePlan, UpgradeError>)
    ensures
        spec_strip_v(release.tag@) == spec_strip_v(current_version@) ==> (r matches Ok(
            UpgradePlan::AlreadyCurrent(v),
        ) && v@ == spec_strip_v(release.tag@)),
        spec_strip_v(release.tag@) != spec_strip_v(current_version@) && spec_asset_os(os@, arch@)
            is None ==> (r matches Err(UpgradeError::UnsupportedPlatform(o, a)) && o@ == os@
            && a@ == arch@),
        spec_strip_v(release.tag@) != spec_strip_v(current_version@) && spec_asset_os(
            os@,
            arch@,
        ) is Some ==> {
            let name = spec_memo_asset_name(
                spec_strip_v(release.tag@),
                spec_asset_os(os@, arch@).unwrap(),
            );
            &&& r is Ok <==> exists|i: int|
                0 <= i < release.assets@.len() && (#[trigger] release.assets@[i]).name@ == name
            &&& r matches Ok(plan) ==> (plan matches UpgradePlan::Install {
                version,
                asset_name,
                download_url,
            } && version@ == spec_strip_v(release.tag@) && asset_name@ == name && exists|i: int|
                0 <= i < release.assets@.len() && release.assets@[i].name@ == name
                    && release.assets@[i].download_url == download_url && forall|j: int|
                    0 <= j < i ==> (#[trigger] release.assets@[j]).name@ != name)
            &&& r matches Err(e) ==> (e matches UpgradeError::AssetNotFound(n) && n@ == name)
        },
{
    let ver = strip_v(release.tag.as_str());
    let current = strip_v(current_version);
    if str_eq(ver.as_str(), current.as_str()) {
        return Ok(UpgradePlan::AlreadyCurrent(ver));
    }
    let asset_os = asset_os_for(os, arch)?;
    let name = memo_asset_name(ver.as_str(), asset_os);
    let asset = find_asset(release.assets.as_slice(), name.as_str())?;
    let url = asset.download_url.clone();
    Ok(UpgradePlan::Install { version: ver, asset_name: name, download_url: url })
}

} // verus!
