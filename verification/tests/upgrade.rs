use memo::config::{cli_config_path_in, join_path, memo_home_from};
use memo::config::{
    default_choice, default_upgrade_url, default_upgrade_url_for_site, resolve_choice,
    unattended_url, MemoCliConfig, SetupArgs, SetupMode, DEFAULT_UPGRADE_URL_CN,
    DEFAULT_UPGRADE_URL_COM,
};
use memo::upgrade::{
    archive_kind, asset_os_for, detect_host, explicit_url, fallback_url, find_asset,
    memo_asset_name, org_root, plan_install, releases_api_url, select_release, ArchiveKind,
    ReleaseAsset, ReleaseHost, ReleaseInfo, UpgradeError, UpgradePlan,
};
use memo::version::{normalize_tag, parse_semver, strip_v};

fn rel(tag: &str, prerelease: bool, draft: bool) -> ReleaseInfo {
    ReleaseInfo {
        tag: tag.into(),
        prerelease,
        draft,
        assets: vec![],
    }
}

fn sample_releases() -> Vec<ReleaseInfo> {
    vec![
        rel("v0.8.0-rc1", true, false),
        rel("v0.7.1", false, false),
        rel("v0.8.0", false, false),
        ReleaseInfo {
            tag: "v0.7.2".into(),
            prerelease: false,
            draft: false,
            assets: vec![ReleaseAsset {
                name: "aria-memo_0.7.2_linux_x86_64.tar.gz".into(),
                download_url: "https://example/e".into(),
            }],
        },
        rel("v0.9.1", false, false),
    ]
}

#[test]
fn default_config_is_empty_upgrade_url() {
    let cfg = MemoCliConfig::default();
    assert!(cfg.upgrade_url.is_empty());
}

#[test]
fn default_upgrade_url_is_github() {
    assert_eq!(default_upgrade_url(), DEFAULT_UPGRADE_URL_COM);
}

#[test]
fn selects_latest_stable_skipping_prerelease() {
    let r = sample_releases();
    let got = select_release(&r, None).unwrap();
    assert_eq!(got.tag, "v0.9.1");
}

#[test]
fn selects_newest_by_semver_not_api_order() {
    let r = vec![
        rel("v0.8.0", false, false),
        rel("v0.9.1", false, false),
        rel("v0.10.0", false, false),
    ];
    assert_eq!(select_release(&r, None).unwrap().tag, "v0.10.0");
    let rev: Vec<_> = r.into_iter().rev().collect();
    assert_eq!(select_release(&rev, None).unwrap().tag, "v0.10.0");
}

#[test]
fn parse_semver_core() {
    assert_eq!(parse_semver("v0.9.1"), Some((0, 9, 1)));
    assert_eq!(parse_semver("0.8.0"), Some((0, 8, 0)));
    assert_eq!(parse_semver("v1.2.3-rc1"), Some((1, 2, 3)));
    assert_eq!(parse_semver("not-a-version"), None);
}

#[test]
fn selects_by_version_with_or_without_v() {
    let r = sample_releases();
    assert_eq!(select_release(&r, Some("0.7.1")).unwrap().tag, "v0.7.1");
    assert_eq!(select_release(&r, Some("v0.7.2")).unwrap().tag, "v0.7.2");
}

#[test]
fn normalize_and_strip_tag() {
    assert_eq!(normalize_tag("0.7.2"), "v0.7.2");
    assert_eq!(normalize_tag("v0.7.2"), "v0.7.2");
    assert_eq!(strip_v("v0.7.2"), "0.7.2");
    assert_eq!(strip_v("0.7.2"), "0.7.2");
}

#[test]
fn memo_asset_names() {
    assert_eq!(
        memo_asset_name("0.7.2", "linux_x86_64"),
        "aria-memo_0.7.2_linux_x86_64.tar.gz"
    );
    assert_eq!(
        memo_asset_name("0.7.2", "windows_x86_64"),
        "aria-memo_0.7.2_windows_x86_64.zip"
    );
}

#[test]
fn github_and_gitee_api_paths() {
    assert!(
        releases_api_url(ReleaseHost::GitHub, "https://github.com/ariacompute")
            .contains("api.github.com/repos/ariacompute/memo/releases")
    );
    assert!(
        releases_api_url(ReleaseHost::Gitee, "https://gitee.com/ariacompute")
            .contains("gitee.com/api/v5/repos/ariacompute/memo/releases")
    );
}

#[test]
fn missing_version_errors() {
    let r = sample_releases();
    assert!(select_release(&r, Some("9.9.9")).is_err());
}

#[test]
fn site_picks_default_url() {
    assert_eq!(default_upgrade_url_for_site("cn"), DEFAULT_UPGRADE_URL_CN);
    assert_eq!(default_upgrade_url_for_site(" CN "), DEFAULT_UPGRADE_URL_CN);
    assert_eq!(default_upgrade_url_for_site("com"), DEFAULT_UPGRADE_URL_COM);
    assert_eq!(default_upgrade_url_for_site(""), DEFAULT_UPGRADE_URL_COM);
    assert_eq!(default_upgrade_url_for_site("cnx"), DEFAULT_UPGRADE_URL_COM);
}

#[test]
fn setup_modes_and_choices() {
    assert_eq!(SetupArgs { status: true, clear: true }.mode(), SetupMode::Status);
    assert_eq!(SetupArgs { status: false, clear: true }.mode(), SetupMode::Clear);
    assert_eq!(SetupArgs { status: false, clear: false }.mode(), SetupMode::Write);
    assert_eq!(default_choice(DEFAULT_UPGRADE_URL_CN), 2);
    assert_eq!(default_choice(DEFAULT_UPGRADE_URL_COM), 1);
    assert_eq!(resolve_choice("  ", DEFAULT_UPGRADE_URL_CN), Ok(DEFAULT_UPGRADE_URL_CN.to_string()));
    assert_eq!(resolve_choice(" 1 ", DEFAULT_UPGRADE_URL_CN), Ok(DEFAULT_UPGRADE_URL_COM.to_string()));
    assert_eq!(resolve_choice("2", DEFAULT_UPGRADE_URL_COM), Ok(DEFAULT_UPGRADE_URL_CN.to_string()));
    assert_eq!(resolve_choice(" 3 ", DEFAULT_UPGRADE_URL_COM), Err("3".to_string()));
}

#[test]
fn unattended_setup_precedence() {
    assert_eq!(unattended_url("cn", "https://x"), DEFAULT_UPGRADE_URL_CN);
    assert_eq!(unattended_url("com", "https://x"), DEFAULT_UPGRADE_URL_COM);
    assert_eq!(unattended_url(" ", "https://x"), "https://x");
    assert_eq!(unattended_url("", ""), DEFAULT_UPGRADE_URL_COM);
}

#[test]
fn upgrade_url_precedence() {
    assert_eq!(explicit_url(Some("  https://gitee.com/o/ ")), Some("https://gitee.com/o/".to_string()));
    assert_eq!(explicit_url(Some("   ")), None);
    assert_eq!(explicit_url(None), None);
    assert_eq!(fallback_url("https://cfg", Some("https://env")), "https://cfg");
    assert_eq!(fallback_url("", Some(" https://env ")), "https://env");
    assert_eq!(fallback_url("", Some("  ")), DEFAULT_UPGRADE_URL_COM);
    assert_eq!(fallback_url("", None), DEFAULT_UPGRADE_URL_COM);
    assert_eq!(org_root("https://gitee.com/ariacompute//"), "https://gitee.com/ariacompute");
    assert_eq!(org_root("https://github.com/a"), "https://github.com/a");
}

#[test]
fn hosts_and_api_urls() {
    assert_eq!(detect_host("https://GITEE.com/x"), Ok(ReleaseHost::Gitee));
    assert_eq!(detect_host("https://github.com/x"), Ok(ReleaseHost::GitHub));
    assert_eq!(
        detect_host("https://example.com/x"),
        Err(UpgradeError::UnsupportedHost("https://example.com/x".to_string()))
    );
    assert_eq!(
        releases_api_url(ReleaseHost::GitHub, "https://github.com/ariacompute"),
        "https://api.github.com/repos/ariacompute/memo/releases?per_page=30"
    );
    assert_eq!(
        releases_api_url(ReleaseHost::Gitee, "ariacompute"),
        "https://gitee.com/api/v5/repos/ariacompute/memo/releases?per_page=30"
    );
}

#[test]
fn archives_and_platforms() {
    assert_eq!(archive_kind("A.ZIP"), Ok(ArchiveKind::Zip));
    assert_eq!(archive_kind("a.tar.gz"), Ok(ArchiveKind::TarGz));
    assert_eq!(archive_kind("a.TGZ"), Ok(ArchiveKind::TarGz));
    assert_eq!(archive_kind("A.rar"), Err(UpgradeError::UnknownArchive("a.rar".to_string())));
    assert_eq!(asset_os_for("linux", "x86_64"), Ok("linux_x86_64"));
    assert_eq!(asset_os_for("linux", "aarch64"), Ok("linux_arm64"));
    assert_eq!(asset_os_for("macos", "aarch64"), Ok("macos"));
    assert_eq!(asset_os_for("windows", "x86_64"), Ok("windows_x86_64"));
    assert_eq!(
        asset_os_for("freebsd", "x86_64"),
        Err(UpgradeError::UnsupportedPlatform("freebsd".to_string(), "x86_64".to_string()))
    );
    assert_eq!(
        UpgradeError::UnsupportedPlatform("freebsd".into(), "x86_64".into()).message(),
        "unsupported platform freebsd/x86_64 for upgrade"
    );
    assert_eq!(UpgradeError::NoStableRelease.message(), "no stable release found");
}

#[test]
fn install_plan() {
    let r = sample_releases();
    let rel = select_release(&r, Some("0.7.2")).unwrap();
    assert_eq!(
        plan_install(rel, "v0.7.2", "linux", "x86_64"),
        Ok(UpgradePlan::AlreadyCurrent("0.7.2".to_string()))
    );
    assert_eq!(
        plan_install(rel, "0.7.1", "linux", "x86_64"),
        Ok(UpgradePlan::Install {
            version: "0.7.2".to_string(),
            asset_name: "aria-memo_0.7.2_linux_x86_64.tar.gz".to_string(),
            download_url: "https://example/e".to_string(),
        })
    );
    assert_eq!(
        plan_install(rel, "0.7.1", "windows", "x86_64"),
        Err(UpgradeError::AssetNotFound("aria-memo_0.7.2_windows_x86_64.zip".to_string()))
    );
    assert!(find_asset(&rel.assets, "nope").is_err());
    assert_eq!(
        select_release(&r, Some("9.9.9")),
        Err(UpgradeError::ReleaseNotFound("9.9.9".to_string()))
    );
    let drafts = vec![rel_draft("v1.0.0")];
    assert_eq!(select_release(&drafts, None), Err(UpgradeError::NoStableRelease));
    assert!(select_release(&drafts, Some("1.0.0")).is_err());
}

fn rel_draft(tag: &str) -> ReleaseInfo {
    rel(tag, false, true)
}

#[test]
fn semver_defaults_missing_parts() {
    assert_eq!(parse_semver("v2"), Some((2, 0, 0)));
    assert_eq!(parse_semver("1.4+build"), Some((1, 4, 0)));
    assert_eq!(parse_semver(" V3.1.4 "), Some((3, 1, 4)));
    assert_eq!(parse_semver("v"), None);
    assert_eq!(parse_semver("1..2"), None);
}

#[test]
fn memo_home_choice() {
    assert_eq!(memo_home_from(Some("/opt/memo"), Some("/home/u")), Some("/opt/memo".to_string()));
    assert_eq!(memo_home_from(Some(""), Some("/home/u")), Some("/home/u/.ariacompute".to_string()));
    assert_eq!(memo_home_from(None, Some("/home/u/")), Some("/home/u/.ariacompute".to_string()));
    assert_eq!(memo_home_from(None, None), None);
    assert_eq!(cli_config_path_in("/h/.ariacompute"), "/h/.ariacompute/memo-cli.yml");
    assert_eq!(join_path("", "x"), "x");
}
