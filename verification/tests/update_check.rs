use vsnapu_downloader::update_check::{
    decide, evaluate, extract_min_version, is_allowed_update_url, parse_version, pick_installer_url,
    Asset, Release, UpdateCheckResult, UpdateStatus, Version, ALLOWED_URL_PREFIX,
};

fn release_json(tag: &str, body: Option<&str>) -> Release {
    Release {
        tag_name: tag.to_string(),
        body: body.map(|b| b.to_string()),
        html_url: format!("https://github.com/vinaynasha/VsnapU_Downloader/releases/tag/{tag}"),
        assets: vec![
            Asset {
                name: "VSnapU.Downloader_x64_en-US.msi".to_string(),
                browser_download_url: format!(
                    "https://github.com/vinaynasha/VsnapU_Downloader/releases/download/{tag}/VSnapU.Downloader_x64_en-US.msi"
                ),
            },
            Asset {
                name: "VSnapU.Downloader_x64.dmg".to_string(),
                browser_download_url: format!(
                    "https://github.com/vinaynasha/VsnapU_Downloader/releases/download/{tag}/VSnapU.Downloader_x64.dmg"
                ),
            },
        ],
    }
}

// ---- parse_version ----

#[test]
fn parse_version_reads_plain_and_prefixed_versions() {
    assert_eq!(parse_version("0.1.6"), Some(Version(0, 1, 6)));
    assert_eq!(parse_version("v0.1.6"), Some(Version(0, 1, 6)));
    assert_eq!(parse_version("V1.2.3"), Some(Version(1, 2, 3)));
    assert_eq!(parse_version("  v10.20.30  "), Some(Version(10, 20, 30)));
}

#[test]
fn parse_version_ignores_a_suffix_after_the_patch_number() {
    assert_eq!(parse_version("0.1.6-beta.2"), Some(Version(0, 1, 6)));
    assert_eq!(parse_version("0.1.6+build5"), Some(Version(0, 1, 6)));
}

#[test]
fn parse_version_rejects_anything_that_is_not_three_numbers() {
    assert_eq!(parse_version(""), None);
    assert_eq!(parse_version("abc"), None);
    assert_eq!(parse_version("1.2"), None);
    assert_eq!(parse_version("1.2.3.4"), None);
    assert_eq!(parse_version("1..3"), None);
    assert_eq!(parse_version("v"), None);
}

#[test]
fn versions_compare_numerically_not_as_text() {
    assert!(Version(0, 1, 10) > Version(0, 1, 9));
    assert!(Version(1, 0, 0) > Version(0, 9, 9));
    assert!(Version(0, 2, 0) > Version(0, 1, 99));
    assert_eq!(Version(0, 1, 5), Version(0, 1, 5));
}

#[test]
fn parse_version_edge_cases() {
    assert_eq!(parse_version("vv1.2.3"), Some(Version(1, 2, 3)));
    assert_eq!(parse_version("\u{3000}1.2.3\t"), Some(Version(1, 2, 3)));
    assert_eq!(parse_version("4294967295.0.0"), Some(Version(u32::MAX, 0, 0)));
    assert_eq!(parse_version("4294967296.0.0"), None);
    assert_eq!(parse_version("007.0.01"), Some(Version(7, 0, 1)));
    assert_eq!(parse_version("1.2."), None);
    assert_eq!(parse_version(" v 1.2.3"), None);
}

#[test]
fn version_order_agrees_with_is_older_than() {
    let vs = [Version(0, 1, 9), Version(0, 1, 10), Version(0, 2, 0), Version(1, 0, 0), Version(1, 0, 0)];
    for a in vs {
        for b in vs {
            assert_eq!(a.is_older_than(&b), a < b);
        }
    }
}

// ---- extract_min_version ----

#[test]
fn extract_min_version_finds_the_marker_line() {
    let body = "Fixes a download bug.\n\nmin-version: 0.1.6\n\nThanks!";
    assert_eq!(extract_min_version(body), Some(Version(0, 1, 6)));
}

#[test]
fn extract_min_version_is_case_insensitive_and_accepts_a_v_prefix() {
    assert_eq!(extract_min_version("MIN-VERSION: v0.2.0"), Some(Version(0, 2, 0)));
    assert_eq!(extract_min_version("Min-Version:0.2.0"), Some(Version(0, 2, 0)));
}

#[test]
fn extract_min_version_tolerates_markdown_list_and_quote_prefixes() {
    assert_eq!(extract_min_version("- min-version: 0.1.6"), Some(Version(0, 1, 6)));
    assert_eq!(extract_min_version("* min-version: 0.1.6"), Some(Version(0, 1, 6)));
    assert_eq!(extract_min_version("> min-version: 0.1.6"), Some(Version(0, 1, 6)));
}

#[test]
fn extract_min_version_is_none_when_absent_or_unparsable() {
    assert_eq!(extract_min_version("Just release notes."), None);
    assert_eq!(extract_min_version("min-version: soon"), None);
    assert_eq!(extract_min_version(""), None);
}

#[test]
fn extract_min_version_uses_only_the_first_matching_line() {
    // The first marker is unparsable, so it wins (and yields None) -- a later valid one is not used.
    let body = "min-version: soon\nmin-version: 0.1.6";
    assert_eq!(extract_min_version(body), None);
}

#[test]
fn extract_min_version_handles_crlf_and_nested_markers() {
    assert_eq!(extract_min_version("Notes\r\n  -> min-version: 1.0.0\r\n"), Some(Version(1, 0, 0)));
    assert_eq!(extract_min_version("text min-version: 1.0.0"), None);
    assert_eq!(extract_min_version("min-version: 1.0.0\nmin-version: 2.0.0"), Some(Version(1, 0, 0)));
}

// ---- decide ----

#[test]
fn decide_is_none_when_latest_is_not_newer() {
    assert_eq!(decide(Version(0, 1, 5), Version(0, 1, 5), None), UpdateStatus::NoUpdate);
    assert_eq!(decide(Version(0, 2, 0), Version(0, 1, 5), None), UpdateStatus::NoUpdate);
}

#[test]
fn decide_is_banner_when_latest_is_newer_and_no_minimum() {
    assert_eq!(decide(Version(0, 1, 5), Version(0, 1, 6), None), UpdateStatus::Banner);
}

#[test]
fn decide_is_blocking_when_current_is_below_the_minimum() {
    let min = Some(Version(0, 1, 6));
    assert_eq!(decide(Version(0, 1, 5), Version(0, 1, 6), min), UpdateStatus::Blocking);
}

#[test]
fn decide_is_banner_when_current_meets_the_minimum() {
    let min = Some(Version(0, 1, 5));
    assert_eq!(decide(Version(0, 1, 5), Version(0, 1, 6), min), UpdateStatus::Banner);
}

#[test]
fn decide_ignores_a_minimum_higher_than_the_latest_release() {
    // A typo like min-version: 9.9.9 must never lock users out of an update that can't satisfy it.
    let min = Some(Version(9, 9, 9));
    assert_eq!(decide(Version(0, 1, 5), Version(0, 1, 6), min), UpdateStatus::Banner);
    assert_eq!(decide(Version(0, 1, 6), Version(0, 1, 6), min), UpdateStatus::NoUpdate);
}

#[test]
fn running_the_latest_release_is_never_blocked() {
    for min in [None, Some(Version(0, 1, 0)), Some(Version(0, 1, 6)), Some(Version(9, 9, 9))] {
        assert_eq!(decide(Version(0, 1, 6), Version(0, 1, 6), min), UpdateStatus::NoUpdate);
    }
}

// ---- is_allowed_update_url ----

#[test]
fn only_urls_inside_our_github_repo_are_allowed() {
    assert!(is_allowed_update_url("https://github.com/vinaynasha/VsnapU_Downloader/releases/download/v0.1.6/a.msi"));
    assert!(is_allowed_update_url("https://github.com/vinaynasha/VsnapU_Downloader/releases/tag/v0.1.6"));
    assert!(!is_allowed_update_url("https://github.com/someone-else/VsnapU_Downloader/releases/tag/v1"));
    assert!(!is_allowed_update_url("http://github.com/vinaynasha/VsnapU_Downloader/releases/tag/v1"));
    assert!(!is_allowed_update_url("https://github.com.evil.com/vinaynasha/VsnapU_Downloader/x"));
    assert!(!is_allowed_update_url("https://evil.com/?https://github.com/vinaynasha/VsnapU_Downloader/"));
    assert!(!is_allowed_update_url(""));
}

#[test]
fn the_allowed_prefix_itself_is_allowed() {
    assert!(is_allowed_update_url(ALLOWED_URL_PREFIX));
    assert!(!is_allowed_update_url(&ALLOWED_URL_PREFIX[..ALLOWED_URL_PREFIX.len() - 1]));
}

// ---- pick_installer_url ----

#[test]
fn pick_installer_url_chooses_the_asset_for_the_os() {
    let release = release_json("v0.1.6", None);
    assert!(pick_installer_url(&release, "windows").ends_with("VSnapU.Downloader_x64_en-US.msi"));
    assert!(pick_installer_url(&release, "macos").ends_with("VSnapU.Downloader_x64.dmg"));
}

#[test]
fn pick_installer_url_falls_back_to_the_release_page() {
    let release = release_json("v0.1.6", None);
    assert_eq!(pick_installer_url(&release, "linux"), release.html_url);

    let mut no_assets = release_json("v0.1.6", None);
    no_assets.assets.clear();
    assert_eq!(pick_installer_url(&no_assets, "windows"), no_assets.html_url);
}

#[test]
fn pick_installer_url_matches_extensions_case_insensitively() {
    let mut release = release_json("v0.1.6", None);
    release.assets = vec![Asset {
        name: "SETUP.MSI".to_string(),
        browser_download_url: "https://github.com/vinaynasha/VsnapU_Downloader/releases/download/v0.1.6/SETUP.MSI".to_string(),
    }];
    assert!(pick_installer_url(&release, "windows").ends_with("SETUP.MSI"));
}

#[test]
fn pick_installer_url_takes_the_first_matching_asset() {
    let mut release = release_json("v0.1.6", None);
    release.assets.push(Asset { name: "other.msi".to_string(), browser_download_url: "second".to_string() });
    release.assets.insert(0, Asset { name: "first.Msi".to_string(), browser_download_url: "first".to_string() });
    assert_eq!(pick_installer_url(&release, "windows"), "first");
    assert_eq!(pick_installer_url(&release, "Windows"), release.html_url);
}

// ---- evaluate ----

#[test]
fn evaluate_reports_a_banner_for_a_newer_release() {
    let release = release_json("v0.1.6", Some("Nice release."));
    let result = evaluate("0.1.5", "windows", &release);
    assert_eq!(result.status, UpdateStatus::Banner);
    assert_eq!(result.latest_version, "0.1.6");
    assert!(result.installer_url.ends_with(".msi"));
}

#[test]
fn evaluate_reports_nothing_when_up_to_date() {
    let release = release_json("v0.1.5", None);
    let result = evaluate("0.1.5", "windows", &release);
    assert_eq!(result, UpdateCheckResult::none());
}

#[test]
fn evaluate_reports_blocking_for_a_critical_release() {
    let release = release_json("v0.1.6", Some("Security fix.\nmin-version: 0.1.6"));
    let result = evaluate("0.1.5", "macos", &release);
    assert_eq!(result.status, UpdateStatus::Blocking);
    assert!(result.installer_url.ends_with(".dmg"));
}

#[test]
fn evaluate_ignores_a_minimum_above_the_latest_version() {
    let release = release_json("v0.1.6", Some("min-version: 9.9.9"));
    assert_eq!(evaluate("0.1.5", "windows", &release).status, UpdateStatus::Banner);
}

#[test]
fn evaluate_is_silent_for_unparsable_versions() {
    let bad_tag = release_json("nightly", None);
    assert_eq!(evaluate("0.1.5", "windows", &bad_tag), UpdateCheckResult::none());

    let release = release_json("v0.1.6", None);
    assert_eq!(evaluate("dev-build", "windows", &release), UpdateCheckResult::none());
}

#[test]
fn evaluate_never_hands_out_a_url_outside_our_repo() {
    let mut release = release_json("v0.1.6", None);
    release.assets[0].browser_download_url = "https://evil.example/a.msi".to_string();
    let result = evaluate("0.1.5", "windows", &release);
    // The bad asset URL is rejected, so it falls back to the (allowed) release page.
    assert_eq!(result.status, UpdateStatus::Banner);
    assert_eq!(result.installer_url, release.html_url);

    release.html_url = "https://evil.example/release".to_string();
    // Nothing safe left to open -> no update is offered at all.
    assert_eq!(evaluate("0.1.5", "windows", &release), UpdateCheckResult::none());
}

#[test]
fn evaluate_reports_the_latest_version_in_canonical_form() {
    let release = release_json("v010.02.3-rc1", None);
    let result = evaluate("1.0.0", "linux", &release);
    assert_eq!(result.status, UpdateStatus::Banner);
    assert_eq!(result.latest_version, "10.2.3");
    assert_eq!(parse_version(&result.latest_version), Some(Version(10, 2, 3)));
    assert_eq!(result.installer_url, release.html_url);
}

#[test]
fn update_check_result_none_is_empty() {
    let none = UpdateCheckResult::none();
    assert_eq!(none.status, UpdateStatus::NoUpdate);
    assert!(none.latest_version.is_empty() && none.installer_url.is_empty());
}
