use joycore_x_lib::update::models::{
    FirmwareRelease, Timestamp, UpdateError, VersionCheckResult,
};
use joycore_x_lib::update::service::{
    available_versions, check_release, extract_sha256_from_release, parse_github_release,
    releases_url, verify_firmware, AssetData, ReleaseData,
};

const ABC_SHA256: &str = "ba7816bf8f01cfea414140de5dae2223b00361a396177a9cb410ff61f20015ad";

fn asset(name: &str, url: Option<&str>, size: Option<u64>) -> AssetData {
    AssetData {
        name: Some(name.to_string()),
        browser_download_url: url.map(|u| u.to_string()),
        size,
    }
}

fn release(tag: &str) -> ReleaseData {
    ReleaseData {
        tag_name: Some(tag.to_string()),
        published_at: Some("1996-12-19T16:39:57-08:00".to_string()),
        body: Some(format!("Fixes.\nSHA256: {}\n", ABC_SHA256.to_uppercase())),
        assets: Some(vec![
            asset("notes.txt", Some("https://example.org/notes"), Some(1)),
            asset("joycore.uf2", Some("https://example.org/fw"), Some(4096)),
            asset("firmware.zip", Some("https://example.org/zip"), Some(2)),
        ]),
    }
}

fn parsed(tag: &str) -> FirmwareRelease {
    parse_github_release(&release(tag)).unwrap()
}

#[test]
fn test_version_comparison() {
    let newer = |a: &str, b: &str| check_release(b, parsed(a)).unwrap().update_available;
    assert!(newer("1.0.1", "1.0.0"));
    assert!(newer("2.0.0", "1.0.1"));
    assert!(newer("2.0.0", "1.0.0"));
}

#[test]
fn versions_are_ordered_as_semver_orders_them() {
    let newer = |a: &str, b: &str| check_release(b, parsed(a)).unwrap().update_available;
    assert!(!newer("1.0.0", "1.0.0"));
    assert!(!newer("1.0.0", "1.0.1"));
    assert!(newer("1.10.0", "1.9.9"));
    assert!(newer("1.0.0", "1.0.0-rc.1"));
    assert!(!newer("1.0.0-alpha", "1.0.0"));
    assert!(newer("1.0.0-beta", "1.0.0-alpha"));
    assert_eq!(check_release("one", parsed("1.0.0")), Err(UpdateError::InvalidVersion));
    let mut broken = parsed("1.0.0");
    broken.version = "1.0".to_string();
    assert_eq!(check_release("1.0.0", broken), Err(UpdateError::InvalidVersion));
}

#[test]
fn a_release_is_handed_on_only_if_it_is_newer() {
    let latest = parsed("v1.2.0");
    assert_eq!(
        check_release("1.1.0", latest.clone()),
        Ok(VersionCheckResult {
            current_version: "1.1.0".to_string(),
            latest_version: "1.2.0".to_string(),
            update_available: true,
            release_info: Some(latest.clone()),
        })
    );
    assert_eq!(
        check_release("1.2.0", latest),
        Ok(VersionCheckResult {
            current_version: "1.2.0".to_string(),
            latest_version: "1.2.0".to_string(),
            update_available: false,
            release_info: None,
        })
    );
}

#[test]
fn a_release_description_is_read_in_full() {
    let r = parsed("v1.2.3");
    assert_eq!(
        r,
        FirmwareRelease {
            version: "1.2.3".to_string(),
            download_url: "https://example.org/fw".to_string(),
            changelog: format!("Fixes.\nSHA256: {}\n", ABC_SHA256.to_uppercase()),
            published_at: Timestamp { seconds: 851042397, nanoseconds: 0 },
            size_bytes: 4096,
            sha256_hash: Some(ABC_SHA256.to_string()),
        }
    );
    assert_eq!(parsed("1.2.3").version, "1.2.3");
    assert_eq!(parsed("v1.2.3-rc.1+build.5").version, "1.2.3-rc.1+build.5");
    let mut fractional = release("1.0.0");
    fractional.published_at = Some("1970-01-01T00:00:01.5Z".to_string());
    assert_eq!(
        parse_github_release(&fractional).unwrap().published_at,
        Timestamp { seconds: 1, nanoseconds: 500_000_000 }
    );
}

#[test]
fn what_is_missing_in_a_release_is_named() {
    let mut r = release("v1.0.0");
    r.tag_name = None;
    assert_eq!(parse_github_release(&r), Err(UpdateError::MissingTagName));
    assert_eq!(parse_github_release(&release("vv1.0.0")), Err(UpdateError::InvalidVersion));
    assert_eq!(parse_github_release(&release("1.0")), Err(UpdateError::InvalidVersion));
    assert_eq!(parse_github_release(&release("1.0.01")), Err(UpdateError::InvalidVersion));
    assert_eq!(parse_github_release(&release("")), Err(UpdateError::InvalidVersion));
    let mut r = release("1.0.0");
    r.published_at = None;
    assert_eq!(parse_github_release(&r), Err(UpdateError::MissingPublishedAt));
    r.published_at = Some("yesterday".to_string());
    assert_eq!(parse_github_release(&r), Err(UpdateError::InvalidDate));
    let mut r = release("1.0.0");
    r.assets = None;
    assert_eq!(parse_github_release(&r), Err(UpdateError::MissingAssets));
    r.assets = Some(vec![asset("notes.txt", Some("u"), None), AssetData {
        name: None,
        browser_download_url: Some("u".to_string()),
        size: None,
    }]);
    assert_eq!(parse_github_release(&r), Err(UpdateError::NoFirmwareAsset));
    r.assets = Some(vec![asset("x.bin", None, None), asset("y.uf2", Some("u"), None)]);
    assert_eq!(parse_github_release(&r), Err(UpdateError::MissingDownloadUrl));
    r.assets = Some(vec![asset("my-firmware-image", Some("u"), None)]);
    r.body = None;
    let read = parse_github_release(&r).unwrap();
    assert_eq!(read.size_bytes, 0);
    assert_eq!(read.changelog, "");
    assert_eq!(read.sha256_hash, None);
    assert_eq!(UpdateError::NoFirmwareAsset.message(), "Parse error: No firmware asset found in GitHub release");
    assert_eq!(UpdateError::InvalidSignature.message(), "Invalid firmware signature");
}

#[test]
fn the_checksum_is_found_in_the_release_notes() {
    let lower = ABC_SHA256.to_string();
    assert_eq!(extract_sha256_from_release(None), None);
    assert_eq!(extract_sha256_from_release(Some("no checksum here")), None);
    assert_eq!(
        extract_sha256_from_release(Some(&format!("sha256:{}", ABC_SHA256))),
        Some(lower.clone())
    );
    assert_eq!(
        extract_sha256_from_release(Some(&format!("Sha256 = `{}`", ABC_SHA256.to_uppercase()))),
        Some(lower.clone())
    );
    assert_eq!(
        extract_sha256_from_release(Some(&format!("SHA256:\n  {} more", ABC_SHA256))),
        Some(lower.clone())
    );
    assert_eq!(
        extract_sha256_from_release(Some(&format!("sha256={}ff", ABC_SHA256))),
        Some(lower.clone())
    );
    assert_eq!(
        extract_sha256_from_release(Some(&format!("sha256: {}", &ABC_SHA256[..63]))),
        None
    );
    assert_eq!(
        extract_sha256_from_release(Some(&format!("sha256: {} {}", &ABC_SHA256[..32], &ABC_SHA256[32..]))),
        Some(lower.clone())
    );
    assert_eq!(
        extract_sha256_from_release(Some(&format!("sha256: {}-{}", &ABC_SHA256[..32], &ABC_SHA256[32..]))),
        None
    );
    assert_eq!(
        extract_sha256_from_release(Some(&format!("sha256: none\nsha256 {}", ABC_SHA256))),
        Some(lower.clone())
    );
    assert_eq!(
        extract_sha256_from_release(Some(&format!("sha256: short\nsha256 {}", ABC_SHA256))),
        Some(format!("a256{}", &ABC_SHA256[..60]))
    );
    assert_eq!(
        extract_sha256_from_release(Some(&format!("sha256: 12 34!\nsha256={}", ABC_SHA256))),
        Some(lower)
    );
}

#[test]
fn an_image_is_checked_against_its_checksum() {
    assert_eq!(verify_firmware(b"abc", None), Ok(true));
    assert_eq!(verify_firmware(b"abc", Some(ABC_SHA256)), Ok(true));
    assert_eq!(verify_firmware(b"abc", Some(&ABC_SHA256.to_uppercase())), Ok(true));
    assert_eq!(verify_firmware(b"abd", Some(ABC_SHA256)), Err(UpdateError::InvalidSignature));
    assert_eq!(verify_firmware(b"abc", Some("")), Err(UpdateError::InvalidSignature));
    assert_eq!(
        verify_firmware(
            b"",
            Some("e3b0c44298fc1c149afbf4c8996fb92427ae41e4649b934ca495991b7852b855")
        ),
        Ok(true)
    );
}

#[test]
fn releases_are_listed_newest_first() {
    let mut unreadable = release("not-a-version");
    unreadable.body = None;
    let data = vec![
        release("v1.0.0"),
        release("v2.1.0"),
        unreadable,
        release("v1.5.0"),
        release("v2.1.0+other"),
        release("v2.1.0-rc.1"),
    ];
    let versions: Vec<String> =
        available_versions(&data).into_iter().map(|r| r.version).collect();
    assert_eq!(versions, vec!["2.1.0+other", "2.1.0", "2.1.0-rc.1", "1.5.0", "1.0.0"]);
    assert!(available_versions(&[]).is_empty());
}

#[test]
fn release_addresses_name_the_repository() {
    assert_eq!(
        releases_url("https://api.github.com", "owner", "repo", true),
        "https://api.github.com/repos/owner/repo/releases/latest"
    );
    assert_eq!(
        releases_url("https://api.github.com", "owner", "repo", false),
        "https://api.github.com/repos/owner/repo/releases"
    );
}

#[test]
fn an_image_is_stored_under_the_name_of_its_version() {
    assert_eq!(
        joycore_x_lib::update::service::firmware_file_name("1.2.3"),
        "firmware-1.2.3.uf2"
    );
    assert_eq!(joycore_x_lib::update::service::firmware_file_name(""), "firmware-.uf2");
}

#[test]
fn a_release_to_download_needs_a_version_and_a_date() {
    let make = |version: &str, published_at: &str| {
        joycore_x_lib::update::service::release_to_download(
            "https://example.org/fw".to_string(),
            version.to_string(),
            "Fixes.".to_string(),
            published_at,
            4096,
        )
    };
    assert_eq!(
        make("1.2.3", "1996-12-19T16:39:57-08:00"),
        Ok(FirmwareRelease {
            version: "1.2.3".to_string(),
            download_url: "https://example.org/fw".to_string(),
            changelog: "Fixes.".to_string(),
            published_at: Timestamp { seconds: 851042397, nanoseconds: 0 },
            size_bytes: 4096,
            sha256_hash: None,
        })
    );
    assert_eq!(
        make("1.2.3", "2024-01-02T03:04:05.250Z").map(|r| r.published_at),
        Ok(Timestamp { seconds: 1704164645, nanoseconds: 250_000_000 })
    );
    assert_eq!(make("1.2", "1996-12-19T16:39:57-08:00"), Err(UpdateError::InvalidVersion));
    assert_eq!(make("1.2.3", "yesterday"), Err(UpdateError::InvalidDate));
    assert_eq!(make("v1", "yesterday"), Err(UpdateError::InvalidVersion));
}

#[test]
fn a_release_is_put_together_from_what_was_made_of_its_parts() {
    let at = Timestamp { seconds: 10, nanoseconds: 20 };
    let read = joycore_x_lib::update::service::release_from;
    let good = read(&release("v1.2.3"), true, Some(at)).unwrap();
    assert_eq!(good.version, "1.2.3");
    assert_eq!(good.download_url, "https://example.org/fw");
    assert_eq!(good.published_at, at);
    assert_eq!(good.size_bytes, 4096);
    assert_eq!(good.sha256_hash.as_deref(), Some(ABC_SHA256));
    assert_eq!(read(&release("1.2.3"), true, Some(at)).unwrap().version, "1.2.3");

    assert_eq!(read(&release("v1.2.3"), false, Some(at)), Err(UpdateError::InvalidVersion));
    assert_eq!(read(&release("v1.2.3"), true, None), Err(UpdateError::InvalidDate));
    assert_eq!(read(&release("v1.2.3"), false, None), Err(UpdateError::InvalidVersion));
    let mut nameless = release("v1.2.3");
    nameless.tag_name = None;
    assert_eq!(read(&nameless, true, Some(at)), Err(UpdateError::MissingTagName));
    let mut undated = release("v1.2.3");
    undated.published_at = None;
    assert_eq!(read(&undated, true, Some(at)), Err(UpdateError::MissingPublishedAt));
    let mut bare = release("v1.2.3");
    bare.assets = None;
    assert_eq!(read(&bare, true, Some(at)), Err(UpdateError::MissingAssets));
    bare.assets = Some(vec![asset("notes.txt", Some("https://example.org/notes"), None)]);
    assert_eq!(read(&bare, true, Some(at)), Err(UpdateError::NoFirmwareAsset));
    bare.assets = Some(vec![asset("fw.uf2", None, None)]);
    assert_eq!(read(&bare, true, Some(at)), Err(UpdateError::MissingDownloadUrl));
}

#[test]
fn the_outcome_of_a_comparison_hands_the_release_on_if_it_is_newer() {
    let outcome = joycore_x_lib::update::service::version_check_result;
    assert_eq!(
        outcome("1.0.0", parsed("v1.2.3"), Some(true)),
        Ok(VersionCheckResult {
            current_version: "1.0.0".to_string(),
            latest_version: "1.2.3".to_string(),
            update_available: true,
            release_info: Some(parsed("v1.2.3")),
        })
    );
    assert_eq!(
        outcome("2.0.0", parsed("v1.2.3"), Some(false)),
        Ok(VersionCheckResult {
            current_version: "2.0.0".to_string(),
            latest_version: "1.2.3".to_string(),
            update_available: false,
            release_info: None,
        })
    );
    assert_eq!(outcome("new", parsed("v1.2.3"), None), Err(UpdateError::InvalidVersion));
}

#[test]
fn a_checksum_is_judged_letter_for_letter() {
    let judge = joycore_x_lib::update::service::judge_checksum;
    assert_eq!(judge("abc", None), Ok(true));
    assert_eq!(judge("abc", Some("abc")), Ok(true));
    assert_eq!(judge("abc", Some("ABC")), Err(UpdateError::InvalidSignature));
    assert_eq!(judge("abc", Some("abcd")), Err(UpdateError::InvalidSignature));
    assert_eq!(judge("", Some("")), Ok(true));
}

#[test]
fn a_download_is_described_from_what_was_made_of_its_parts() {
    let make = |valid: bool, at: Option<Timestamp>| {
        joycore_x_lib::update::service::release_for_download(
            "https://example.org/fw".to_string(),
            "1.2.3".to_string(),
            "Fixes.".to_string(),
            valid,
            at,
            7,
        )
    };
    let at = Timestamp { seconds: 1, nanoseconds: 2 };
    assert_eq!(
        make(true, Some(at)),
        Ok(FirmwareRelease {
            version: "1.2.3".to_string(),
            download_url: "https://example.org/fw".to_string(),
            changelog: "Fixes.".to_string(),
            published_at: at,
            size_bytes: 7,
            sha256_hash: None,
        })
    );
    assert_eq!(make(false, Some(at)), Err(UpdateError::InvalidVersion));
    assert_eq!(make(false, None), Err(UpdateError::InvalidVersion));
    assert_eq!(make(true, None), Err(UpdateError::InvalidDate));
}
