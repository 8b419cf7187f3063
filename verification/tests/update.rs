use mlc_cli::update::{
    archive_name, check_checksum, newer, newer_version, release_notes, target, up_to_date_report,
    updated_report, verify, ArchiveEntry, mlc_path, select_executable, select_from_entries, update_payload, update_plan, Asset, Release, SemVer,
};
use mlc_cli::json::Json;
use sha2::Digest;

#[test]
fn supports_every_release_platform() {
    for os in ["macos", "linux"] {
        for arch in ["aarch64", "x86_64"] {
            assert!(target(os, arch).is_ok());
        }
    }
    assert!(target("windows", "x86_64").is_err());
    assert!(target("linux", "arm").is_err());
}

#[test]
fn target_triples_name_the_release_archives() {
    assert_eq!(target("macos", "aarch64").unwrap(), "aarch64-apple-darwin");
    assert_eq!(target("linux", "x86_64").unwrap(), "x86_64-unknown-linux-gnu");
    let os_error = target("windows", "arm").unwrap_err();
    assert_eq!(os_error.code, 1);
    assert_eq!(os_error.message, "Unsupported platform for self-update");
    let arch_error = target("linux", "arm").unwrap_err();
    assert_eq!(arch_error.message, "Unsupported architecture for self-update");
    assert_eq!(archive_name("x86_64-unknown-linux-gnu"), "mlc-x86_64-unknown-linux-gnu.tar.gz");
}

#[test]
fn never_downgrades_or_accepts_invalid_versions() {
    assert!(newer("v0.3.0", "0.2.0").unwrap());
    assert!(!newer("v0.2.0", "0.2.0").unwrap());
    assert!(!newer("v0.1.0", "0.2.0").unwrap());
    assert!(newer("", "0.2.0").is_err());
}

#[test]
fn version_errors_name_the_invalid_side() {
    let tag = newer("vnext", "0.2.0").unwrap_err();
    assert_eq!((tag.code, tag.message.as_str()), (1, "Release has an invalid version"));
    let current = newer("v0.3.0", "two").unwrap_err();
    assert_eq!((current.code, current.message.as_str()), (1, "Current version is invalid"));
    assert!(newer("0.10.0", "0.9.9").unwrap());
    assert!(!newer("v1.0.0-rc.1", "1.0.0").unwrap());
    assert!(newer("v1.0.0", "1.0.0-rc.1").unwrap());
}

#[test]
fn requires_matching_platform_checksum() {
    let manifest = format!("{:x}  mlc-test.tar.gz\n", sha2::Sha256::digest(b"archive"));
    assert!(verify(b"archive", manifest.as_bytes(), "mlc-test.tar.gz").is_ok());
    assert!(verify(b"tampered", manifest.as_bytes(), "mlc-test.tar.gz").is_err());
    assert!(verify(b"archive", manifest.as_bytes(), "other.tar.gz").is_err());
}

#[test]
fn checksum_manifest_lines_are_read_like_sha256sum_output() {
    let hash = format!("{:x}", sha2::Sha256::digest(b"archive"));
    let upper = hash.to_uppercase();
    let manifest = format!(
        "{}  other.tar.gz\r\n\n{} *mlc-test.tar.gz\r\n",
        "0".repeat(64),
        upper
    );
    assert!(verify(b"archive", manifest.as_bytes(), "mlc-test.tar.gz").is_ok());
    let first_wins = format!("{}  mlc-test.tar.gz\n{}  mlc-test.tar.gz", "0".repeat(64), hash);
    let error = verify(b"archive", first_wins.as_bytes(), "mlc-test.tar.gz").unwrap_err();
    assert_eq!(error.message, "Update checksum mismatch; executable was not changed");
    let missing = verify(b"archive", hash.as_bytes(), "mlc-test.tar.gz").unwrap_err();
    assert_eq!(missing.message, "Release checksum is missing for this platform");
    let invalid = verify(b"archive", &[0xff, 0xfe], "mlc-test.tar.gz").unwrap_err();
    assert_eq!(invalid.message, "Invalid release checksums");
}

#[test]
fn rejects_missing_and_untrusted_assets() {
    let release = Release {
        tag_name: "v0.3.0".into(),
        body: None,
        assets: vec![Asset {
            name: "mlc.tar.gz".into(),
            browser_download_url: "https://example.com/mlc".into(),
        }],
    };
    assert!(release.asset("SHA256SUMS").is_err());
    assert!(release.asset("mlc.tar.gz").is_err());
}

#[test]
fn release_assets_come_from_project_downloads() {
    let url = "https://github.com/oneortwo/mlc-cli/releases/download/v0.3.0/SHA256SUMS";
    let release = Release {
        tag_name: "v0.3.0".into(),
        body: Some("  notes \n".into()),
        assets: vec![
            Asset { name: "SHA256SUMS".into(), browser_download_url: url.into() },
            Asset {
                name: "SHA256SUMS".into(),
                browser_download_url: "https://example.com/other".into(),
            },
        ],
    };
    assert_eq!(release.asset("SHA256SUMS").unwrap(), url);
    let error = release.asset("mlc-x.tar.gz").unwrap_err();
    assert_eq!(error.message, "Release is missing a valid mlc-x.tar.gz asset");
    assert_eq!(release_notes(&release.body).as_deref(), Some("notes"));
    assert_eq!(release_notes(&Some(" \t".into())), None);
    assert_eq!(release_notes(&None), None);
}

#[test]
fn update_reports_versions_without_tag_prefix() {
    let report = updated_report("0.2.0", "v0.3.0");
    assert_eq!(
        report,
        Json::Object(vec![
            ("updated".into(), Json::Bool(true)),
            ("previous_version".into(), Json::Str("0.2.0".into())),
            ("version".into(), Json::Str("0.3.0".into())),
        ])
    );
    assert_eq!(
        up_to_date_report("0.2.0"),
        Json::Object(vec![
            ("updated".into(), Json::Bool(false)),
            ("version".into(), Json::Str("0.2.0".into())),
        ])
    );
}

fn archive(name: &str, data: &[u8], kind: tar::EntryType) -> Vec<u8> {
    archive_of(&[(name, data, kind)])
}

fn archive_of(entries: &[(&str, &[u8], tar::EntryType)]) -> Vec<u8> {
    let encoder = flate2::write::GzEncoder::new(Vec::new(), flate2::Compression::default());
    let mut tar = tar::Builder::new(encoder);
    for (name, data, kind) in entries {
        let mut header = tar::Header::new_gnu();
        header.set_size(data.len() as u64);
        header.set_mode(0o755);
        header.set_entry_type(*kind);
        header.set_cksum();
        tar.append_data(&mut header, name, *data).unwrap();
    }
    tar.into_inner().unwrap().finish().unwrap()
}

#[test]
fn replaces_binary_and_preserves_original_on_bad_archives() {
    for bad in [
        b"invalid".to_vec(),
        archive("other", b"new", tar::EntryType::Regular),
        archive("mlc", b"", tar::EntryType::Regular),
        archive("mlc", b"", tar::EntryType::Symlink),
    ] {
        assert!(select_executable(&bad).is_err());
    }
    assert_eq!(
        select_executable(&archive("mlc", b"new", tar::EntryType::Regular)).unwrap(),
        b"new"
    );
}

#[test]
fn update_archive_errors_name_the_defect() {
    let message = |a: Vec<u8>| select_executable(&a).unwrap_err().message;
    assert_eq!(message(b"invalid".to_vec()), "Invalid update archive entry");
    assert_eq!(
        message(archive("other", b"new", tar::EntryType::Regular)),
        "Archive does not contain mlc"
    );
    assert_eq!(
        message(archive("mlc", b"", tar::EntryType::Regular)),
        "Update executable is empty"
    );
    assert_eq!(
        message(archive("mlc", b"", tar::EntryType::Symlink)),
        "Archive must contain exactly one regular mlc executable"
    );
    let twice = archive_of(&[
        ("mlc", b"one", tar::EntryType::Regular),
        ("mlc", b"two", tar::EntryType::Regular),
    ]);
    assert_eq!(message(twice), "Archive must contain exactly one regular mlc executable");
    let mut truncated = archive_of(&[
        ("mlc", b"new", tar::EntryType::Regular),
        ("README", &[7u8; 4000], tar::EntryType::Regular),
    ]);
    truncated.truncate(truncated.len() / 2);
    assert!(select_executable(&truncated).is_err());
}

#[test]
fn update_archive_takes_the_executable_among_other_entries() {
    let a = archive_of(&[
        ("README", b"notes", tar::EntryType::Regular),
        ("mlc", b"binary", tar::EntryType::Regular),
        ("LICENSE", b"text", tar::EntryType::Regular),
    ]);
    assert_eq!(select_executable(&a).unwrap(), b"binary");
}

#[test]
fn executable_paths_compare_like_std_paths() {
    for (path, expected) in [
        ("mlc", true),
        ("mlc/", true),
        ("mlc//", true),
        ("mlc/.", true),
        ("mlc/./", true),
        ("./mlc", false),
        ("/mlc", false),
        ("mlc/..", false),
        ("mlc/x", false),
        ("mlcx", false),
        ("ml", false),
        ("bin/mlc", false),
    ] {
        assert_eq!(mlc_path(&path.as_bytes().to_vec()), expected, "{path}");
        assert_eq!(
            std::path::Path::new(path) == std::path::Path::new("mlc"),
            expected,
            "{path}"
        );
    }
}

#[test]
fn entries_are_judged_in_order() {
    let entry = |path: &str, regular: bool, data: Option<&[u8]>| ArchiveEntry {
        path: path.as_bytes().to_vec(),
        regular,
        data: data.map(|d| d.to_vec()),
    };
    let good = vec![entry("a", true, Some(b"x")), entry("mlc", true, Some(b"exe"))];
    assert_eq!(select_from_entries(&good, false).unwrap(), b"exe");
    assert_eq!(
        select_from_entries(&good, true).unwrap_err().message,
        "Invalid update archive entry"
    );
    let unread = vec![entry("mlc", true, None)];
    assert_eq!(
        select_from_entries(&unread, true).unwrap_err().message,
        "Cannot stage update executable"
    );
    let other_unread = vec![entry("mlc", true, Some(b"exe")), entry("b", true, None)];
    assert_eq!(
        select_from_entries(&other_unread, true).unwrap_err().message,
        "Invalid update archive entry"
    );
}

#[test]
fn checksums_compare_hex_digests_in_either_case() {
    let digest = [0xab, 0x01, 0xff];
    assert!(check_checksum(&digest, b"AB01FF  mlc.tar.gz\n", "mlc.tar.gz").is_ok());
    assert!(check_checksum(&digest, b"ab01ff *mlc.tar.gz", "mlc.tar.gz").is_ok());
    let error = check_checksum(&digest, b"ab01fe  mlc.tar.gz", "mlc.tar.gz").unwrap_err();
    assert_eq!(error.message, "Update checksum mismatch; executable was not changed");
    assert!(check_checksum(&digest, b"ab01ff  other", "mlc.tar.gz").is_err());
}

fn version(major: u64, minor: u64, patch: u64, pre: &str) -> SemVer {
    SemVer { major, minor, patch, pre: pre.into(), build: String::new() }
}

#[test]
fn parsed_versions_compare_by_release_numbers_then_pre_release() {
    assert!(newer_version(Some(version(0, 3, 0, "")), Some(version(0, 2, 9, ""))).unwrap());
    assert!(!newer_version(Some(version(0, 2, 0, "")), Some(version(0, 2, 0, ""))).unwrap());
    assert!(!newer_version(Some(version(1, 0, 0, "rc.1")), Some(version(1, 0, 0, ""))).unwrap());
    let missing = newer_version(None, Some(version(0, 2, 0, ""))).unwrap_err();
    assert_eq!(missing.message, "Release has an invalid version");
    let current = newer_version(Some(version(0, 2, 0, "")), None).unwrap_err();
    assert_eq!(current.message, "Current version is invalid");
}

fn release(tag: &str, assets: &[(&str, &str)]) -> Release {
    Release {
        tag_name: tag.into(),
        body: None,
        assets: assets
            .iter()
            .map(|(name, url)| Asset { name: (*name).into(), browser_download_url: (*url).into() })
            .collect(),
    }
}

const DOWNLOADS: &str = "https://github.com/oneortwo/mlc-cli/releases/download/v0.3.0/";

#[test]
fn update_plan_downloads_only_newer_trusted_releases() {
    let archive_url = format!("{DOWNLOADS}mlc-x86_64-unknown-linux-gnu.tar.gz");
    let sums_url = format!("{DOWNLOADS}SHA256SUMS");
    let assets = [
        ("mlc-x86_64-unknown-linux-gnu.tar.gz", archive_url.as_str()),
        ("SHA256SUMS", sums_url.as_str()),
    ];
    let plan = update_plan("x86_64-unknown-linux-gnu", "0.2.0", &release("v0.3.0", &assets));
    assert_eq!(plan.unwrap(), Some((archive_url.clone(), sums_url.clone())));
    for tag in ["v0.2.0", "v0.1.0"] {
        assert_eq!(
            update_plan("x86_64-unknown-linux-gnu", "0.2.0", &release(tag, &assets)).unwrap(),
            None
        );
    }
    assert_eq!(
        update_plan("x86_64-unknown-linux-gnu", "0.2.0", &release("", &assets))
            .unwrap_err()
            .message,
        "Release has an invalid version"
    );
    let elsewhere = [
        ("mlc-x86_64-unknown-linux-gnu.tar.gz", "https://example.com/mlc"),
        ("SHA256SUMS", sums_url.as_str()),
    ];
    assert_eq!(
        update_plan("x86_64-unknown-linux-gnu", "0.2.0", &release("v0.3.0", &elsewhere))
            .unwrap_err()
            .message,
        "Release is missing a valid mlc-x86_64-unknown-linux-gnu.tar.gz asset"
    );
    let no_sums = [("mlc-x86_64-unknown-linux-gnu.tar.gz", archive_url.as_str())];
    assert_eq!(
        update_plan("x86_64-unknown-linux-gnu", "0.2.0", &release("v0.3.0", &no_sums))
            .unwrap_err()
            .message,
        "Release is missing a valid SHA256SUMS asset"
    );
}

#[test]
fn update_payload_needs_the_matching_checksum_first() {
    let target = "aarch64-apple-darwin";
    let good = archive("mlc", b"new", tar::EntryType::Regular);
    let sums = format!("{:x}  mlc-{target}.tar.gz\n", sha2::Sha256::digest(&good));
    assert_eq!(update_payload(target, &good, sums.as_bytes()).unwrap(), b"new");
    let tampered = archive("mlc", b"evil", tar::EntryType::Regular);
    assert_eq!(
        update_payload(target, &tampered, sums.as_bytes()).unwrap_err().message,
        "Update checksum mismatch; executable was not changed"
    );
    let other = format!("{:x}  mlc-other.tar.gz\n", sha2::Sha256::digest(&good));
    assert_eq!(
        update_payload(target, &good, other.as_bytes()).unwrap_err().message,
        "Release checksum is missing for this platform"
    );
    let empty = archive("mlc", b"", tar::EntryType::Regular);
    let sums = format!("{:x}  mlc-{target}.tar.gz\n", sha2::Sha256::digest(&empty));
    assert_eq!(
        update_payload(target, &empty, sums.as_bytes()).unwrap_err().message,
        "Update executable is empty"
    );
}
