use suiup::handlers::self_::{
    current_version, self_update_url, suiup_archive_name, suiup_download_url, update_notice,
    SelfUpdateError, Ver, VersionError,
};

#[test]
fn running_version_from_version_output() {
    assert_eq!(
        current_version("suiup 1.2.3\n").unwrap(),
        Ver { major: 1, minor: 2, patch: 3 }
    );
    assert_eq!(
        current_version("  suiup\tv0.0.10  extra").unwrap(),
        Ver { major: 0, minor: 0, patch: 10 }
    );
    let e = current_version("suiup").unwrap_err();
    assert_eq!(e, SelfUpdateError::UnreadableVersion);
    assert_eq!(
        e.message(),
        "Failed to parse current version for suiup binary. Please update manually."
    );
    assert_eq!(
        current_version("suiup 1.2").unwrap_err(),
        SelfUpdateError::Version(VersionError::InvalidFormat)
    );
}

#[test]
fn archive_names_of_suiup() {
    assert_eq!(suiup_archive_name("ubuntu", "x86_64", false), "suiup-Linux-musl-x86_64.tar.gz");
    assert_eq!(suiup_archive_name("macos", "arm64", false), "suiup-macOS-arm64.tar.gz");
    assert_eq!(suiup_archive_name("ubuntu", "aarch64", false), "suiup-Linux-musl-arm64.tar.gz");
    assert_eq!(suiup_archive_name("windows", "x86_64", true), "suiup-Windows-msvc-x86_64.zip");
}

#[test]
fn self_update_download() {
    let latest = Ver { major: 0, minor: 0, patch: 2 };
    assert_eq!(
        suiup_download_url(&latest, "suiup-Linux-musl-x86_64.tar.gz"),
        "https://github.com/MystenLabs/suiup/releases/download/v0.0.2/suiup-Linux-musl-x86_64.tar.gz"
    );
    assert_eq!(self_update_url(&latest, &latest, "a.tar.gz"), None);
    let current = Ver { major: 0, minor: 0, patch: 1 };
    assert!(self_update_url(&current, &latest, "a.tar.gz").unwrap().ends_with("/v0.0.2/a.tar.gz"));
}

#[test]
fn newer_release_notice() {
    let current = Ver { major: 1, minor: 0, patch: 0 };
    let latest = Ver { major: 1, minor: 1, patch: 0 };
    assert_eq!(
        update_notice(&current, &latest).unwrap(),
        "\n\u{26a0}\u{fe0f}  A new version of suiup is available: v1.0.0 \u{2192} v1.1.0\n   Run 'suiup self update' to update to the latest version.\n"
    );
    assert_eq!(update_notice(&latest, &current), None);
    assert_eq!(update_notice(&latest, &latest), None);
}
