use suiup::standalone::{
    normalize_standalone_version, standalone_asset_name_candidates, standalone_asset_name_matches,
    standalone_releases_cache_file, standalone_tag_matches_version, standalone_tag_version,
    StandaloneAsset, StandaloneError, StandaloneInstaller, StandaloneRelease,
};

#[test]
fn standalone_installer_stores_github_token() {
    let installer = StandaloneInstaller::new("MystenLabs/mvr", Some("token123".to_string()));
    assert_eq!(installer.github_token(), Some("token123"));
}

#[test]
fn standalone_tag_version_normalizes_prefixed_tags() {
    assert_eq!(standalone_tag_version("v0.6.4"), Some("v0.6.4".to_string()));
    assert_eq!(standalone_tag_version("0.6.4"), Some("v0.6.4".to_string()));
    assert_eq!(
        standalone_tag_version("seal-v0.6.4"),
        Some("v0.6.4".to_string())
    );
}

#[test]
fn standalone_tag_matches_requested_version() {
    let version = normalize_standalone_version("0.6.4");

    assert!(standalone_tag_matches_version("v0.6.4", &version));
    assert!(standalone_tag_matches_version("seal-v0.6.4", &version));
    assert!(!standalone_tag_matches_version("seal-v0.6.5", &version));
}

#[test]
fn standalone_asset_name_candidates_include_linux_aliases() {
    assert_eq!(
        standalone_asset_name_candidates("seal", "ubuntu", "x86_64"),
        vec![
            "seal-ubuntu-x86_64".to_string(),
            "seal-linux-x86_64".to_string(),
        ]
    );
}

#[test]
fn standalone_asset_name_candidates_include_arm64_aliases() {
    assert_eq!(
        standalone_asset_name_candidates("seal", "macos", "arm64"),
        vec![
            "seal-macos-arm64".to_string(),
            "seal-macos-aarch64".to_string(),
        ]
    );
}

#[test]
fn standalone_asset_name_matching_keeps_existing_behavior() {
    let candidates = standalone_asset_name_candidates("mvr", "ubuntu", "x86_64");
    assert!(candidates
        .iter()
        .any(|candidate| standalone_asset_name_matches("mvr-ubuntu-x86_64", candidate)));
    assert!(candidates
        .iter()
        .any(|candidate| standalone_asset_name_matches("mvr-linux-x86_64", candidate)));

    let candidates = standalone_asset_name_candidates("mvr", "macos", "arm64");
    assert!(candidates
        .iter()
        .any(|candidate| standalone_asset_name_matches("mvr-macos-arm64", candidate)));
    assert!(candidates
        .iter()
        .any(|candidate| standalone_asset_name_matches("mvr-macos-aarch64", candidate)));
}

#[test]
fn standalone_asset_name_matching_accepts_windows_extensions() {
    let candidates = standalone_asset_name_candidates("seal", "windows", "x86_64");
    assert!(candidates.iter().any(|candidate| {
        standalone_asset_name_matches("seal-windows-x86_64.exe", candidate)
    }));
}

fn release(tag: &str, assets: &[&str]) -> StandaloneRelease {
    StandaloneRelease {
        tag_name: tag.to_string(),
        assets: assets
            .iter()
            .map(|n| StandaloneAsset {
                name: n.to_string(),
                browser_download_url: format!("https://example.com/{n}"),
            })
            .collect(),
    }
}

#[test]
fn standalone_release_and_asset_selection() {
    let mut installer = StandaloneInstaller::new("MystenLabs/seal", None);
    assert!(matches!(
        installer.latest_version(),
        Err(StandaloneError::NoReleases(_))
    ));
    installer.set_releases(vec![
        release("seal-v0.6.5", &["seal-linux-x86_64", "seal-macos-arm64"]),
        release("seal-v0.6.4", &["seal-ubuntu-x86_64", "seal-linux-x86_64"]),
    ]);
    assert_eq!(installer.latest_version().unwrap(), "v0.6.5");
    assert_eq!(installer.resolve_version(None).unwrap(), "v0.6.5");
    assert_eq!(installer.resolve_version(Some("0.6.4")).unwrap(), "v0.6.4");
    // Latest release, Linux: only the `linux` alias is there.
    assert_eq!(installer.select_asset(None, "seal", "ubuntu", "x86_64").unwrap(), (0, 0));
    // Requested release, Linux: the `ubuntu` name is preferred.
    assert_eq!(
        installer.select_asset(Some("v0.6.4"), "seal", "ubuntu", "x86_64").unwrap(),
        (1, 0)
    );
    assert_eq!(installer.select_asset(None, "seal", "macos", "aarch64").unwrap(), (0, 1));
    let e = installer.select_asset(Some("v9.9.9"), "seal", "ubuntu", "x86_64").unwrap_err();
    assert_eq!(e.message(), "Version v9.9.9 not found");
    let e = installer.select_asset(None, "seal", "windows", "x86_64").unwrap_err();
    assert_eq!(e.message(), "No compatible binary found for your system: windows-x86_64");
    assert_eq!(
        standalone_releases_cache_file("MystenLabs/seal"),
        "standalone_releases_MystenLabs_seal.json"
    );
    assert_eq!(standalone_tag_version("release"), None);
}

#[test]
fn release_selection_comes_before_the_platform() {
    let mut installer = StandaloneInstaller::new("MystenLabs/mvr", None);
    assert!(matches!(installer.select_release(None), Err(StandaloneError::NoReleases(_))));
    installer.set_releases(vec![
        StandaloneRelease { tag_name: "v0.0.6".to_string(), assets: vec![] },
        StandaloneRelease { tag_name: "v0.0.5".to_string(), assets: vec![] },
    ]);
    assert_eq!(installer.select_release(None).unwrap(), 0);
    assert_eq!(installer.select_release(Some("v0.0.5")).unwrap(), 1);
    match installer.select_release(Some("v9.9.9")) {
        Err(e @ StandaloneError::VersionNotFound(_)) => {
            assert_eq!(e.message(), "Version v9.9.9 not found")
        }
        _ => panic!("found a version that is not released"),
    }
}
