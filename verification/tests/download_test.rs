use suiup::handlers::download::{
    check_cached_file, download_auth_header, effective_total_size, find_asset_for_target,
    first_asset_matching,
    find_cached_release_archive, generate_network_suggestions_error, os_arch_for,
    verify_downloaded_file, CachedFile, DownloadError, Platform, PlatformError,
};
use suiup::registry::BinaryRegistry;
use suiup::types::{Asset, Release};

fn create_test_release(asset_names: Vec<&str>) -> Release {
    Release {
        assets: asset_names
            .into_iter()
            .map(|name| Asset {
                name: name.to_string(),
                browser_download_url: format!("https://example.com/{}", name),
            })
            .collect(),
    }
}

fn config(name: &str) -> suiup::registry::BinaryConfig {
    BinaryRegistry::global()
        .get(name)
        .map(|c| suiup::registry::BinaryName::new(&c.name).unwrap().config())
        .unwrap()
}

#[test]
fn test_generate_network_suggestions_error_with_version() {
    let config = config("sui");
    let releases = vec![
        create_test_release(vec!["sui-devnet-v1.53.0-linux-x86_64.tgz"]),
        create_test_release(vec!["sui-mainnet-v1.53.0-linux-x86_64.tgz"]),
    ];
    let error = generate_network_suggestions_error(&config, &releases, Some("1.53.0"), "testnet");
    assert!(error.contains("Release testnet-1.53.0 not found"));
    assert!(error.contains("version 1.53.0 is available for other networks"));
    assert!(error.contains("suiup install sui@devnet-1.53.0"));
    assert!(error.contains("suiup install sui@mainnet-1.53.0"));
}

#[test]
fn test_generate_network_suggestions_error_without_version() {
    let config = config("sui");
    let releases = vec![
        create_test_release(vec!["sui-devnet-v1.53.0-linux-x86_64.tgz"]),
        create_test_release(vec!["walrus-mainnet-v1.54.0-linux-x86_64.tgz"]),
    ];
    let error = generate_network_suggestions_error(&config, &releases, None, "testnet");
    assert!(error.contains("No releases found for testnet network"));
    assert!(error.contains("Available networks"));
    assert!(error.contains("suiup install sui@devnet"));
    assert!(error.contains("suiup install sui@mainnet"));
}

#[test]
fn test_generate_network_suggestions_error_mvr_with_version() {
    let config = config("mvr");
    let releases = vec![];
    let error = generate_network_suggestions_error(&config, &releases, Some("1.0.0"), "standalone");
    assert!(error.contains("mvr version 1.0.0 not found"));
    assert!(error.contains("mvr is a standalone binary"));
    assert!(error.contains("suiup install mvr 1.0.0"));
}

#[test]
fn test_generate_network_suggestions_error_mvr_without_version() {
    let config = config("mvr");
    let releases = vec![];
    let error = generate_network_suggestions_error(&config, &releases, None, "standalone");
    assert!(error.contains("mvr release not found"));
    assert!(error.contains("mvr is a standalone binary"));
    assert!(error.contains("suiup install mvr"));
}

#[test]
fn suggestions_without_any_release() {
    let config = config("sui");
    let error = generate_network_suggestions_error(&config, &[], None, "testnet");
    assert_eq!(error, "Could not find any releases");
    let error = generate_network_suggestions_error(&config, &[], Some("v1.0.0"), "testnet");
    assert_eq!(error, "Release testnet-v1.0.0 not found");
}

#[test]
fn platform_names() {
    let (os, arch) = os_arch_for(Platform::Linux, "x86_64").unwrap();
    assert_eq!((os.as_str(), arch.as_str()), ("ubuntu", "x86_64"));
    let (os, arch) = os_arch_for(Platform::Mac, "aarch64").unwrap();
    assert_eq!((os.as_str(), arch.as_str()), ("macos", "arm64"));
    let (os, arch) = os_arch_for(Platform::Linux, "aarch64").unwrap();
    assert_eq!((os.as_str(), arch.as_str()), ("ubuntu", "aarch64"));
    assert_eq!(os_arch_for(Platform::Other, "x86_64").unwrap_err(), PlatformError::UnsupportedOs);
    let e = os_arch_for(Platform::Windows, "riscv64").unwrap_err();
    assert_eq!(e, PlatformError::UnsupportedArch);
    assert_eq!(e.message(), "Unsupported architecture. Supported only: x86_64, aarch64");
}

#[test]
fn cached_archive_lookup() {
    let files = vec![
        "sui-testnet-v1.2.0-ubuntu-x86_64.tgz.md5".to_string(),
        "sui-testnet-v1.2.0-macos-arm64.tgz".to_string(),
        "sui-testnet-v1.2.0-ubuntu-x86_64.tgz".to_string(),
    ];
    assert_eq!(
        find_cached_release_archive(&files, "testnet-v1.2.0", "ubuntu", "x86_64").as_deref(),
        Some("sui-testnet-v1.2.0-ubuntu-x86_64.tgz")
    );
    assert_eq!(find_cached_release_archive(&files, "testnet-v1.3.0", "ubuntu", "x86_64"), None);
}

#[test]
fn asset_for_the_platform() {
    let release = create_test_release(vec![
        "sui-testnet-v1.2.0-macos-arm64.tgz",
        "sui-testnet-v1.2.0-ubuntu-x86_64.tgz",
    ]);
    assert_eq!(find_asset_for_target(&release, "Ubuntu", "x86_64").unwrap(), 1);
    match find_asset_for_target(&release, "windows", "x86_64") {
        Err(e @ DownloadError::AssetNotFound(..)) => {
            assert_eq!(e.message(), "Asset not found for windows-x86_64")
        }
        _ => panic!("found an asset for another platform"),
    }
}

#[test]
fn download_sizes() {
    assert_eq!(effective_total_size(Some(10), Some("99")), 10);
    assert_eq!(effective_total_size(Some(0), Some("99")), 99);
    assert_eq!(effective_total_size(None, Some("abc")), 0);
    assert_eq!(effective_total_size(None, None), 0);
}

#[test]
fn checksums_of_downloads() {
    let empty_md5 = "d41d8cd98f00b204e9800998ecf8427e";
    assert_eq!(check_cached_file(0, 0, b"", Some(" d41d8cd98f00b204e9800998ecf8427e\n")), CachedFile::Verified);
    assert_eq!(check_cached_file(3, 3, b"abc", None), CachedFile::Unchecked);
    assert_eq!(check_cached_file(3, 3, b"abc", Some(empty_md5)), CachedFile::ChecksumMismatch);
    assert_eq!(check_cached_file(3, 4, b"abc", Some(empty_md5)), CachedFile::SizeMismatch);
    assert!(verify_downloaded_file(b"", Some(empty_md5), "x").is_ok());
    assert!(verify_downloaded_file(b"abc", None, "x").is_ok());
    match verify_downloaded_file(b"abc", Some(empty_md5), "sui") {
        Err(e) => assert_eq!(
            e.message(),
            "MD5 check failed for sui: expected d41d8cd98f00b204e9800998ecf8427e, got 900150983cd24fb0d6963f7d28e17f72"
        ),
        Ok(_) => panic!("accepted a wrong checksum"),
    }
}

#[test]
fn authorization_only_for_github() {
    assert_eq!(
        download_auth_header("https://github.com/MystenLabs/sui/releases/x.tgz", Some("t")).as_deref(),
        Some("token t")
    );
    assert_eq!(download_auth_header("https://storage.googleapis.com/x.tgz", Some("t")), None);
    assert_eq!(download_auth_header("https://github.com/x", None), None);
}

#[test]
fn asset_matching_an_already_lowercased_os() {
    let release = create_test_release(vec![
        "sui-testnet-v1.2.0-macos-arm64.tgz",
        "sui-testnet-v1.2.0-ubuntu-x86_64.tgz",
    ]);
    assert_eq!(first_asset_matching(&release, "ubuntu", "x86_64"), Some(1));
    assert_eq!(first_asset_matching(&release, "Ubuntu", "x86_64"), None);
    assert_eq!(first_asset_matching(&release, "macos", "arm64"), Some(0));
}
