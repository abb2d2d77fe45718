use suiup::handlers::release::{ensure_version_prefix, etag_file_name, find_last_release_by_network, find_networks_with_version, release_tag, releases_file_name};
use suiup::types::{Asset, Release};

fn create_test_release(asset_names: Vec<&str>) -> Release {
    Release {
        assets: asset_names
            .into_iter()
            .map(|name| Asset {
                name: name.to_string(),
                browser_download_url: format!("https://example.com/{}", name),
            })
            .collect(),
    }
}

#[test]
fn test_find_networks_with_version() {
    let releases = vec![
        create_test_release(vec!["sui-testnet-v1.53.0-linux-x86_64.tgz"]),
        create_test_release(vec!["sui-devnet-v1.53.0-linux-x86_64.tgz"]),
        create_test_release(vec!["sui-testnet-v1.52.0-linux-x86_64.tgz"]),
        create_test_release(vec!["walrus-mainnet-v1.54.0-linux-x86_64.tgz"]),
    ];

    let networks = find_networks_with_version(&releases, "1.53.0");
    assert_eq!(networks.len(), 2);
    assert!(networks.contains(&"testnet".to_string()));
    assert!(networks.contains(&"devnet".to_string()));

    let networks = find_networks_with_version(&releases, "v1.53.0");
    assert_eq!(networks.len(), 2);
    assert!(networks.contains(&"testnet".to_string()));
    assert!(networks.contains(&"devnet".to_string()));

    let networks = find_networks_with_version(&releases, "1.99.0");
    assert!(networks.is_empty());

    let networks = find_networks_with_version(&releases, "1.52.0");
    assert_eq!(networks.len(), 1);
    assert!(networks.contains(&"testnet".to_string()));
}

#[test]
fn test_ensure_version_prefix() {
    assert_eq!(ensure_version_prefix("1.53.0"), "v1.53.0");
    assert_eq!(ensure_version_prefix("v1.53.0"), "v1.53.0");
    assert_eq!(ensure_version_prefix("0.1.2"), "v0.1.2");
    assert_eq!(ensure_version_prefix("v2.0.0"), "v2.0.0");
}

#[test]
fn last_release_is_first_listed_for_network() {
    let releases = vec![
        create_test_release(vec!["sui-devnet-v1.54.0-linux-x86_64.tgz"]),
        create_test_release(vec!["sui-testnet-v1.53.0-linux-x86_64.tgz"]),
        create_test_release(vec!["sui-testnet-v1.52.0-linux-x86_64.tgz"]),
    ];
    let r = find_last_release_by_network(releases, "testnet").unwrap();
    assert_eq!(r.assets[0].name, "sui-testnet-v1.53.0-linux-x86_64.tgz");
    let none = find_last_release_by_network(vec![create_test_release(vec!["x"])], "mainnet");
    assert!(none.is_none());
}

#[test]
fn tags_and_cache_names() {
    assert_eq!(release_tag("testnet", "1.2.3"), "testnet-v1.2.3");
    assert_eq!(release_tag("devnet", "v1.2.3"), "devnet-v1.2.3");
    assert_eq!(etag_file_name("MystenLabs/sui"), "etag_MystenLabs_sui.txt");
    assert_eq!(releases_file_name("MystenLabs/sui"), "releases_MystenLabs_sui.txt");
}

#[test]
fn version_prefix_is_added_once() {
    let once = ensure_version_prefix("1.2.3");
    assert_eq!(ensure_version_prefix(&once), once);
    assert_eq!(release_tag("testnet", "1.2.3"), release_tag("testnet", "v1.2.3"));
}
