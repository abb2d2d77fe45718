use suiup::registry::{binary_config_documents, BinaryName, BinaryRegistry, InstallationType};

#[test]
fn all_toml_files_parse() {
    let registry = BinaryRegistry::global();
    assert!(
        !registry.all().is_empty(),
        "Registry should have at least one binary"
    );
}

#[test]
fn all_tomls_include_all_fields() {
    let required_fields = [
        "name",
        "description",
        "repository",
        "main_branch",
        "installation_type",
        "network_based",
        "supported_networks",
        "default_network",
        "supports_debug",
        "cargo_package",
        "nightly_toolchain",
        "shared_repo_binary",
    ];

    for toml_str in binary_config_documents() {
        for field in &required_fields {
            assert!(
                toml_str.contains(&format!("{field} =")),
                "TOML config is missing required field '{field}'\nConfig:\n{toml_str}"
            );
        }
    }
}

#[test]
fn known_binaries_present() {
    let registry = BinaryRegistry::global();
    for name in &[
        "sui",
        "sui-node",
        "mvr",
        "walrus",
        "site-builder",
        "move-analyzer",
        "ledger-signer",
        "yubikey-signer",
    ] {
        assert!(
            registry.contains(name),
            "Registry should contain '{}'",
            name
        );
    }
}

#[test]
fn sui_config_values() {
    let registry = BinaryRegistry::global();
    let config = registry.get("sui").unwrap();
    assert_eq!(config.repository, "MystenLabs/sui");
    assert_eq!(config.installation_type, InstallationType::Archive);
    assert!(config.network_based);
    assert!(config.supports_debug);
    assert_eq!(config.default_network, "testnet");
    assert!(config.supported_networks.contains(&"testnet".to_string()));
    assert!(config.supported_networks.contains(&"devnet".to_string()));
    assert!(config.supported_networks.contains(&"mainnet".to_string()));
}

#[test]
fn mvr_config_values() {
    let registry = BinaryRegistry::global();
    let config = registry.get("mvr").unwrap();
    assert_eq!(config.repository, "MystenLabs/mvr");
    assert_eq!(config.installation_type, InstallationType::Standalone);
    assert!(!config.network_based);
}

#[test]
fn ledger_signer_config_values() {
    let registry = BinaryRegistry::global();
    let config = registry.get("ledger-signer").unwrap();
    assert_eq!(config.repository, "MystenLabs/rust-signers");
    assert_eq!(config.nightly_toolchain.as_deref(), Some("nightly"));
    assert!(config.shared_repo_binary);
}

#[test]
fn walrus_config_values() {
    let registry = BinaryRegistry::global();
    let config = registry.get("walrus").unwrap();
    assert_eq!(config.cargo_package.as_deref(), Some("walrus-service"));
    assert!(config.network_based);
}

#[test]
fn site_builder_config_values() {
    let registry = BinaryRegistry::global();
    let config = registry.get("site-builder").unwrap();
    assert_eq!(config.supported_networks, vec!["mainnet"]);
    assert_eq!(config.default_network, "mainnet");
}

#[test]
fn invalid_binary_name_rejected() {
    assert!(BinaryName::new("nonexistent").is_err());
}

#[test]
fn valid_binary_name_accepted() {
    assert!(BinaryName::new("sui").is_ok());
    assert_eq!(BinaryName::new("sui").unwrap().as_str(), "sui");
}

#[test]
fn binary_name_display() {
    let name = BinaryName::new("sui").unwrap();
    assert_eq!(name.to_string(), "sui");
}

#[test]
fn all_names_returns_sorted() {
    let registry = BinaryRegistry::global();
    let names = registry.all_names();
    let mut sorted = names.clone();
    sorted.sort();
    assert_eq!(names, sorted);
}

#[test]
fn blank_optional_strings_become_absent() {
    let registry = BinaryRegistry::global();
    let sui = registry.get("sui").unwrap();
    assert_eq!(sui.cargo_package, None);
    assert_eq!(sui.nightly_toolchain, None);
    assert_eq!(sui.main_branch, "main");
}

#[test]
fn config_and_repo_url_of_a_name() {
    let name = BinaryName::new("walrus").unwrap();
    assert_eq!(name.config().repository, "MystenLabs/walrus");
    assert_eq!(name.repo_url(), "https://github.com/MystenLabs/walrus");
    assert_eq!(
        BinaryName::from_str("nope").unwrap_err(),
        "Unknown binary: nope"
    );
}

#[test]
fn documents_agree_with_registry() {
    let registry = BinaryRegistry::global();
    let docs = binary_config_documents();
    assert_eq!(docs.len(), registry.all().len());
    for doc in docs {
        let table: toml::Table = toml::from_str(doc).unwrap();
        let name = table["name"].as_str().unwrap();
        let config = registry.get(name).unwrap();
        assert_eq!(table["repository"].as_str().unwrap(), config.repository);
        assert_eq!(table["description"].as_str().unwrap(), config.description);
        assert_eq!(table["main_branch"].as_str().unwrap(), config.main_branch);
        assert_eq!(table["network_based"].as_bool().unwrap(), config.network_based);
        assert_eq!(table["supports_debug"].as_bool().unwrap(), config.supports_debug);
        assert_eq!(table["shared_repo_binary"].as_bool().unwrap(), config.shared_repo_binary);
        assert_eq!(table["default_network"].as_str().unwrap(), config.default_network);
        let kind = match config.installation_type {
            InstallationType::Archive => "archive",
            InstallationType::Standalone => "standalone",
        };
        assert_eq!(table["installation_type"].as_str().unwrap(), kind);
        let networks: Vec<String> = table["supported_networks"]
            .as_array()
            .unwrap()
            .iter()
            .map(|v| v.as_str().unwrap().to_string())
            .collect();
        assert_eq!(networks, config.supported_networks);
        let package = table["cargo_package"].as_str().unwrap();
        assert_eq!(config.cargo_package.as_deref().unwrap_or(""), package);
        let toolchain = table["nightly_toolchain"].as_str().unwrap();
        assert_eq!(config.nightly_toolchain.as_deref().unwrap_or(""), toolchain);
    }
}
