use suiup::commands::{parse_component_with_version, Command, CommandMetadata, Commands};
use suiup::registry::BinaryName;

#[test]
fn test_parse_component_with_version() {
    let result = parse_component_with_version("sui").unwrap();
    let expected = CommandMetadata {
        name: BinaryName::new("sui").unwrap(),
        network: "testnet".to_string(),
        version: None,
    };
    assert_eq!(expected, result);

    let result = parse_component_with_version("sui@testnet-v1.39.3").unwrap();
    let expected = CommandMetadata {
        name: BinaryName::new("sui").unwrap(),
        network: "testnet".to_string(),
        version: Some("v1.39.3".to_string()),
    };
    assert_eq!(expected, result,);

    let result = parse_component_with_version("walrus").unwrap();
    let expected = CommandMetadata {
        name: BinaryName::new("walrus").unwrap(),
        network: "testnet".to_string(),
        version: None,
    };
    assert_eq!(expected, result);

    let result = parse_component_with_version("mvr").unwrap();
    let expected = CommandMetadata {
        name: BinaryName::new("mvr").unwrap(),
        network: "testnet".to_string(),
        version: None,
    };
    assert_eq!(expected, result);

    let result = parse_component_with_version("random");
    assert!(result
        .unwrap_err()
        .message()
        .contains("Invalid binary name: random"));
}

#[test]
fn test_sui_component_display() {
    assert_eq!(BinaryName::new("sui").unwrap().to_string(), "sui");
    assert_eq!(BinaryName::new("mvr").unwrap().to_string(), "mvr");
    assert_eq!(BinaryName::new("walrus").unwrap().to_string(), "walrus");
}

fn list_command(token: &str) -> Command {
    Command {
        command: Commands::List,
        github_token: Some(token.to_string()),
        disable_update_warnings: false,
    }
}

#[test]
fn normalize_empty_github_token_to_none() {
    let cmd = list_command("");
    assert_eq!(cmd.normalized_github_token(), None);
}

#[test]
fn preserve_non_empty_github_token() {
    let cmd = list_command("abc123");
    assert_eq!(cmd.normalized_github_token(), Some("abc123".to_string()));
}

#[test]
fn github_token_is_trimmed_and_blank_is_none() {
    assert_eq!(list_command("  tok \n").normalized_github_token(), Some("tok".to_string()));
    assert_eq!(list_command(" \t ").normalized_github_token(), None);
    let cmd = Command { command: Commands::List, github_token: None, disable_update_warnings: false };
    assert_eq!(cmd.normalized_github_token(), None);
}

#[test]
fn parse_component_separators() {
    let m = parse_component_with_version("sui==1.2.3").unwrap();
    assert_eq!(m.version, Some("1.2.3".to_string()));
    let m = parse_component_with_version("sui=1.2.3").unwrap();
    assert_eq!(m.version, Some("1.2.3".to_string()));
    let m = parse_component_with_version("mvr 0.0.5").unwrap();
    assert_eq!(m.name.as_str(), "mvr");
    assert_eq!(m.network, "testnet");
    assert_eq!(m.version, Some("0.0.5".to_string()));
    let m = parse_component_with_version("sui@devnet").unwrap();
    assert_eq!(m.network, "devnet");
    assert_eq!(m.version, None);
    let m = parse_component_with_version("sui@mainnet-1.40.1").unwrap();
    assert_eq!(m.network, "mainnet");
    assert_eq!(m.version, Some("1.40.1".to_string()));
}

#[test]
fn parse_component_errors() {
    let e = parse_component_with_version("sui@").unwrap_err();
    assert_eq!(
        e.message(),
        "Version cannot be empty. Use 'binary' or 'binary@version' (e.g., sui@v1.60.0)"
    );
    let e = parse_component_with_version("sui@latest").unwrap_err();
    assert_eq!(
        e.message(),
        "Invalid version format: 'latest'. Expected a version like 'v1.60.0' or '1.60.0', or when applicable, 'testnet', 'devnet', 'mainnet'."
    );
    assert!(parse_component_with_version("sui@v1").is_err());
    assert!(parse_component_with_version("sui@va.1").is_err());
    assert!(parse_component_with_version("sui@v1.2").is_ok());
}

#[test]
fn written_specifications_parse_back() {
    for name in ["sui", "walrus", "mvr", "sui-node"] {
        let m = parse_component_with_version(name).unwrap();
        assert_eq!((m.name.as_str(), m.network.as_str(), m.version.clone()), (name, "testnet", None));
        for network in ["testnet", "devnet", "mainnet"] {
            let m = parse_component_with_version(&format!("{name}@{network}")).unwrap();
            assert_eq!((m.network.as_str(), m.version.clone()), (network, None));
            let m = parse_component_with_version(&format!("{name}@{network}-1.2.3")).unwrap();
            assert_eq!(m.name.as_str(), name);
            assert_eq!((m.network.as_str(), m.version.as_deref()), (network, Some("1.2.3")));
        }
    }
}

#[test]
fn other_delimiters_mean_at() {
    for name in ["sui", "mvr", "walrus"] {
        for spec in ["1.2.3", "testnet", "devnet-v1.2.3", "bogus"] {
            let at = parse_component_with_version(&format!("{name}@{spec}"));
            for d in ["==", "=", " "] {
                let other = parse_component_with_version(&format!("{name}{d}{spec}"));
                match (&at, &other) {
                    (Ok(a), Ok(b)) => assert_eq!(a, b),
                    (Err(a), Err(b)) => assert_eq!(a.message(), b.message()),
                    _ => panic!("{name}{d}{spec} and {name}@{spec} differ"),
                }
            }
        }
    }
    let m = parse_component_with_version("sui==1.2.3").unwrap();
    assert_eq!((m.network.as_str(), m.version.as_deref()), ("testnet", Some("1.2.3")));
}
