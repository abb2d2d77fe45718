use suiup::commands::ComponentCommands;
use suiup::component::{
    forget_binary, list_header, list_rows, plan_install, removal_targets, ComponentAction,
    ComponentError, ComponentManager, InstallPlan,
};
use suiup::registry::BinaryName;
use suiup::types::{BinaryVersion, DefaultVersions, InstalledBinaries};

fn record(name: &str, network: &str, version: &str) -> BinaryVersion {
    BinaryVersion {
        binary_name: name.to_string(),
        network_release: network.to_string(),
        version: version.to_string(),
        debug: false,
        path: Some(format!("/b/{network}/{name}-{version}")),
    }
}

#[test]
fn install_plans() {
    let sui = BinaryName::new("sui").unwrap();
    match plan_install(&sui, "devnet", &Some("v1.2.3".to_string()), &None, true).unwrap() {
        InstallPlan::Release { network, version } => {
            assert_eq!(network, "devnet");
            assert_eq!(version.as_deref(), Some("v1.2.3"));
        }
        _ => panic!("expected a release install"),
    }
    let site = BinaryName::new("site-builder").unwrap();
    match plan_install(&site, "testnet", &None, &None, false).unwrap() {
        InstallPlan::Release { network, .. } => assert_eq!(network, "mainnet"),
        _ => panic!("expected a release install"),
    }
    let signer = BinaryName::new("ledger-signer").unwrap();
    match plan_install(&signer, "testnet", &None, &None, false).unwrap() {
        InstallPlan::Standalone { binary_name_override, .. } => {
            assert_eq!(binary_name_override.as_deref(), Some("ledger-signer"))
        }
        _ => panic!("expected a standalone install"),
    }
    let mvr = BinaryName::new("mvr").unwrap();
    match plan_install(&mvr, "testnet", &Some("v0.0.5".to_string()), &None, false).unwrap() {
        InstallPlan::Standalone { version, binary_name_override } => {
            assert_eq!(version.as_deref(), Some("v0.0.5"));
            assert_eq!(binary_name_override, None);
        }
        _ => panic!("expected a standalone install"),
    }
    match plan_install(&mvr, "testnet", &None, &Some("main".to_string()), true).unwrap() {
        InstallPlan::Nightly { branch } => assert_eq!(branch, "main"),
        _ => panic!("expected a nightly build"),
    }
}

#[test]
fn install_refusals() {
    let walrus = BinaryName::new("walrus").unwrap();
    match plan_install(&walrus, "testnet", &None, &None, true) {
        Err(e) => {
            assert!(matches!(e, ComponentError::DebugUnsupported));
            assert_eq!(e.message(), "Debug flag is only available for the `sui` binary");
        }
        Ok(_) => panic!("accepted a debug build of walrus"),
    }
    let sui = BinaryName::new("sui").unwrap();
    match plan_install(&sui, "testnet", &Some("v1.0.0".to_string()), &Some("main".to_string()), false) {
        Err(e) => assert_eq!(
            e.message(),
            "Cannot install from nightly and a release at the same time. Remove the version or the nightly flag"
        ),
        Ok(_) => panic!("accepted a branch and a version"),
    }
}

#[test]
fn component_commands() {
    let m = ComponentManager::new(Some("tok".to_string()));
    assert_eq!(m.github_token().as_deref(), Some("tok"));
    assert!(matches!(m.handle_command(ComponentCommands::List), Ok(ComponentAction::List)));
    assert!(matches!(m.handle_command(ComponentCommands::Doctor), Ok(ComponentAction::Doctor)));
    match m.handle_command(ComponentCommands::Remove { binary: "nope".to_string() }) {
        Err(e) => assert_eq!(e.message(), "Unknown binary: nope. Use `suiup list` to see available binaries."),
        Ok(_) => panic!("accepted an unknown binary"),
    }
    match m.handle_command(ComponentCommands::Remove { binary: "sui".to_string() }) {
        Ok(ComponentAction::Remove { binary }) => assert_eq!(binary, "sui"),
        _ => panic!("refused a known binary"),
    }
    let add = ComponentCommands::Add {
        component: "sui@testnet-1.39.3".to_string(),
        debug: false,
        nightly: None,
        yes: true,
    };
    match m.handle_command(add) {
        Ok(ComponentAction::Install { name, plan: InstallPlan::Release { network, version }, yes, .. }) => {
            assert_eq!(name.as_str(), "sui");
            assert_eq!(network, "testnet");
            assert_eq!(version.as_deref(), Some("1.39.3"));
            assert!(yes);
        }
        _ => panic!("expected a release install"),
    }
    let bad = ComponentCommands::Add { component: "random".to_string(), debug: false, nightly: None, yes: false };
    match m.handle_command(bad) {
        Err(e) => assert!(e.message().starts_with("Invalid binary name: random")),
        Ok(_) => panic!("accepted an unknown binary"),
    }
    match m.handle_command(ComponentCommands::Cleanup { all: true, days: 30, dry_run: false }) {
        Ok(ComponentAction::Cleanup { all, days, dry_run }) => {
            assert!(all);
            assert_eq!(days, 30);
            assert!(!dry_run);
        }
        _ => panic!("expected a cleanup"),
    }
}

#[test]
fn removal_of_a_binary() {
    let mut installed = InstalledBinaries::from_binaries(vec![
        record("sui", "testnet", "v1.0.0"),
        record("walrus", "testnet", "v1.0.0"),
        record("sui", "devnet", "v1.1.0"),
    ]);
    let targets = removal_targets(&installed, "sui");
    assert_eq!(targets.len(), 2);
    assert_eq!(targets[0].network_release, "testnet");
    assert_eq!(targets[1].network_release, "devnet");
    assert!(removal_targets(&installed, "mvr").is_empty());

    let mut defaults = DefaultVersions::new();
    defaults.set("sui", "testnet", "v1.0.0", false);
    defaults.set("walrus", "testnet", "v1.0.0", false);
    forget_binary(&mut installed, &mut defaults, "sui");
    assert_eq!(installed.binaries().len(), 1);
    assert_eq!(installed.binaries()[0].binary_name, "walrus");
    assert!(defaults.get("sui").is_none());
    assert!(defaults.get("walrus").is_some());
}

#[test]
fn list_of_installable_binaries() {
    assert_eq!(list_header(), vec!["Binary", "Description", "Notes"]);
    let rows = list_rows();
    assert_eq!(rows.len(), 8);
    assert_eq!(rows[0][0], "ledger-signer");
    assert_eq!(rows[4][0], "sui");
    assert_eq!(rows[4][1], "Sui command line interface");
    assert_eq!(rows[4][2], "");
}

#[test]
fn release_installs_use_supported_networks() {
    for name in ["sui", "sui-node", "walrus", "site-builder", "move-analyzer"] {
        let binary = BinaryName::new(name).unwrap();
        let config = binary.config();
        for network in ["testnet", "devnet", "mainnet", "localnet"] {
            match plan_install(&binary, network, &None, &None, false).unwrap() {
                InstallPlan::Release { network: chosen, .. } => {
                    assert!(config.supported_networks.contains(&chosen))
                }
                _ => panic!("expected a release install"),
            }
        }
    }
}
