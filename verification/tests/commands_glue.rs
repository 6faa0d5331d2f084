use multiroute::addr::Ip4Addr;
use multiroute::commands::{get_final_element, CreateCommand, GetCommand};
use multiroute::error::Error;
use multiroute::lookup::{ConfigLookup, InternetAddress};
use multiroute::segment::MultiAddr;

#[test]
fn get_command_reports_endpoint() {
    let mut lookup = ConfigLookup::new();
    lookup.set_node(
        "hub",
        InternetAddress::V4 { addr: Ip4Addr::new(127, 0, 0, 1), port: 666 },
    );
    let cmd = GetCommand { alias: "hub".to_string() };
    assert_eq!(cmd.run(&lookup), Some("127.0.0.1:666".to_string()));
    let missing = GetCommand { alias: "other".to_string() };
    assert_eq!(missing.run(&lookup), None);
}

#[test]
fn get_command_last_entry_wins() {
    let mut lookup = ConfigLookup::new();
    lookup.set_node(
        "hub",
        InternetAddress::V4 { addr: Ip4Addr::new(127, 0, 0, 1), port: 666 },
    );
    lookup.set_node(
        "hub",
        InternetAddress::Dns { host: "example.com".to_string(), port: 4000 },
    );
    let cmd = GetCommand { alias: "hub".to_string() };
    assert_eq!(cmd.run(&lookup), Some("example.com:4000".to_string()));
}

#[test]
fn create_command_normalizes() {
    let mut lookup = ConfigLookup::new();
    lookup.set_node(
        "hub",
        InternetAddress::V4 { addr: Ip4Addr::new(127, 0, 0, 1), port: 666 },
    );
    let cmd = CreateCommand {
        for_node: "/node/alpha".to_string(),
        at: MultiAddr::parse("/node/hub/service/echoer").unwrap(),
        from: Some("/service/fwd".to_string()),
        address: None,
    };
    let norm = cmd.run(&lookup).unwrap();
    assert_eq!(norm.at.to_text(), "/ip4/127.0.0.1/tcp/666/service/echoer");
    assert_eq!(norm.from, Some("fwd".to_string()));
    assert_eq!(norm.for_node, "/node/alpha".to_string());
    assert_eq!(norm.address, None);
    let (at_rust_node, address) = norm.body_args();
    assert!(at_rust_node);
    assert_eq!(address, Some("fwd".to_string()));
}

#[test]
fn create_command_unknown_alias() {
    let lookup = ConfigLookup::new();
    let cmd = CreateCommand {
        for_node: "n".to_string(),
        at: MultiAddr::parse("/node/hub").unwrap(),
        from: None,
        address: None,
    };
    assert_eq!(
        cmd.run(&lookup),
        Err(Error::UnknownAlias { alias: "hub".to_string() })
    );
}

#[test]
fn create_command_positional_address() {
    let cmd = CreateCommand {
        for_node: "n".to_string(),
        at: MultiAddr::default(),
        from: None,
        address: Some("fwd2".to_string()),
    };
    let (at_rust_node, address) = cmd.body_args();
    assert!(!at_rust_node);
    assert_eq!(address, Some("fwd2".to_string()));
}

#[test]
fn final_element_extraction() {
    assert_eq!(get_final_element("/node/hub"), "hub");
    assert_eq!(get_final_element("hub"), "hub");
    assert_eq!(get_final_element("a/b/c"), "c");
    assert_eq!(get_final_element(""), "");
}
