use phantun_client_mac::config::{
    command, config_path, default_local, default_remote, default_tun_local, default_tun_local6,
    default_tun_peer, default_tun_peer6, load_config, parse_arguments, select_remote_address,
    Config, ConfigFile, Overrides, Route, RuntimeConfig, DEFAULT_CONFIG_PATH, VERSION,
};
use phantun_client_mac::net::{SocketAddr, SocketAddrV4, SocketAddrV6};

fn text_field(value: &serde_json::Value, name: &str) -> Option<String> {
    value
        .get(name)
        .map(|field| field.as_str().expect("a string").to_owned())
}

fn config_file(text: &str) -> ConfigFile {
    let value: serde_json::Value = serde_json::from_str(text)
        .expect("the distributed configuration template must be valid JSON");
    ConfigFile {
        local: text_field(&value, "local"),
        remote: text_field(&value, "remote"),
        ipv4_only: value
            .get("ipv4_only")
            .map(|field| field.as_bool().expect("a truth value")),
        tun_local: text_field(&value, "tun_local"),
        tun_peer: text_field(&value, "tun_peer"),
        tun_local6: text_field(&value, "tun_local6"),
        tun_peer6: text_field(&value, "tun_peer6"),
        routes: value.get("routes").map(|routes| {
            routes
                .as_array()
                .expect("an array")
                .iter()
                .map(|route| Route {
                    dest: text_field(route, "dest").expect("a destination"),
                    gateway: text_field(route, "gateway").expect("a gateway"),
                })
                .collect()
        }),
    }
}

fn empty_file() -> ConfigFile {
    ConfigFile {
        local: None,
        remote: None,
        ipv4_only: None,
        tun_local: None,
        tun_peer: None,
        tun_local6: None,
        tun_peer6: None,
        routes: None,
    }
}

fn strings(arguments: &[&str]) -> Vec<String> {
    arguments.iter().map(|text| (*text).to_owned()).collect()
}

#[test]
fn default_values_match_windows_client_source() {
    assert_eq!(Config::default().local, "127.0.0.1:8080");
    assert_eq!(Config::default().remote, "127.0.0.1:65000");
    assert!(!Config::default().ipv4_only);
    assert_eq!(Config::default().tun_local, "192.168.200.1");
    assert_eq!(Config::default().tun_peer, "192.168.200.2");
    assert_eq!(Config::default().tun_local6, "fcc8::1");
    assert_eq!(Config::default().tun_peer6, "fcc8::2");
}

#[test]
fn defaults_are_the_same_one_by_one() {
    assert_eq!(default_local(), "127.0.0.1:8080");
    assert_eq!(default_remote(), "127.0.0.1:65000");
    assert_eq!(default_tun_local(), "192.168.200.1");
    assert_eq!(default_tun_peer(), "192.168.200.2");
    assert_eq!(default_tun_local6(), "fcc8::1");
    assert_eq!(default_tun_peer6(), "fcc8::2");
    assert!(Config::default().routes.is_empty());
    assert_eq!(DEFAULT_CONFIG_PATH, "phantun-client.json");
}

#[test]
fn distributed_config_template_matches_the_windows_client_template() {
    let config: Config = load_config(Some(config_file(
        r#"{
  "local": "127.0.0.1:8080",
  "remote": "120.26.71.147:65009",
  "ipv4_only": true,
  "tun_local": "192.168.200.1",
  "tun_peer": "192.168.200.2",
  "tun_local6": "fcc8::1",
  "tun_peer6": "fcc8::2",
  "routes": [
    {
      "dest": "0.0.0.0/0",
      "gateway": "192.168.200.1"
    }
  ]
}"#,
    )));

    assert_eq!(config.local, "127.0.0.1:8080");
    assert_eq!(config.remote, "120.26.71.147:65009");
    assert!(config.ipv4_only);
    assert_eq!(config.tun_local, "192.168.200.1");
    assert_eq!(config.tun_peer, "192.168.200.2");
    assert_eq!(config.tun_local6, "fcc8::1");
    assert_eq!(config.tun_peer6, "fcc8::2");
    assert_eq!(
        config.routes,
        vec![Route {
            dest: "0.0.0.0/0".to_owned(),
            gateway: "192.168.200.1".to_owned(),
        }]
    );
}

#[test]
fn missing_fields_and_missing_files_get_the_defaults() {
    assert_eq!(load_config(None), Config::default());
    assert_eq!(load_config(Some(empty_file())), Config::default());
    let partial = load_config(Some(config_file(
        r#"{"local": "127.0.0.1:9000", "ipv4_only": true}"#,
    )));
    assert_eq!(partial.local, "127.0.0.1:9000");
    assert!(partial.ipv4_only);
    assert_eq!(partial.remote, "127.0.0.1:65000");
    assert_eq!(partial.tun_peer6, "fcc8::2");
    assert!(partial.routes.is_empty());
}

#[test]
fn cli_contract_has_the_windows_options() {
    let command = command();
    let option_ids = command
        .get_arguments()
        .map(|argument| argument.get_id().as_str())
        .collect::<Vec<_>>();
    assert_eq!(
        option_ids,
        [
            "config",
            "local",
            "remote",
            "ipv4_only",
            "tun_local",
            "tun_peer"
        ]
    );
}

#[test]
fn command_carries_its_heading_and_its_option_names() {
    let command = command();
    assert_eq!(command.get_name(), "Phantun Client");
    assert_eq!(command.get_version(), Some(VERSION));
    assert_eq!(command.get_author(), Some("Datong Sun (github.com/dndx)"));
    let names = command
        .get_arguments()
        .map(|argument| (argument.get_short(), argument.get_long()))
        .collect::<Vec<_>>();
    assert_eq!(
        names,
        [
            (Some('c'), Some("config")),
            (Some('l'), Some("local")),
            (Some('r'), Some("remote")),
            (Some('4'), Some("ipv4-only")),
            (None, Some("tun-local")),
            (None, Some("tun-peer")),
        ]
    );
    let remote = command.get_arguments().nth(2).expect("third option");
    assert_eq!(
        remote.get_value_names().expect("a value name")[0].as_str(),
        "IP or HOST NAME:PORT"
    );
    assert_eq!(
        remote.get_help().expect("a help text").to_string(),
        "Sets the address or host name and port where Phantun Client connects to Phantun Server"
    );
    assert!(command.get_arguments().all(|argument| !argument.is_required_set()));
}

#[test]
fn cli_values_override_loaded_defaults() {
    let matches = command()
        .try_get_matches_from([
            "phantun-client",
            "--local",
            "127.0.0.9:19080",
            "--remote",
            "example.test:65009",
            "--ipv4-only",
            "--tun-local",
            "192.0.2.1",
            "--tun-peer",
            "192.0.2.2",
        ])
        .expect("CLI must accept the Windows-compatible flags");
    let runtime = RuntimeConfig::from_matches(&matches, None, None);
    assert_eq!(runtime.local, "127.0.0.9:19080");
    assert_eq!(runtime.remote, "example.test:65009");
    assert!(runtime.ipv4_only);
    assert_eq!(runtime.tun_local, "192.0.2.1");
    assert_eq!(runtime.tun_peer, "192.0.2.2");
}

#[test]
fn custom_config_and_cli_follow_the_windows_precedence() {
    let named = config_file(
        r#"{
                "local": "127.0.0.7:17080",
                "remote": "configured.example:65007",
                "ipv4_only": true,
                "tun_local": "198.51.100.7",
                "tun_peer": "198.51.100.8",
                "tun_local6": "fd00:7::1",
                "tun_peer6": "fd00:7::2",
                "routes": [{"dest": "203.0.113.0/24", "gateway": "198.51.100.8"}]
            }"#,
    );
    let matches = command()
        .try_get_matches_from([
            "phantun-client",
            "--config",
            "precedence.json",
            "--local",
            "127.0.0.8:18080",
            "--tun-peer",
            "198.51.100.9",
        ])
        .expect("CLI must accept the Windows-compatible flags");
    assert_eq!(config_path(&matches), Some("precedence.json".to_owned()));
    let runtime = RuntimeConfig::from_matches(&matches, Some(empty_file()), Some(named));

    assert_eq!(runtime.local, "127.0.0.8:18080");
    assert_eq!(runtime.remote, "configured.example:65007");
    assert!(runtime.ipv4_only);
    assert_eq!(runtime.tun_local, "198.51.100.7");
    assert_eq!(runtime.tun_peer, "198.51.100.9");
    assert_eq!(runtime.tun_local6, "fd00:7::1");
    assert_eq!(runtime.tun_peer6, "fd00:7::2");
    assert_eq!(
        runtime.routes,
        vec![Route {
            dest: "203.0.113.0/24".to_owned(),
            gateway: "198.51.100.8".to_owned(),
        }]
    );
}

#[test]
fn without_options_the_default_file_stands() {
    let matches = parse_arguments(strings(&["phantun-client"])).expect("no option is required");
    assert_eq!(config_path(&matches), None);
    let file = config_file(r#"{"remote": "server.example:1"}"#);
    let other = config_file(r#"{"remote": "other.example:2"}"#);
    let runtime = RuntimeConfig::from_matches(&matches, Some(file), Some(other));
    assert_eq!(runtime.remote, "server.example:1");
    assert_eq!(runtime.local, "127.0.0.1:8080");
    assert!(!runtime.ipv4_only);
}

#[test]
fn a_named_file_that_cannot_be_read_gives_the_defaults() {
    let matches = parse_arguments(strings(&["phantun-client", "-c", "missing.json"]))
        .expect("the short name is known");
    let file = config_file(r#"{"remote": "server.example:1"}"#);
    let runtime = RuntimeConfig::from_matches(&matches, Some(file), None);
    assert_eq!(runtime.remote, "127.0.0.1:65000");
}

#[test]
fn short_names_work_and_unknown_options_are_refused() {
    let matches = parse_arguments(strings(&["p", "-l", "1.2.3.4:5", "-r", "host:6", "-4"]))
        .expect("the short names are known");
    let runtime = RuntimeConfig::from_loaded_config(&matches, Config::default());
    assert_eq!(runtime.local, "1.2.3.4:5");
    assert_eq!(runtime.remote, "host:6");
    assert!(runtime.ipv4_only);
    assert!(parse_arguments(strings(&["p", "--unknown"])).is_none());
    assert!(parse_arguments(strings(&["p", "--help"])).is_none());
    assert!(parse_arguments(strings(&["p", "--local"])).is_none());
}

#[test]
fn the_flag_turns_the_restriction_on_and_never_off() {
    let restricted = Config {
        ipv4_only: true,
        ..Config::default()
    };
    let silent = Overrides {
        local: None,
        remote: None,
        ipv4_only: false,
        tun_local: None,
        tun_peer: None,
    };
    assert!(RuntimeConfig::with_overrides(silent.clone(), restricted).ipv4_only);
    assert!(!RuntimeConfig::with_overrides(silent.clone(), Config::default()).ipv4_only);
    let flagged = Overrides {
        ipv4_only: true,
        ..silent
    };
    assert!(RuntimeConfig::with_overrides(flagged, Config::default()).ipv4_only);
}

#[test]
fn the_same_command_line_twice_changes_nothing() {
    let overrides = Overrides {
        local: Some("127.0.0.9:1".to_owned()),
        remote: None,
        ipv4_only: true,
        tun_local: None,
        tun_peer: Some("192.0.2.2".to_owned()),
    };
    let once = RuntimeConfig::with_overrides(overrides.clone(), Config::default());
    let settled = once.clone();
    let again = Config {
        local: once.local,
        remote: once.remote,
        ipv4_only: once.ipv4_only,
        tun_local: once.tun_local,
        tun_peer: once.tun_peer,
        tun_local6: once.tun_local6,
        tun_peer6: once.tun_peer6,
        routes: once.routes,
    };
    assert_eq!(RuntimeConfig::with_overrides(overrides, again), settled);
}

#[test]
fn remote_selection_matches_the_windows_ipv4_only_rule() {
    let ipv6 = SocketAddr::V6(SocketAddrV6 {
        ip: 0x2001_0db8_0000_0000_0000_0000_0000_0020,
        port: 65009,
        flowinfo: 0,
        scope_id: 0,
    });
    let ipv4 = SocketAddr::V4(SocketAddrV4 {
        ip: 0xcb00_7114,
        port: 65009,
    });
    assert_eq!(select_remote_address(vec![ipv6, ipv4], false), Some(ipv6));
    assert_eq!(select_remote_address(vec![ipv6, ipv4], true), Some(ipv4));
    assert_eq!(select_remote_address(vec![ipv6], true), None);
}
