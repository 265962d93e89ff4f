//! The configuration: the file, its defaults, and the command line that
//! overrides it.

use clap::{ArgMatches, Command};
use vstd::prelude::*;

use crate::cli::{
    clash, command_heading, command_options, flag_of, knows, match_arguments, matched_flags,
    matched_values, new_command, only_options, parsed_line, sound, value_of, with_flag,
    with_value, OptionView,
};
use crate::net::SocketAddr;
use crate::text::{optional_text, texts};

verus! {

/// The version of the client.
pub const VERSION: &'static str = "0.1.0";

/// The configuration file that is read when no other is named.
pub const DEFAULT_CONFIG_PATH: &'static str = "phantun-client.json";

/// A route of the configuration file.
#[derive(Clone, Debug, PartialEq, Eq)]
pub struct Route {
    pub dest: String,
    pub gateway: String,
}

/// A route in plain characters.
pub struct RouteView {
    pub dest: Seq<char>,
    pub gateway: Seq<char>,
}

impl View for Route {
    type V = RouteView;

    open spec fn view(&self) -> RouteView {
        RouteView { dest: self.dest@, gateway: self.gateway@ }
    }
}

/// The routes in plain characters.
pub open spec fn route_views(routes: Seq<Route>) -> Seq<RouteView> {
    Seq::new(routes.len(), |i: int| routes[i]@)
}

/// What a configuration file says, the missing fields filled in.
#[derive(Clone, Debug, PartialEq, Eq)]
pub struct Config {
    pub local: String,
    pub remote: String,
    pub ipv4_only: bool,
    pub tun_local: String,
    pub tun_peer: String,
    pub tun_local6: String,
    pub tun_peer6: String,
    pub routes: Vec<Route>,
}

/// What the client runs with.
#[derive(Clone, Debug, PartialEq, Eq)]
pub struct RuntimeConfig {
    pub local: String,
    pub remote: String,
    pub ipv4_only: bool,
    pub tun_local: String,
    pub tun_peer: String,
    pub tun_local6: String,
    pub tun_peer6: String,
    pub routes: Vec<Route>,
}

/// A configuration in plain values.
pub struct ConfigView {
    pub local: Seq<char>,
    pub remote: Seq<char>,
    pub ipv4_only: bool,
    pub tun_local: Seq<char>,
    pub tun_peer: Seq<char>,
    pub tun_local6: Seq<char>,
    pub tun_peer6: Seq<char>,
    pub routes: Seq<RouteView>,
}

impl View for Config {
    type V = ConfigView;

    open spec fn view(&self) -> ConfigView {
        ConfigView {
            local: self.local@,
            remote: self.remote@,
            ipv4_only: self.ipv4_only,
            tun_local: self.tun_local@,
            tun_peer: self.tun_peer@,
            tun_local6: self.tun_local6@,
            tun_peer6: self.tun_peer6@,
            routes: route_views(self.routes@),
        }
    }
}

impl View for RuntimeConfig {
    type V = ConfigView;

    open spec fn view(&self) -> ConfigView {
        ConfigView {
            local: self.local@,
            remote: self.remote@,
            ipv4_only: self.ipv4_only,
            tun_local: self.tun_local@,
            tun_peer: self.tun_peer@,
            tun_local6: self.tun_local6@,
            tun_peer6: self.tun_peer6@,
            routes: route_views(self.routes@),
        }
    }
}

/// The default UDP listening address.
pub fn default_local() -> (text: String)
    ensures
        text@ == "127.0.0.1:8080"@,
{
    "127.0.0.1:8080".to_owned()
}

/// The default server.
pub fn default_remote() -> (text: String)
    ensures
        text@ == "127.0.0.1:65000"@,
{
    "127.0.0.1:65000".to_owned()
}

/// The default local IPv4 address of the tunnel.
pub fn default_tun_local() -> (text: String)
    ensures
        text@ == "192.168.200.1"@,
{
    "192.168.200.1".to_owned()
}

/// The default IPv4 address of the tunnel's peer.
pub fn default_tun_peer() -> (text: String)
    ensures
        text@ == "192.168.200.2"@,
{
    "192.168.200.2".to_owned()
}

/// The default local IPv6 address of the tunnel.
pub fn default_tun_local6() -> (text: String)
    ensures
        text@ == "fcc8::1"@,
{
    "fcc8::1".to_owned()
}

/// The default IPv6 address of the tunnel's peer.
pub fn default_tun_peer6() -> (text: String)
    ensures
        text@ == "fcc8::2"@,
{
    "fcc8::2".to_owned()
}

/// The configuration without a file.
pub open spec fn default_config() -> ConfigView {
    ConfigView {
        local: "127.0.0.1:8080"@,
        remote: "127.0.0.1:65000"@,
        ipv4_only: false,
        tun_local: "192.168.200.1"@,
        tun_peer: "192.168.200.2"@,
        tun_local6: "fcc8::1"@,
        tun_peer6: "fcc8::2"@,
        routes: Seq::empty(),
    }
}

impl Default for Config {
    fn default() -> (config: Self)
        ensures
            config@ == default_config(),
    {
        let config = Config {
            local: default_local(),
            remote: default_remote(),
            ipv4_only: false,
            tun_local: default_tun_local(),
            tun_peer: default_tun_peer(),
            tun_local6: default_tun_local6(),
            tun_peer6: default_tun_peer6(),
            routes: Vec::new(),
        };
        assert(config@.routes == default_config().routes);
        config
    }
}

/// What a configuration file says; every field may be missing.
#[derive(Clone, Debug, PartialEq, Eq)]
pub struct ConfigFile {
    pub local: Option<String>,
    pub remote: Option<String>,
    pub ipv4_only: Option<bool>,
    pub tun_local: Option<String>,
    pub tun_peer: Option<String>,
    pub tun_local6: Option<String>,
    pub tun_peer6: Option<String>,
    pub routes: Option<Vec<Route>>,
}

/// The text, or the other when it is missing.
pub open spec fn text_or(text: Option<String>, other: Seq<char>) -> Seq<char> {
    match text {
        Some(text) => text@,
        None => other,
    }
}

/// The configuration that a file stands for.
pub open spec fn filled(file: ConfigFile) -> ConfigView {
    let missing = default_config();
    ConfigView {
        local: text_or(file.local, missing.local),
        remote: text_or(file.remote, missing.remote),
        ipv4_only: match file.ipv4_only {
            Some(value) => value,
            None => missing.ipv4_only,
        },
        tun_local: text_or(file.tun_local, missing.tun_local),
        tun_peer: text_or(file.tun_peer, missing.tun_peer),
        tun_local6: text_or(file.tun_local6, missing.tun_local6),
        tun_peer6: text_or(file.tun_peer6, missing.tun_peer6),
        routes: match file.routes {
            Some(routes) => route_views(routes@),
            None => missing.routes,
        },
    }
}

/// The text, or the other when it is missing.
fn unwrap_text(text: Option<String>, other: String) -> (result: String)
    ensures
        result@ == text_or(text, other@),
{
    match text {
        Some(text) => text,
        None => other,
    }
}

/// The configuration of a file, with the defaults for what is missing; the
/// defaults alone when there is no file that can be read and understood.
pub fn load_config(file: Option<ConfigFile>) -> (config: Config)
    ensures
        config@ == match file {
            Some(file) => filled(file),
            None => default_config(),
        },
{
    let file = match file {
        Some(file) => file,
        None => {
            return Config::default();
        },
    };
    let config = Config {
        local: unwrap_text(file.local, default_local()),
        remote: unwrap_text(file.remote, default_remote()),
        ipv4_only: match file.ipv4_only {
            Some(value) => value,
            None => false,
        },
        tun_local: unwrap_text(file.tun_local, default_tun_local()),
        tun_peer: unwrap_text(file.tun_peer, default_tun_peer()),
        tun_local6: unwrap_text(file.tun_local6, default_tun_local6()),
        tun_peer6: unwrap_text(file.tun_peer6, default_tun_peer6()),
        routes: match file.routes {
            Some(routes) => routes,
            None => Vec::new(),
        },
    };
    assert(config@.routes == filled(file).routes);
    config
}

/// Whether the address may be used.
pub open spec fn eligible(address: SocketAddr, ipv4_only: bool) -> bool {
    !ipv4_only || address is V4
}

/// The first of the addresses that may be used.
pub fn select_remote_address(addresses: Vec<SocketAddr>, ipv4_only: bool) -> (selected: Option<
    SocketAddr,
>)
    ensures
        match selected {
            Some(address) => exists|at: int|
                {
                    &&& 0 <= at < addresses.len()
                    &&& #[trigger] addresses[at] == address
                    &&& eligible(address, ipv4_only)
                    &&& forall|i: int| 0 <= i < at ==> !eligible(#[trigger] addresses[i], ipv4_only)
                },
            None => forall|i: int|
                0 <= i < addresses.len() ==> !eligible(#[trigger] addresses[i], ipv4_only),
        },
{
    let mut at: usize = 0;
    while at < addresses.len()
        invariant
            at <= addresses.len(),
            forall|i: int| 0 <= i < at ==> !eligible(#[trigger] addresses[i], ipv4_only),
        decreases addresses.len() - at,
    {
        let address = addresses[at];
        if !ipv4_only || address.is_ipv4() {
            assert(addresses[at as int] == address);
            return Some(address);
        }
        at += 1;
    }
    None
}

/// What the command line says.
#[derive(Clone, Debug, PartialEq, Eq)]
pub struct Overrides {
    pub local: Option<String>,
    pub remote: Option<String>,
    pub ipv4_only: bool,
    pub tun_local: Option<String>,
    pub tun_peer: Option<String>,
}

/// What the command line says, in plain values.
pub struct OverridesView {
    pub local: Option<Seq<char>>,
    pub remote: Option<Seq<char>>,
    pub ipv4_only: bool,
    pub tun_local: Option<Seq<char>>,
    pub tun_peer: Option<Seq<char>>,
}

impl View for Overrides {
    type V = OverridesView;

    open spec fn view(&self) -> OverridesView {
        OverridesView {
            local: optional_text(self.local),
            remote: optional_text(self.remote),
            ipv4_only: self.ipv4_only,
            tun_local: optional_text(self.tun_local),
            tun_peer: optional_text(self.tun_peer),
        }
    }
}

/// The first text, or the second when it is missing.
pub open spec fn either(text: Option<Seq<char>>, other: Seq<char>) -> Seq<char> {
    match text {
        Some(text) => text,
        None => other,
    }
}

/// The configuration with what the command line says in front. The flag turns
/// the restriction to IPv4 on, never off.
pub open spec fn overridden(config: ConfigView, overrides: OverridesView) -> ConfigView {
    ConfigView {
        local: either(overrides.local, config.local),
        remote: either(overrides.remote, config.remote),
        ipv4_only: overrides.ipv4_only || config.ipv4_only,
        tun_local: either(overrides.tun_local, config.tun_local),
        tun_peer: either(overrides.tun_peer, config.tun_peer),
        ..config
    }
}

/// The options of the client.
pub open spec fn client_options() -> Seq<OptionView> {
    seq![
        OptionView {
            id: "config"@,
            short: Some('c'),
            long: "config"@,
            required: false,
            value_name: Some("PATH"@),
            help: "Path to config file (default: phantun-client.json in current directory)"@,
        },
        OptionView {
            id: "local"@,
            short: Some('l'),
            long: "local"@,
            required: false,
            value_name: Some("IP:PORT"@),
            help: "Sets the IP and port where Phantun Client listens for incoming UDP datagrams"@,
        },
        OptionView {
            id: "remote"@,
            short: Some('r'),
            long: "remote"@,
            required: false,
            value_name: Some("IP or HOST NAME:PORT"@),
            help: "Sets the address or host name and port where Phantun Client connects to Phantun Server"@,
        },
        OptionView {
            id: "ipv4_only"@,
            short: Some('4'),
            long: "ipv4-only"@,
            required: false,
            value_name: None,
            help: "Only use IPv4 address when connecting to remote"@,
        },
        OptionView {
            id: "tun_local"@,
            short: None,
            long: "tun-local"@,
            required: false,
            value_name: Some("IP"@),
            help: "Sets the Tun interface IPv4 local address (O/S's end)"@,
        },
        OptionView {
            id: "tun_peer"@,
            short: None,
            long: "tun-peer"@,
            required: false,
            value_name: Some("IP"@),
            help: "Sets the Tun interface IPv4 destination (peer) address (Phantun Client's end)"@,
        },
    ]
}

/// The command line of the client.
pub fn command() -> (command: Command)
    ensures
        command_heading(command) == seq![
            "Phantun Client"@,
            VERSION@,
            "Datong Sun (github.com/dndx)"@,
        ],
        command_options(command) == client_options(),
        only_options(command),
{
    let command = new_command("Phantun Client", VERSION, "Datong Sun (github.com/dndx)");
    let command = with_value(
        command,
        "config",
        Some('c'),
        "config",
        false,
        "PATH",
        "Path to config file (default: phantun-client.json in current directory)",
    );
    let command = with_value(
        command,
        "local",
        Some('l'),
        "local",
        false,
        "IP:PORT",
        "Sets the IP and port where Phantun Client listens for incoming UDP datagrams",
    );
    let command = with_value(
        command,
        "remote",
        Some('r'),
        "remote",
        false,
        "IP or HOST NAME:PORT",
        "Sets the address or host name and port where Phantun Client connects to Phantun Server",
    );
    let command = with_flag(
        command,
        "ipv4_only",
        Some('4'),
        "ipv4-only",
        false,
        "Only use IPv4 address when connecting to remote",
    );
    let command = with_value(
        command,
        "tun_local",
        None,
        "tun-local",
        false,
        "IP",
        "Sets the Tun interface IPv4 local address (O/S's end)",
    );
    let command = with_value(
        command,
        "tun_peer",
        None,
        "tun-peer",
        false,
        "IP",
        "Sets the Tun interface IPv4 destination (peer) address (Phantun Client's end)",
    );
    assert(command_options(command) == client_options());
    command
}

/// The options of the client can stand in one command.
proof fn lemma_client_options_are_sound()
    ensures
        sound(client_options()),
{
    reveal_strlit("config");
    reveal_strlit("local");
    reveal_strlit("remote");
    reveal_strlit("ipv4_only");
    reveal_strlit("ipv4-only");
    reveal_strlit("tun_local");
    reveal_strlit("tun-local");
    reveal_strlit("tun_peer");
    reveal_strlit("tun-peer");
    reveal_strlit("help");
    reveal_strlit("version");
    assert("config"@[0] != "remote"@[0]);
    assert("ipv4_only"@[0] != "tun_local"@[0]);
    assert("ipv4-only"@[0] != "tun-local"@[0]);
    let options = client_options();
    assert forall|i: int, j: int| 0 <= i < j < options.len() implies !clash(
        #[trigger] options[i],
        #[trigger] options[j],
    ) by {
        assert(options[i].id.len() != options[j].id.len() || options[i].id[0]
            != options[j].id[0]);
        assert(options[i].long.len() != options[j].long.len() || options[i].long[0]
            != options[j].long[0]);
    }
    assert forall|i: int| 0 <= i < options.len() implies {
        let option = #[trigger] options[i];
        &&& option.id.len() > 0
        &&& option.id != "help"@ && option.id != "version"@
        &&& option.long.len() > 0
        &&& option.long[0] != '-'
        &&& option.long != "help"@ && option.long != "version"@
        &&& option.short != Some('h') && option.short != Some('V')
    } by {
        assert(options[i].id.len() != 4 && options[i].id.len() != 7);
        assert(options[i].long.len() != 4 && options[i].long.len() != 7);
    }
}

/// Parses the arguments of the client, the program's name first.
pub fn parse_arguments(arguments: Vec<String>) -> (outcome: Option<ArgMatches>)
    ensures
        parsed_line(client_options(), texts(arguments@)) == match outcome {
            Some(found) => Some((matched_values(found), matched_flags(found))),
            None => None,
        },
        outcome is Some ==> knows(outcome.unwrap(), client_options()),
{
    proof {
        lemma_client_options_are_sound();
    }
    match_arguments(command(), arguments)
}

/// What the matches say, apart from the configuration file.
pub open spec fn said(matches: ArgMatches) -> OverridesView {
    OverridesView {
        local: matched_values(matches)["local"@],
        remote: matched_values(matches)["remote"@],
        ipv4_only: matched_flags(matches)["ipv4_only"@],
        tun_local: matched_values(matches)["tun_local"@],
        tun_peer: matched_values(matches)["tun_peer"@],
    }
}

/// The configuration file that the command line names.
pub fn config_path(matches: &ArgMatches) -> (path: Option<String>)
    requires
        knows(*matches, client_options()),
    ensures
        optional_text(path) == matched_values(*matches)["config"@],
{
    assert(client_options()[0].id == "config"@);
    value_of(matches, "config")
}

impl RuntimeConfig {
    /// The configuration with what the command line says in front.
    pub fn with_overrides(overrides: Overrides, config: Config) -> (runtime: RuntimeConfig)
        ensures
            runtime@ == overridden(config@, overrides@),
    {
        RuntimeConfig {
            local: unwrap_text(overrides.local, config.local),
            remote: unwrap_text(overrides.remote, config.remote),
            ipv4_only: overrides.ipv4_only || config.ipv4_only,
            tun_local: unwrap_text(overrides.tun_local, config.tun_local),
            tun_peer: unwrap_text(overrides.tun_peer, config.tun_peer),
            tun_local6: config.tun_local6,
            tun_peer6: config.tun_peer6,
            routes: config.routes,
        }
    }

    /// The configuration with what the matches say in front.
    pub fn from_loaded_config(matches: &ArgMatches, config: Config) -> (runtime: RuntimeConfig)
        requires
            knows(*matches, client_options()),
        ensures
            runtime@ == overridden(config@, said(*matches)),
    {
        proof {
            let options = client_options();
            assert(options[1].id == "local"@);
            assert(options[2].id == "remote"@);
            assert(options[3].id == "ipv4_only"@);
            assert(options[4].id == "tun_local"@);
            assert(options[5].id == "tun_peer"@);
        }
        let overrides = Overrides {
            local: value_of(matches, "local"),
            remote: value_of(matches, "remote"),
            ipv4_only: flag_of(matches, "ipv4_only"),
            tun_local: value_of(matches, "tun_local"),
            tun_peer: value_of(matches, "tun_peer"),
        };
        RuntimeConfig::with_overrides(overrides, config)
    }

    /// The configuration of the file that the command line names, or else of the
    /// default file, with what the matches say in front. What was loaded from the
    /// named file counts only when the command line names one.
    pub fn from_matches(
        matches: &ArgMatches,
        default_file: Option<ConfigFile>,
        named_file: Option<ConfigFile>,
    ) -> (runtime: RuntimeConfig)
        requires
            knows(*matches, client_options()),
        ensures
            runtime@ == overridden(
                match if matched_values(*matches)["config"@] is Some {
                    named_file
                } else {
                    default_file
                } {
                    Some(file) => filled(file),
                    None => default_config(),
                },
                said(*matches),
            ),
    {
        let file = if config_path(matches).is_some() {
            named_file
        } else {
            default_file
        };
        RuntimeConfig::from_loaded_config(matches, load_config(file))
    }
}

/// A file that says nothing stands for the defaults.
pub proof fn an_empty_file_is_the_default(file: ConfigFile)
    requires
        file.local is None,
        file.remote is None,
        file.ipv4_only is None,
        file.tun_local is None,
        file.tun_peer is None,
        file.tun_local6 is None,
        file.tun_peer6 is None,
        file.routes is None,
    ensures
        filled(file) == default_config(),
{
}

/// What the command line says wins over the file; what it does not say is left
/// to the file.
pub proof fn the_command_line_wins(config: ConfigView, overrides: OverridesView)
    ensures
        ({
            let runtime = overridden(config, overrides);
            &&& overrides.local matches Some(text) ==> runtime.local == text
            &&& overrides.remote matches Some(text) ==> runtime.remote == text
            &&& overrides.tun_local matches Some(text) ==> runtime.tun_local == text
            &&& overrides.tun_peer matches Some(text) ==> runtime.tun_peer == text
            &&& overrides.ipv4_only ==> runtime.ipv4_only
            &&& overrides.local is None ==> runtime.local == config.local
            &&& overrides.remote is None ==> runtime.remote == config.remote
            &&& overrides.tun_local is None ==> runtime.tun_local == config.tun_local
            &&& overrides.tun_peer is None ==> runtime.tun_peer == config.tun_peer
            &&& !overrides.ipv4_only ==> runtime.ipv4_only == config.ipv4_only
            &&& runtime.tun_local6 == config.tun_local6
            &&& runtime.tun_peer6 == config.tun_peer6
            &&& runtime.routes == config.routes
        }),
{
}

/// Putting the same command line in front again changes nothing.
pub proof fn overriding_settles(config: ConfigView, overrides: OverridesView)
    ensures
        overridden(overridden(config, overrides), overrides) == overridden(config, overrides),
{
}

/// Every field that a file gives stands as it is; every field that it leaves out
/// has its default.
pub proof fn a_file_stands_as_it_is(file: ConfigFile)
    ensures
        ({
            let config = filled(file);
            let default = default_config();
            &&& file.local matches Some(text) ==> config.local == text@
            &&& file.remote matches Some(text) ==> config.remote == text@
            &&& file.ipv4_only matches Some(value) ==> config.ipv4_only == value
            &&& file.tun_local matches Some(text) ==> config.tun_local == text@
            &&& file.tun_peer matches Some(text) ==> config.tun_peer == text@
            &&& file.tun_local6 matches Some(text) ==> config.tun_local6 == text@
            &&& file.tun_peer6 matches Some(text) ==> config.tun_peer6 == text@
            &&& file.routes matches Some(routes) ==> config.routes.len() == routes@.len() && forall|
                i: int,
            |
                0 <= i < routes@.len() ==> (#[trigger] config.routes[i]).dest == routes@[i].dest@
                    && config.routes[i].gateway == routes@[i].gateway@
            &&& file.local is None ==> config.local == default.local
            &&& file.remote is None ==> config.remote == default.remote
            &&& file.ipv4_only is None ==> !config.ipv4_only
            &&& file.tun_local is None ==> config.tun_local == default.tun_local
            &&& file.tun_peer is None ==> config.tun_peer == default.tun_peer
            &&& file.tun_local6 is None ==> config.tun_local6 == default.tun_local6
            &&& file.tun_peer6 is None ==> config.tun_peer6 == default.tun_peer6
            &&& file.routes is None ==> config.routes.len() == 0
        }),
{
}

/// The restriction to IPv4 leaves out IPv6 addresses and nothing else.
pub proof fn the_restriction_leaves_out_ipv6(address: SocketAddr)
    ensures
        eligible(address, false),
        eligible(address, true) <==> address is V4,
{
}

/// A configuration in plain values is the configuration.
pub proof fn configurations_are_what_they_hold(
    config: Config,
    runtime: RuntimeConfig,
    overrides: Overrides,
)
    ensures
        config@.local == config.local@ && runtime@.local == runtime.local@,
        config@.remote == config.remote@ && runtime@.remote == runtime.remote@,
        config@.ipv4_only == config.ipv4_only && runtime@.ipv4_only == runtime.ipv4_only,
        config@.tun_local == config.tun_local@ && runtime@.tun_local == runtime.tun_local@,
        config@.tun_peer == config.tun_peer@ && runtime@.tun_peer == runtime.tun_peer@,
        config@.tun_local6 == config.tun_local6@ && runtime@.tun_local6 == runtime.tun_local6@,
        config@.tun_peer6 == config.tun_peer6@ && runtime@.tun_peer6 == runtime.tun_peer6@,
        config@.routes.len() == config.routes@.len(),
        runtime@.routes.len() == runtime.routes@.len(),
        forall|i: int|
            0 <= i < config.routes@.len() ==> (#[trigger] config@.routes[i]).dest
                == config.routes@[i].dest@ && config@.routes[i].gateway
                == config.routes@[i].gateway@,
        forall|i: int|
            0 <= i < runtime.routes@.len() ==> (#[trigger] runtime@.routes[i]).dest
                == runtime.routes@[i].dest@ && runtime@.routes[i].gateway
                == runtime.routes@[i].gateway@,
        overrides@.local == optional_text(overrides.local),
        overrides@.remote == optional_text(overrides.remote),
        overrides@.ipv4_only == overrides.ipv4_only,
        overrides@.tun_local == optional_text(overrides.tun_local),
        overrides@.tun_peer == optional_text(overrides.tun_peer),
{
}

/// Every override is read from the option of its own name.
pub proof fn overrides_are_read_from_their_options(matches: ArgMatches)
    ensures
        ({
            let overrides = said(matches);
            let values = matched_values(matches);
            &&& overrides.local == values["local"@]
            &&& overrides.remote == values["remote"@]
            &&& overrides.tun_local == values["tun_local"@]
            &&& overrides.tun_peer == values["tun_peer"@]
            &&& overrides.ipv4_only == matched_flags(matches)["ipv4_only"@]
        }),
{
}

/// No option is required; the long name of each is its identifier with hyphens
/// for underscores; all but the restriction to IPv4 take a value; and all but those
/// of the tunnel have a short name, their first letter or the digit of IPv4.
pub proof fn options_are_named_by_their_identifier(at: int)
    requires
        0 <= at < client_options().len(),
    ensures
        client_options().len() == 6,
        ({
            let option = client_options()[at];
            &&& !option.required
            &&& option.long.len() == option.id.len()
            &&& forall|i: int|
                0 <= i < option.id.len() ==> #[trigger] option.long[i] == if option.id[i] == '_' {
                    '-'
                } else {
                    option.id[i]
                }
            &&& option.value_name is None <==> option.id == "ipv4_only"@
            &&& option.short is None <==> option.id[0] == 't'
            &&& option.short matches Some(short) ==> short == if option.id == "ipv4_only"@ {
                '4'
            } else {
                option.id[0]
            }
        }),
{
    reveal_strlit("config");
    reveal_strlit("local");
    reveal_strlit("remote");
    reveal_strlit("ipv4_only");
    reveal_strlit("ipv4-only");
    reveal_strlit("tun_local");
    reveal_strlit("tun-local");
    reveal_strlit("tun_peer");
    reveal_strlit("tun-peer");
    assert("ipv4_only"@[0] != "tun_local"@[0]);
}

} // verus!
