//! The temporary packet filter rule that keeps the server's replies away from
//! the TCP stack of the operating system, and its removal.

use vstd::prelude::*;

use crate::error::{Error, ErrorKind, ErrorView};
use crate::net::{
    append_ip, ip_text, ipv4_texts_read_back, ipv4_texts_tell_addresses_apart, IpAddr, SocketAddr,
    SocketAddrV4, SocketAddrV6,
};
use crate::process::{lossy_text, utf8_lossy, CommandOutput};
use crate::text::{
    a_separator_splits_a_text, append_numeral, chars_of, contains_text, field_value, find_field,
    i32_value, is_digit_of, lemma_numeral_value, lines, lines_end_at_line_feeds, numeral,
    numerals_denote_their_number, numerals_tell_numbers_apart, occurs, optional_text, parse_i32,
    split_first_line, text_of, texts, trim, trimmed, written_value,
};

verus! {

/// Darwin's error number for a call that is not permitted.
pub const EPERM: i32 = 1;

/// A run of `pfctl`, in plain characters.
pub enum PfAction {
    Enable,
    ShowRules,
    LoadRule { anchor: Seq<char>, rule: Seq<char> },
    ClearRules { anchor: Seq<char> },
    Release { token: Seq<char> },
}

/// A run of `pfctl`.
#[derive(Clone, Debug, PartialEq, Eq)]
pub enum PfRequest {
    /// Switch packet filtering on and take a reference to it.
    Enable,
    /// Print the active rules.
    ShowRules,
    /// Load the rule, given on standard input, below the anchor.
    LoadRule { anchor: String, rule: String },
    /// Remove the rules below the anchor.
    ClearRules { anchor: String },
    /// Give the reference back.
    Release { token: String },
}

impl View for PfRequest {
    type V = PfAction;

    open spec fn view(&self) -> PfAction {
        match self {
            PfRequest::Enable => PfAction::Enable,
            PfRequest::ShowRules => PfAction::ShowRules,
            PfRequest::LoadRule { anchor, rule } => PfAction::LoadRule {
                anchor: anchor@,
                rule: rule@,
            },
            PfRequest::ClearRules { anchor } => PfAction::ClearRules { anchor: anchor@ },
            PfRequest::Release { token } => PfAction::Release { token: token@ },
        }
    }
}

impl PfAction {
    /// The arguments of the run.
    pub open spec fn arguments(self) -> Seq<Seq<char>> {
        match self {
            PfAction::Enable => seq!["-E"@],
            PfAction::ShowRules => seq!["-s"@, "rules"@],
            PfAction::LoadRule { anchor, rule } => seq!["-a"@, anchor, "-f"@, "-"@],
            PfAction::ClearRules { anchor } => seq!["-a"@, anchor, "-F"@, "rules"@],
            PfAction::Release { token } => seq!["-X"@, token],
        }
    }
}

impl PfRequest {
    /// The arguments of the run.
    pub fn arguments(&self) -> (arguments: Vec<String>)
        ensures
            texts(arguments@) == self@.arguments(),
    {
        let mut arguments: Vec<String> = Vec::new();
        match self {
            PfRequest::Enable => {
                arguments.push("-E".to_owned());
            },
            PfRequest::ShowRules => {
                arguments.push("-s".to_owned());
                arguments.push("rules".to_owned());
            },
            PfRequest::LoadRule { anchor, rule: _ } => {
                arguments.push("-a".to_owned());
                arguments.push(anchor.clone());
                arguments.push("-f".to_owned());
                arguments.push("-".to_owned());
            },
            PfRequest::ClearRules { anchor } => {
                arguments.push("-a".to_owned());
                arguments.push(anchor.clone());
                arguments.push("-F".to_owned());
                arguments.push("rules".to_owned());
            },
            PfRequest::Release { token } => {
                arguments.push("-X".to_owned());
                arguments.push(token.clone());
            },
        }
        assert(texts(arguments@) == self@.arguments());
        arguments
    }

    /// What goes to the standard input of the run.
    pub fn input(&self) -> (input: Option<String>)
        ensures
            match self@ {
                PfAction::LoadRule { anchor, rule } => input matches Some(text) && text@ == rule,
                _ => input is None,
            },
    {
        match self {
            PfRequest::LoadRule { anchor: _, rule } => Some(rule.clone()),
            _ => None,
        }
    }
}

/// The run that removes the rules below the anchor.
pub fn clear_packet_filter_rule(anchor: &str) -> (request: PfRequest)
    ensures
        request@ == (PfAction::ClearRules { anchor: anchor@ }),
{
    PfRequest::ClearRules { anchor: anchor.to_owned() }
}

/// The run that gives the reference back.
pub fn release_packet_filter(token: &str) -> (request: PfRequest)
    ensures
        request@ == (PfAction::Release { token: token@ }),
{
    PfRequest::Release { token: token.to_owned() }
}

/// The rule that drops the replies of the server before the operating system
/// sees them, and nothing else.
pub open spec fn blocking_rule(remote: SocketAddr) -> Seq<char> {
    "block drop in quick "@ + (if remote is V4 {
        "inet"@
    } else {
        "inet6"@
    }) + " proto tcp from "@ + ip_text(remote.spec_ip()) + " port "@ + numeral(
        remote.spec_port() as nat,
        10,
    ) + " to any\n"@
}

/// Writes the rule that drops the replies of the server.
pub fn packet_filter_rule(remote_addr: SocketAddr) -> (rule: String)
    ensures
        rule@ == blocking_rule(remote_addr),
{
    let mut rule = "block drop in quick ".to_owned();
    if remote_addr.is_ipv4() {
        rule.append("inet");
    } else {
        rule.append("inet6");
    }
    rule.append(" proto tcp from ");
    append_ip(&mut rule, remote_addr.ip());
    rule.append(" port ");
    append_numeral(&mut rule, remote_addr.port() as u128, 10);
    rule.append(" to any\n");
    rule
}

/// Whether one of the rules exposes the anchor of macOS for everything below it.
pub open spec fn exposes_macos_anchor(rules: Seq<char>) -> bool {
    exists|i: int|
        0 <= i < lines(rules).len() && occurs(trimmed(#[trigger] lines(rules)[i]), "anchor"@)
            && occurs(trimmed(lines(rules)[i]), "com.apple/*"@)
}

/// Whether the active rules expose the anchor of macOS.
pub fn macos_anchor_available(rules: &str) -> (result: bool)
    ensures
        result == exposes_macos_anchor(rules@),
{
    let chars = chars_of(rules);
    let word = chars_of("anchor");
    let name = chars_of("com.apple/*");
    let mut rest: &[char] = chars.as_slice();
    let ghost all = lines(rules@);
    let ghost mut seen: int = 0;
    while rest.len() > 0
        invariant
            all == lines(rules@),
            word@ == "anchor"@,
            name@ == "com.apple/*"@,
            0 <= seen <= all.len(),
            lines(rest@) == all.skip(seen),
            forall|i: int|
                0 <= i < seen ==> !(occurs(trimmed(#[trigger] all[i]), "anchor"@) && occurs(
                    trimmed(all[i]),
                    "com.apple/*"@,
                )),
        decreases rest.len(),
    {
        let (line, after) = split_first_line(rest);
        proof {
            assert(lines(rest@)[0] == line@);
            assert(lines(rest@).drop_first() == lines(after@));
            assert(all.skip(seen)[0] == all[seen]);
            assert(all.skip(seen).drop_first() == all.skip(seen + 1));
        }
        let inner = trim(line);
        if contains_text(inner, word.as_slice()) && contains_text(inner, name.as_slice()) {
            return true;
        }
        rest = after;
        proof {
            seen = seen + 1;
        }
    }
    proof {
        assert(lines(rest@).len() == 0);
        assert(all.skip(seen).len() == 0);
    }
    false
}

/// The failure of `pfctl` with the complaints that it printed.
pub open spec fn pfctl_failure(complaints: Seq<char>) -> ErrorView {
    ErrorView {
        kind: ErrorKind::PermissionDenied,
        message: if trimmed(complaints).len() == 0 {
            "pfctl failed; run the client with administrator privileges"@
        } else {
            "pfctl failed: "@ + trimmed(complaints)
        },
    }
}

/// Tells the failure of `pfctl` from the complaints that it printed.
pub fn describe_pfctl_failure(complaints: &str) -> (error: Error)
    ensures
        error@ == pfctl_failure(complaints@),
{
    let chars = chars_of(complaints);
    let diagnostic = trim(chars.as_slice());
    if diagnostic.len() == 0 {
        return Error::new(
            ErrorKind::PermissionDenied,
            "pfctl failed; run the client with administrator privileges",
        );
    }
    let mut message = "pfctl failed: ".to_owned();
    message.append(text_of(diagnostic).as_str());
    Error { kind: ErrorKind::PermissionDenied, message }
}

/// Passes the output of a successful run of `pfctl` on.
pub fn checked_pfctl_output(output: CommandOutput) -> (result: Result<CommandOutput, Error>)
    ensures
        if output.success {
            result == Ok::<CommandOutput, Error>(output)
        } else {
            result matches Err(error) && error@ == pfctl_failure(utf8_lossy(output.stderr@))
        },
{
    if output.success {
        return Ok(output);
    }
    let complaints = lossy_text(output.stderr.as_slice());
    Err(describe_pfctl_failure(complaints.as_str()))
}

/// The reference token in what `pfctl` printed, or the failure when there is
/// none.
pub open spec fn token_in(text: Seq<char>) -> Result<Seq<char>, ErrorView> {
    match field_value(text, "Token"@) {
        Some(token) if token.len() > 0 => Ok(token),
        _ => Err(
            ErrorView {
                kind: ErrorKind::Other,
                message:
                    "pfctl enabled packet filtering but returned no reference token"@,
            },
        ),
    }
}

/// Finds the reference token in what `pfctl` printed.
pub fn reference_token(text: &str) -> (result: Result<String, Error>)
    ensures
        match token_in(text@) {
            Ok(token) => result matches Ok(found) && found@ == token,
            Err(failure) => result matches Err(error) && error@ == failure,
        },
{
    match find_field(text, "Token") {
        Some(token) => {
            if !token.as_str().is_empty() {
                return Ok(token);
            }
        },
        None => {},
    }
    Err(
        Error::new(
            ErrorKind::Other,
            "pfctl enabled packet filtering but returned no reference token",
        ),
    )
}

/// What enabling the packet filter gives: the token of the reference, or the
/// failure.
pub open spec fn enabled(
    success: bool,
    printed: Seq<char>,
    complaints: Seq<char>,
) -> Result<Seq<char>, ErrorView> {
    if success {
        token_in(printed + complaints)
    } else {
        Err(pfctl_failure(complaints))
    }
}

/// The token of the reference, from the outcome of enabling the packet filter.
pub fn enable_packet_filter(output: CommandOutput) -> (result: Result<String, Error>)
    ensures
        match enabled(output.success, utf8_lossy(output.stdout@), utf8_lossy(output.stderr@)) {
            Ok(token) => result matches Ok(found) && found@ == token,
            Err(failure) => result matches Err(error) && error@ == failure,
        },
{
    match checked_pfctl_output(output) {
        Err(error) => Err(error),
        Ok(output) => {
            let mut text = lossy_text(output.stdout.as_slice());
            text.append(lossy_text(output.stderr.as_slice()).as_str());
            reference_token(text.as_str())
        },
    }
}

/// The failure when the active rules do not expose the anchor of macOS.
pub open spec fn no_macos_anchor() -> ErrorView {
    ErrorView {
        kind: ErrorKind::Unsupported,
        message:
            "the active PF ruleset has no macOS com.apple anchor; refusing to start without reliable packet interception"@,
    }
}

/// Checks that the active rules expose the anchor of macOS, from the outcome of
/// printing them.
pub fn ensure_macos_anchor(output: CommandOutput) -> (result: Result<(), Error>)
    ensures
        if !output.success {
            result matches Err(error) && error@ == pfctl_failure(utf8_lossy(output.stderr@))
        } else if exposes_macos_anchor(utf8_lossy(output.stdout@)) {
            result is Ok
        } else {
            result matches Err(error) && error@ == no_macos_anchor()
        },
{
    match checked_pfctl_output(output) {
        Err(error) => Err(error),
        Ok(output) => {
            let rules = lossy_text(output.stdout.as_slice());
            if macos_anchor_available(rules.as_str()) {
                return Ok(());
            }
            Err(
                Error::new(
                    ErrorKind::Unsupported,
                    "the active PF ruleset has no macOS com.apple anchor; refusing to start without reliable packet interception",
                ),
            )
        },
    }
}

/// The anchor of one run of the client.
pub open spec fn anchor_of(process_id: nat, nonce: nat) -> Seq<char> {
    "com.apple/phantun-client-"@ + numeral(process_id, 10) + seq!['-'] + numeral(nonce, 10)
}

/// Names the anchor of one run of the client, by its process and a number that
/// no other run of the process uses.
pub fn anchor_name(process_id: u32, nonce: u128) -> (anchor: String)
    ensures
        anchor@ == anchor_of(process_id as nat, nonce as nat),
{
    let mut anchor = "com.apple/phantun-client-".to_owned();
    append_numeral(&mut anchor, process_id as u128, 10);
    anchor.push('-');
    append_numeral(&mut anchor, nonce, 10);
    assert(anchor@ == anchor_of(process_id as nat, nonce as nat));
    anchor
}

/// The installation of the rule, under way.
pub enum FirewallSetup {
    /// Packet filtering is to be enabled.
    Enabling { anchor: String, remote_addr: SocketAddr },
    /// The anchor of macOS is to be looked for.
    Checking { anchor: String, remote_addr: SocketAddr, token: String },
    /// The rule is to be loaded.
    Loading { anchor: String, remote_addr: SocketAddr, token: String },
}

/// The loaded rule: where it stands and the reference that it needs.
#[derive(Clone, Debug, PartialEq, Eq)]
pub struct FirewallGuard {
    pub anchor: String,
    pub token: String,
}

/// What follows a run of `pfctl` or the start of the watchdog.
pub enum FirewallStep {
    /// The next run of `pfctl`.
    Continue(FirewallSetup),
    /// The rule is loaded; the watchdog is to be started.
    Loaded(FirewallGuard),
    /// The rule is loaded and the watchdog runs.
    Installed(FirewallGuard),
    /// The installation failed; the runs undo what was done, failures ignored.
    Failed { undo: Vec<PfRequest>, error: Error },
}

/// Something that the client holds in the packet filter.
pub enum Holding {
    /// A reference.
    Reference(Seq<char>),
    /// The rule below an anchor.
    Rule(Seq<char>),
}

/// What a run of `pfctl` gives back.
pub open spec fn gives_back(action: PfAction) -> Set<Holding> {
    match action {
        PfAction::ClearRules { anchor } => set![Holding::Rule(anchor)],
        PfAction::Release { token } => set![Holding::Reference(token)],
        _ => Set::empty(),
    }
}

/// What the runs give back, one after the other.
pub open spec fn all_given_back(requests: Seq<PfRequest>) -> Set<Holding>
    decreases requests.len(),
{
    if requests.len() == 0 {
        Set::empty()
    } else {
        all_given_back(requests.drop_last()).union(gives_back(requests.last()@))
    }
}

impl FirewallSetup {
    /// What the client knows that it holds before the run of the stage.
    pub open spec fn holds(self) -> Set<Holding> {
        match self {
            FirewallSetup::Enabling { .. } => Set::empty(),
            FirewallSetup::Checking { token, .. } => set![Holding::Reference(token@)],
            FirewallSetup::Loading { token, .. } => set![Holding::Reference(token@)],
        }
    }

    /// The run of the stage.
    pub fn request(&self) -> (request: PfRequest)
        ensures
            request@ == match self {
                FirewallSetup::Enabling { .. } => PfAction::Enable,
                FirewallSetup::Checking { .. } => PfAction::ShowRules,
                FirewallSetup::Loading { anchor, remote_addr, .. } => PfAction::LoadRule {
                    anchor: anchor@,
                    rule: blocking_rule(*remote_addr),
                },
            },
    {
        match self {
            FirewallSetup::Enabling { .. } => PfRequest::Enable,
            FirewallSetup::Checking { .. } => PfRequest::ShowRules,
            FirewallSetup::Loading { anchor, remote_addr, .. } => PfRequest::LoadRule {
                anchor: anchor.clone(),
                rule: packet_filter_rule(*remote_addr),
            },
        }
    }

    /// How the stage judges the outcome of its run: the token that enabling gave,
    /// empty at the other stages, or the failure.
    pub open spec fn verdict(self, outcome: Result<CommandOutput, Error>) -> Result<
        Seq<char>,
        ErrorView,
    > {
        match outcome {
            Err(error) => Err(error@),
            Ok(output) => {
                let printed = utf8_lossy(output.stdout@);
                let complaints = utf8_lossy(output.stderr@);
                match self {
                    FirewallSetup::Enabling { .. } => enabled(output.success, printed, complaints),
                    FirewallSetup::Checking { .. } => if !output.success {
                        Err(pfctl_failure(complaints))
                    } else if exposes_macos_anchor(printed) {
                        Ok(Seq::empty())
                    } else {
                        Err(no_macos_anchor())
                    },
                    FirewallSetup::Loading { .. } => if output.success {
                        Ok(Seq::empty())
                    } else {
                        Err(pfctl_failure(complaints))
                    },
                }
            },
        }
    }

    /// Takes the outcome of the run and says what follows. After a failure
    /// everything that the client holds is given back.
    pub fn reply(self, outcome: Result<CommandOutput, Error>) -> (step: FirewallStep)
        ensures
            match self.verdict(outcome) {
                Err(failure) => step matches FirewallStep::Failed { undo, error } && {
                    &&& error@ == failure
                    &&& all_given_back(undo@) == self.holds()
                    &&& match self {
                        FirewallSetup::Enabling { .. } => undo.len() == 0,
                        FirewallSetup::Checking { token, .. } => undo.len() == 1 && undo[0]@ == (
                        PfAction::Release { token: token@ }),
                        FirewallSetup::Loading { token, .. } => undo.len() == 1 && undo[0]@ == (
                        PfAction::Release { token: token@ }),
                    }
                },
                Ok(value) => match self {
                    FirewallSetup::Enabling { anchor, remote_addr } => step
                        matches FirewallStep::Continue(
                        FirewallSetup::Checking { anchor: a, remote_addr: r, token },
                    ) && a == anchor && r == remote_addr && token@ == value,
                    FirewallSetup::Checking { anchor, remote_addr, token } => step
                        == FirewallStep::Continue(
                        FirewallSetup::Loading { anchor, remote_addr, token },
                    ),
                    FirewallSetup::Loading { anchor, remote_addr, token } => step
                        == FirewallStep::Loaded(FirewallGuard { anchor, token }),
                },
            },
    {
        match self {
            FirewallSetup::Enabling { anchor, remote_addr } => {
                let enabling = match outcome {
                    Ok(output) => enable_packet_filter(output),
                    Err(error) => Err(error),
                };
                match enabling {
                    Ok(token) => FirewallStep::Continue(
                        FirewallSetup::Checking { anchor, remote_addr, token },
                    ),
                    Err(error) => FirewallStep::Failed { undo: Vec::new(), error },
                }
            },
            FirewallSetup::Checking { anchor, remote_addr, token } => {
                let checking = match outcome {
                    Ok(output) => ensure_macos_anchor(output),
                    Err(error) => Err(error),
                };
                match checking {
                    Ok(_) => FirewallStep::Continue(
                        FirewallSetup::Loading { anchor, remote_addr, token },
                    ),
                    Err(error) => FirewallStep::Failed { undo: release_only(token), error },
                }
            },
            FirewallSetup::Loading { anchor, remote_addr: _, token } => {
                let loading = match outcome {
                    Ok(output) => checked_pfctl_output(output),
                    Err(error) => Err(error),
                };
                match loading {
                    Ok(_) => FirewallStep::Loaded(FirewallGuard { anchor, token }),
                    Err(error) => FirewallStep::Failed { undo: release_only(token), error },
                }
            },
        }
    }
}

/// The runs that give a reference back.
fn release_only(token: String) -> (undo: Vec<PfRequest>)
    ensures
        undo.len() == 1,
        undo[0]@ == (PfAction::Release { token: token@ }),
        all_given_back(undo@) == set![Holding::Reference(token@)],
{
    let mut undo: Vec<PfRequest> = Vec::new();
    undo.push(PfRequest::Release { token });
    proof {
        reveal_with_fuel(all_given_back, 2);
        assert(undo@.drop_last() == Seq::<PfRequest>::empty());
        assert(all_given_back(undo@) == set![Holding::Reference(token@)]);
    }
    undo
}

impl FirewallGuard {
    /// What the client holds while the rule is loaded.
    pub open spec fn holds(self) -> Set<Holding> {
        set![Holding::Rule(self.anchor@), Holding::Reference(self.token@)]
    }

    /// Starts the installation. The anchor is named by the process and a number
    /// that no other run of the process uses.
    pub fn install(remote_addr: SocketAddr, process_id: u32, nonce: u128) -> (setup: FirewallSetup)
        ensures
            setup matches FirewallSetup::Enabling { anchor, remote_addr: remote } && {
                &&& anchor@ == anchor_of(process_id as nat, nonce as nat)
                &&& remote == remote_addr
            },
    {
        FirewallSetup::Enabling { anchor: anchor_name(process_id, nonce), remote_addr }
    }

    /// The environment of the watchdog over the rule, for the process that loaded
    /// it.
    pub fn watchdog(&self, process_id: u32) -> (environment: CleanupEnvironment)
        ensures
            environment@ == helper_environment(self.anchor@, self.token@, process_id as nat),
    {
        spawn_cleanup_helper(self.anchor.as_str(), self.token.as_str(), process_id)
    }

    /// Takes the outcome of starting the watchdog. Without one the rule does not
    /// stay.
    pub fn watched(self, outcome: Result<(), Error>) -> (step: FirewallStep)
        ensures
            match outcome {
                Ok(_) => step == FirewallStep::Installed(self),
                Err(failure) => step matches FirewallStep::Failed { undo, error } && {
                    &&& error == failure
                    &&& undo.len() == 2
                    &&& undo[0]@ == (PfAction::ClearRules { anchor: self.anchor@ })
                    &&& undo[1]@ == (PfAction::Release { token: self.token@ })
                    &&& all_given_back(undo@) == self.holds()
                },
            },
    {
        match outcome {
            Ok(_) => FirewallStep::Installed(self),
            Err(error) => FirewallStep::Failed { undo: self.teardown(), error },
        }
    }

    /// The runs that remove the rule and give the reference back, in this order.
    pub fn teardown(&self) -> (requests: Vec<PfRequest>)
        ensures
            requests.len() == 2,
            requests[0]@ == (PfAction::ClearRules { anchor: self.anchor@ }),
            requests[1]@ == (PfAction::Release { token: self.token@ }),
            all_given_back(requests@) == self.holds(),
    {
        let mut requests: Vec<PfRequest> = Vec::new();
        requests.push(clear_packet_filter_rule(self.anchor.as_str()));
        requests.push(release_packet_filter(self.token.as_str()));
        proof {
            reveal_with_fuel(all_given_back, 3);
            let first = requests@.drop_last();
            assert(first.drop_last() == Seq::<PfRequest>::empty());
            assert(all_given_back(requests@) == self.holds());
        }
        requests
    }
}

/// Names of the environment variables of the watchdog process.
pub const CLEANUP_MODE_ENV: &'static str = "PHANTUN_CLIENT_MAC_CLEANUP_MODE";

pub const CLEANUP_ANCHOR_ENV: &'static str = "PHANTUN_CLIENT_MAC_CLEANUP_ANCHOR";

pub const CLEANUP_TOKEN_ENV: &'static str = "PHANTUN_CLIENT_MAC_CLEANUP_TOKEN";

pub const CLEANUP_PARENT_PID_ENV: &'static str = "PHANTUN_CLIENT_MAC_CLEANUP_PARENT_PID";

/// The environment of the watchdog process: the variables that are set.
#[derive(Clone, Debug, PartialEq, Eq)]
pub struct CleanupEnvironment {
    pub mode: Option<String>,
    pub anchor: Option<String>,
    pub token: Option<String>,
    pub parent_pid: Option<String>,
}

/// The environment in plain characters.
pub struct CleanupEnvironmentView {
    pub mode: Option<Seq<char>>,
    pub anchor: Option<Seq<char>>,
    pub token: Option<Seq<char>>,
    pub parent_pid: Option<Seq<char>>,
}

impl View for CleanupEnvironment {
    type V = CleanupEnvironmentView;

    open spec fn view(&self) -> CleanupEnvironmentView {
        CleanupEnvironmentView {
            mode: optional_text(self.mode),
            anchor: optional_text(self.anchor),
            token: optional_text(self.token),
            parent_pid: optional_text(self.parent_pid),
        }
    }
}

/// The environment that tells the watchdog what to give back, and after the end
/// of which process.
pub open spec fn helper_environment(
    anchor: Seq<char>,
    token: Seq<char>,
    process_id: nat,
) -> CleanupEnvironmentView {
    CleanupEnvironmentView {
        mode: Some("1"@),
        anchor: Some(anchor),
        token: Some(token),
        parent_pid: Some(numeral(process_id, 10)),
    }
}

/// Writes the environment of the watchdog process.
pub fn spawn_cleanup_helper(anchor: &str, token: &str, process_id: u32) -> (environment:
    CleanupEnvironment)
    ensures
        environment@ == helper_environment(anchor@, token@, process_id as nat),
{
    let mut number = String::new();
    append_numeral(&mut number, process_id as u128, 10);
    assert(number@ == numeral(process_id as nat, 10));
    CleanupEnvironment {
        mode: Some("1".to_owned()),
        anchor: Some(anchor.to_owned()),
        token: Some(token.to_owned()),
        parent_pid: Some(number),
    }
}

/// What the watchdog is to do.
#[derive(Clone, Debug, PartialEq, Eq)]
pub struct CleanupRequest {
    pub guard: FirewallGuard,
    pub parent_pid: i32,
}

/// What the watchdog is to do, in plain values.
pub struct CleanupRequestView {
    pub anchor: Seq<char>,
    pub token: Seq<char>,
    pub parent_pid: int,
}

impl View for CleanupRequest {
    type V = CleanupRequestView;

    open spec fn view(&self) -> CleanupRequestView {
        CleanupRequestView {
            anchor: self.guard.anchor@,
            token: self.guard.token@,
            parent_pid: self.parent_pid as int,
        }
    }
}

/// The failure on a variable that is not set.
pub open spec fn missing_value(name: Seq<char>) -> ErrorView {
    ErrorView {
        kind: ErrorKind::InvalidInput,
        message: "missing internal Phantun cleanup value "@ + name,
    }
}

/// The failure on a process number that is none.
pub open spec fn bad_process_number() -> ErrorView {
    ErrorView {
        kind: ErrorKind::InvalidInput,
        message: "invalid Phantun cleanup parent process identifier"@,
    }
}

/// What the environment asks of the process: nothing when it is no watchdog.
pub open spec fn requested(environment: CleanupEnvironmentView) -> Result<
    Option<CleanupRequestView>,
    ErrorView,
> {
    if environment.mode is None {
        Ok(None)
    } else if environment.anchor is None {
        Err(missing_value(CLEANUP_ANCHOR_ENV@))
    } else if environment.token is None {
        Err(missing_value(CLEANUP_TOKEN_ENV@))
    } else if environment.parent_pid is None {
        Err(missing_value(CLEANUP_PARENT_PID_ENV@))
    } else {
        match i32_value(environment.parent_pid.unwrap()) {
            Some(number) if number > 0 => Ok(
                Some(
                    CleanupRequestView {
                        anchor: environment.anchor.unwrap(),
                        token: environment.token.unwrap(),
                        parent_pid: number,
                    },
                ),
            ),
            _ => Err(bad_process_number()),
        }
    }
}

/// The value of a variable that has to be set.
pub fn required_cleanup_environment(name: &str, value: Option<String>) -> (result: Result<
    String,
    Error,
>)
    ensures
        match value {
            Some(text) => result == Ok::<String, Error>(text),
            None => result matches Err(error) && error@ == missing_value(name@),
        },
{
    match value {
        Some(text) => Ok(text),
        None => {
            let mut message = "missing internal Phantun cleanup value ".to_owned();
            message.append(name);
            Err(Error { kind: ErrorKind::InvalidInput, message })
        },
    }
}

/// Reads from the environment what the process is to clean up, if it is the
/// watchdog.
pub fn run_cleanup_helper_if_requested(environment: CleanupEnvironment) -> (result: Result<
    Option<CleanupRequest>,
    Error,
>)
    ensures
        match requested(environment@) {
            Err(failure) => result matches Err(error) && error@ == failure,
            Ok(None) => result matches Ok(None),
            Ok(Some(request)) => result matches Ok(Some(found)) && found@ == request,
        },
{
    if environment.mode.is_none() {
        return Ok(None);
    }
    let anchor = match required_cleanup_environment(CLEANUP_ANCHOR_ENV, environment.anchor) {
        Ok(text) => text,
        Err(error) => {
            return Err(error);
        },
    };
    let token = match required_cleanup_environment(CLEANUP_TOKEN_ENV, environment.token) {
        Ok(text) => text,
        Err(error) => {
            return Err(error);
        },
    };
    let number = match required_cleanup_environment(
        CLEANUP_PARENT_PID_ENV,
        environment.parent_pid,
    ) {
        Ok(text) => text,
        Err(error) => {
            return Err(error);
        },
    };
    match parse_i32(number.as_str()) {
        Some(parent_pid) => {
            if parent_pid > 0 {
                return Ok(
                    Some(CleanupRequest { guard: FirewallGuard { anchor, token }, parent_pid }),
                );
            }
        },
        None => {},
    }
    Err(
        Error::new(
            ErrorKind::InvalidInput,
            "invalid Phantun cleanup parent process identifier",
        ),
    )
}

/// Whether the process lives, from the outcome of sending it no signal: it does
/// when the signal could be sent, or only the permission was missing.
pub fn process_is_alive(outcome: Result<(), Error>) -> (alive: bool)
    ensures
        alive == match outcome {
            Ok(_) => true,
            Err(error) => error.kind == ErrorKind::Os(EPERM),
        },
{
    match outcome {
        Ok(_) => true,
        Err(error) => error.kind == ErrorKind::Os(EPERM),
    }
}

/// The watchdog reads what the guard wrote: from the environment of a guard it
/// learns the anchor and the token of that guard and the number of its process.
pub proof fn watchdog_reads_what_the_guard_wrote(
    anchor: Seq<char>,
    token: Seq<char>,
    process_id: nat,
)
    requires
        0 < process_id <= i32::MAX,
    ensures
        requested(helper_environment(anchor, token, process_id)) == Ok::<
            Option<CleanupRequestView>,
            ErrorView,
        >(Some(CleanupRequestView { anchor, token, parent_pid: process_id as int })),
{
    lemma_numeral_value(process_id);
}

/// No character of a decimal numeral is a hyphen.
proof fn lemma_numeral_has_no_hyphen(value: nat)
    ensures
        forall|i: int| 0 <= i < numeral(value, 10).len() ==> numeral(value, 10)[i] != '-',
    decreases value,
{
    if value >= 10 {
        lemma_numeral_has_no_hyphen(value / 10);
        let front = numeral(value / 10, 10);
        assert forall|i: int| 0 <= i < numeral(value, 10).len() implies numeral(value, 10)[i]
            != '-' by {
            if i < front.len() {
                assert(numeral(value, 10)[i] == front[i]);
            }
        }
    }
}

/// Different runs of the client use different anchors.
pub proof fn anchors_are_distinct(process_a: nat, nonce_a: nat, process_b: nat, nonce_b: nat)
    requires
        anchor_of(process_a, nonce_a) == anchor_of(process_b, nonce_b),
    ensures
        process_a == process_b,
        nonce_a == nonce_b,
{
    let prefix = "com.apple/phantun-client-"@;
    let pa = numeral(process_a, 10);
    let pb = numeral(process_b, 10);
    let na = numeral(nonce_a, 10);
    let nb = numeral(nonce_b, 10);
    let whole = anchor_of(process_a, nonce_a);
    lemma_numeral_has_no_hyphen(process_a);
    lemma_numeral_has_no_hyphen(process_b);
    let at_a = prefix.len() + pa.len();
    let at_b = prefix.len() + pb.len();
    assert(whole[at_a as int] == '-');
    assert(anchor_of(process_b, nonce_b)[at_b as int] == '-');
    if pa.len() < pb.len() {
        assert(anchor_of(process_b, nonce_b)[at_a as int] == pb[pa.len() as int]);
    }
    if pb.len() < pa.len() {
        assert(whole[at_b as int] == pa[pb.len() as int]);
    }
    assert(pa == whole.subrange(prefix.len() as int, at_a as int));
    assert(pb == whole.subrange(prefix.len() as int, at_b as int));
    assert(na == whole.skip(at_a as int + 1));
    assert(nb == whole.skip(at_b as int + 1));
    lemma_numeral_value(process_a);
    lemma_numeral_value(process_b);
    lemma_numeral_value(nonce_a);
    lemma_numeral_value(nonce_b);
}

/// The anchor of a run stands below the anchor that macOS exposes.
pub proof fn anchors_stand_below_the_macos_anchor(process_id: nat, nonce: nat)
    ensures
        "com.apple/"@.is_prefix_of(anchor_of(process_id, nonce)),
{
    reveal_strlit("com.apple/");
    reveal_strlit("com.apple/phantun-client-");
    assert("com.apple/"@ == anchor_of(process_id, nonce).take(10));
}

/// The rule names the server, its address and its port, and no other: it is made
/// of the fixed parts, the family, the address as people write it and the decimal
/// port.
pub proof fn rules_name_the_server(four: SocketAddrV4, six: SocketAddrV6)
    ensures
        blocking_rule(SocketAddr::V4(four)) == "block drop in quick "@ + "inet"@
            + " proto tcp from "@ + ip_text(IpAddr::V4(four.ip)) + " port "@ + numeral(
            four.port as nat,
            10,
        ) + " to any\n"@,
        blocking_rule(SocketAddr::V6(six)) == "block drop in quick "@ + "inet6"@
            + " proto tcp from "@ + ip_text(IpAddr::V6(six.ip)) + " port "@ + numeral(
            six.port as nat,
            10,
        ) + " to any\n"@,
{
}

/// Whether no character of the text is a space.
spec fn spaceless(text: Seq<char>) -> bool {
    forall|i: int| 0 <= i < text.len() ==> #[trigger] text[i] != ' '
}

proof fn lemma_spaceless_numeral(value: nat)
    ensures
        spaceless(numeral(value, 10)),
{
    numerals_denote_their_number(value, 10);
    assert forall|i: int| 0 <= i < numeral(value, 10).len() implies #[trigger] numeral(value, 10)[i]
        != ' ' by {
        assert(is_digit_of(numeral(value, 10)[i], 10));
    }
}

proof fn lemma_spaceless_sum(left: Seq<char>, right: Seq<char>)
    requires
        spaceless(left),
        spaceless(right),
    ensures
        spaceless(left + right),
{
    assert forall|i: int| 0 <= i < (left + right).len() implies #[trigger] (left + right)[i]
        != ' ' by {
        if i < left.len() {
            assert((left + right)[i] == left[i]);
        } else {
            assert((left + right)[i] == right[i - left.len()]);
        }
    }
}

proof fn lemma_spaceless_ipv4(ip: u32)
    ensures
        spaceless(ip_text(IpAddr::V4(ip))),
{
    let parts = ipv4_texts_read_back(ip);
    let (a, b, c, d) = (
        numeral(parts.0, 10),
        numeral(parts.1, 10),
        numeral(parts.2, 10),
        numeral(parts.3, 10),
    );
    lemma_spaceless_numeral(parts.0);
    lemma_spaceless_numeral(parts.1);
    lemma_spaceless_numeral(parts.2);
    lemma_spaceless_numeral(parts.3);
    let dot = seq!['.'];
    lemma_spaceless_sum(a, dot);
    lemma_spaceless_sum(a + dot, b);
    lemma_spaceless_sum(a + dot + b, dot);
    lemma_spaceless_sum(a + dot + b + dot, c);
    lemma_spaceless_sum(a + dot + b + dot + c, dot);
    lemma_spaceless_sum(a + dot + b + dot + c + dot, d);
}

/// Two texts between the same parts, separated by spaces, can be told from the
/// whole.
proof fn lemma_between(
    prefix: Seq<char>,
    l1: Seq<char>,
    middle: Seq<char>,
    l2: Seq<char>,
    end: Seq<char>,
    r1: Seq<char>,
    r2: Seq<char>,
)
    requires
        spaceless(l1) && spaceless(l2) && spaceless(r1) && spaceless(r2),
        middle.len() > 0 && middle[0] == ' ',
        end.len() > 0 && end[0] == ' ',
        prefix + l1 + middle + l2 + end == prefix + r1 + middle + r2 + end,
    ensures
        l1 == r1,
        l2 == r2,
{
    let skip = prefix.len() as int;
    let left = prefix + l1 + middle + l2 + end;
    let right = prefix + r1 + middle + r2 + end;
    let space = seq![' '];
    let mid = middle.drop_first();
    let tail = end.drop_first();
    assert(middle == space + mid);
    assert(end == space + tail);
    assert(left.skip(skip) == l1 + space + (mid + l2 + end));
    assert(right.skip(skip) == r1 + space + (mid + r2 + end));
    a_separator_splits_a_text(l1, mid + l2 + end, r1, mid + r2 + end, ' ');
    let drop = mid.len() as int;
    assert((mid + l2 + end).skip(drop) == l2 + space + tail);
    assert((mid + r2 + end).skip(drop) == r2 + space + tail);
    a_separator_splits_a_text(l2, tail, r2, tail, ' ');
}

/// Rules for different IPv4 servers differ.
pub proof fn rules_tell_ipv4_servers_apart(left: SocketAddrV4, right: SocketAddrV4)
    requires
        blocking_rule(SocketAddr::V4(left)) == blocking_rule(SocketAddr::V4(right)),
    ensures
        left == right,
{
    lemma_spaceless_ipv4(left.ip);
    lemma_spaceless_ipv4(right.ip);
    lemma_spaceless_numeral(left.port as nat);
    lemma_spaceless_numeral(right.port as nat);
    reveal_strlit(" port ");
    reveal_strlit(" to any\n");
    lemma_between(
        "block drop in quick "@ + "inet"@ + " proto tcp from "@,
        ip_text(IpAddr::V4(left.ip)),
        " port "@,
        numeral(left.port as nat, 10),
        " to any\n"@,
        ip_text(IpAddr::V4(right.ip)),
        numeral(right.port as nat, 10),
    );
    ipv4_texts_tell_addresses_apart(left.ip, right.ip);
    numerals_tell_numbers_apart(left.port as nat, right.port as nat, 10);
}

/// A run works on the anchor or the token that it was made for, whatever they
/// are, and only loading has an input.
pub proof fn runs_work_on_what_they_were_made_for(
    anchor: Seq<char>,
    rule: Seq<char>,
    token: Seq<char>,
)
    ensures
        PfAction::Enable.arguments() == seq!["-E"@],
        PfAction::ShowRules.arguments() == seq!["-s"@, "rules"@],
        (PfAction::LoadRule { anchor, rule }).arguments() == seq!["-a"@, anchor, "-f"@, "-"@],
        (PfAction::ClearRules { anchor }).arguments() == seq!["-a"@, anchor, "-F"@, "rules"@],
        (PfAction::Release { token }).arguments() == seq!["-X"@, token],
{
}

/// A run in plain characters is the run.
pub proof fn runs_are_what_they_hold(request: PfRequest)
    ensures
        match request {
            PfRequest::Enable => request@ == PfAction::Enable,
            PfRequest::ShowRules => request@ == PfAction::ShowRules,
            PfRequest::LoadRule { anchor, rule } => request@ == (PfAction::LoadRule {
                anchor: anchor@,
                rule: rule@,
            }),
            PfRequest::ClearRules { anchor } => request@ == (PfAction::ClearRules {
                anchor: anchor@,
            }),
            PfRequest::Release { token } => request@ == (PfAction::Release { token: token@ }),
        },
{
}

/// The anchor is the fixed part, the process and the number, both in decimal with
/// a hyphen between them.
pub proof fn anchors_name_their_run(process_id: nat, nonce: nat)
    ensures
        anchor_of(process_id, nonce) == "com.apple/phantun-client-"@ + numeral(process_id, 10)
            + seq!['-'] + numeral(nonce, 10),
{
}

/// The rules expose the anchor when their first line has both words or the rest
/// of the rules does; no rules do not.
pub proof fn one_line_exposes_the_anchor(line: Seq<char>, rest: Seq<char>)
    requires
        forall|i: int| 0 <= i < line.len() ==> #[trigger] line[i] != '\n',
        line.len() > 0 ==> line[line.len() - 1] != '\r',
    ensures
        exposes_macos_anchor(line + seq!['\n'] + rest) <==> (occurs(trimmed(line), "anchor"@)
            && occurs(trimmed(line), "com.apple/*"@)) || exposes_macos_anchor(rest),
        line.len() > 0 ==> (exposes_macos_anchor(line) <==> occurs(trimmed(line), "anchor"@)
            && occurs(trimmed(line), "com.apple/*"@)),
        !exposes_macos_anchor(Seq::empty()),
{
    lines_end_at_line_feeds(line, rest);
    if line.len() > 0 {
        assert(lines(line)[0] == line);
    }
    let text = line + seq!['\n'] + rest;
    let all = lines(text);
    let others = lines(rest);
    assert(all == seq![line] + others);
    assert(all[0] == line);
    if exposes_macos_anchor(text) {
        let i = choose|i: int|
            0 <= i < all.len() && occurs(trimmed(#[trigger] all[i]), "anchor"@) && occurs(
                trimmed(all[i]),
                "com.apple/*"@,
            );
        if i > 0 {
            assert(others[i - 1] == all[i]);
        }
    }
    if exposes_macos_anchor(rest) {
        let i = choose|i: int|
            0 <= i < others.len() && occurs(trimmed(#[trigger] others[i]), "anchor"@) && occurs(
                trimmed(others[i]),
                "com.apple/*"@,
            );
        assert(all[i + 1] == others[i]);
    }
}

/// A failed run is told by its complaint, trimmed, and by advice when it had none.
pub proof fn failed_runs_are_told_by_their_complaint(complaints: Seq<char>)
    ensures
        pfctl_failure(complaints).kind == ErrorKind::PermissionDenied,
        trimmed(complaints).len() > 0 ==> pfctl_failure(complaints).message == "pfctl failed: "@
            + trimmed(complaints),
        trimmed(complaints).len() == 0 ==> pfctl_failure(complaints).message
            == "pfctl failed; run the client with administrator privileges"@,
{
}

/// Each stage goes on exactly when its run succeeded and gave what the stage is
/// for: a token that is not empty, from what was printed on both streams, or the
/// exposed anchor, or the loaded rule.
pub proof fn stages_go_on_when_their_run_succeeded(setup: FirewallSetup, output: CommandOutput)
    ensures
        ({
            let printed = utf8_lossy(output.stdout@);
            let complaints = utf8_lossy(output.stderr@);
            let token = field_value(printed + complaints, "Token"@);
            &&& setup is Enabling ==> (setup.verdict(Ok(output)) is Ok <==> output.success && token
                is Some && token.unwrap().len() > 0)
            &&& setup is Enabling ==> (setup.verdict(Ok(output)) matches Ok(found) ==> token
                == Some(found))
            &&& setup is Checking ==> (setup.verdict(Ok(output)) is Ok <==> output.success
                && exposes_macos_anchor(printed))
            &&& setup is Loading ==> (setup.verdict(Ok(output)) is Ok <==> output.success)
            &&& !output.success ==> setup.verdict(Ok(output)) == Err::<Seq<char>, ErrorView>(
                pfctl_failure(complaints),
            )
        }),
        forall|error: Error| #[trigger]
            setup.verdict(Err(error)) == Err::<Seq<char>, ErrorView>(error@),
{
}

/// The watchdog is told the anchor, the token and the process, as they are.
pub proof fn the_watchdog_is_told_what_to_give_back(
    anchor: Seq<char>,
    token: Seq<char>,
    process_id: nat,
)
    ensures
        ({
            let environment = helper_environment(anchor, token, process_id);
            &&& environment.mode is Some
            &&& environment.anchor == Some(anchor)
            &&& environment.token == Some(token)
            &&& environment.parent_pid matches Some(text) && written_value(text, 10) == process_id
        }),
{
    numerals_denote_their_number(process_id, 10);
}

/// A process is the watchdog when the mode is set, whatever it is; it then needs
/// the anchor, the token and a positive process number, and takes them as they
/// are.
pub proof fn the_watchdog_needs_all_it_is_told(environment: CleanupEnvironmentView)
    ensures
        requested(environment) == Ok::<Option<CleanupRequestView>, ErrorView>(None)
            <==> environment.mode is None,
        requested(environment) matches Err(error) ==> error.kind == ErrorKind::InvalidInput,
        requested(environment) matches Ok(Some(request)) ==> {
            &&& environment.anchor == Some(request.anchor)
            &&& environment.token == Some(request.token)
            &&& environment.parent_pid is Some
            &&& i32_value(environment.parent_pid.unwrap()) == Some(request.parent_pid)
            &&& request.parent_pid > 0
        },
        environment.mode is Some && environment.anchor is Some && environment.token is Some
            && environment.parent_pid is Some && i32_value(environment.parent_pid.unwrap()) is Some
            && i32_value(environment.parent_pid.unwrap()).unwrap() > 0 ==> requested(environment)
            matches Ok(Some(_)),
{
}

/// What the watchdog reads and is to do, in plain values, is what it holds.
pub proof fn watchdog_values_are_what_they_hold(
    environment: CleanupEnvironment,
    request: CleanupRequest,
)
    ensures
        environment@.mode == optional_text(environment.mode),
        environment@.anchor == optional_text(environment.anchor),
        environment@.token == optional_text(environment.token),
        environment@.parent_pid == optional_text(environment.parent_pid),
        request@.anchor == request.guard.anchor@,
        request@.token == request.guard.token@,
        request@.parent_pid == request.parent_pid,
{
}

/// Clearing rules gives back the rule below the anchor, releasing gives back the
/// reference, and other runs give nothing back.
pub proof fn runs_give_back_their_holding(
    requests: Seq<PfRequest>,
    request: PfRequest,
    holding: Holding,
)
    ensures
        gives_back(request@).contains(holding) <==> match holding {
            Holding::Rule(anchor) => request@ == (PfAction::ClearRules { anchor }),
            Holding::Reference(token) => request@ == (PfAction::Release { token }),
        },
        all_given_back(requests.push(request)).contains(holding) <==> all_given_back(
            requests,
        ).contains(holding) || gives_back(request@).contains(holding),
        all_given_back(Seq::empty()) == Set::<Holding>::empty(),
{
    assert(requests.push(request).drop_last() == requests);
}

/// A missing permission has the error number of Darwin.
pub proof fn a_missing_permission_has_the_number_of_darwin()
    ensures
        EPERM == 1,
{
}

/// A token is what the first line with that name gives, unless it is empty.
pub proof fn a_token_is_not_empty(text: Seq<char>)
    ensures
        token_in(text) is Ok <==> field_value(text, "Token"@) is Some && field_value(
            text,
            "Token"@,
        ).unwrap().len() > 0,
        token_in(text) matches Ok(token) ==> field_value(text, "Token"@) == Some(token),
        token_in(text) matches Err(error) ==> error.kind == ErrorKind::Other && error.message
            == "pfctl enabled packet filtering but returned no reference token"@,
{
}

/// Rules without the anchor of macOS are told as not supported.
pub proof fn a_missing_anchor_is_not_supported(setup: FirewallSetup, output: CommandOutput)
    requires
        setup is Checking,
        output.success,
        !exposes_macos_anchor(utf8_lossy(output.stdout@)),
    ensures
        setup.verdict(Ok(output)) matches Err(error) && error.kind == ErrorKind::Unsupported
            && error.message
            == "the active PF ruleset has no macOS com.apple anchor; refusing to start without reliable packet interception"@,
{
}

/// The watchdog complains of the first value that is missing, by the name of its
/// variable, and then of a process number that is none.
pub proof fn the_first_missing_value_is_told(environment: CleanupEnvironmentView)
    requires
        environment.mode is Some,
    ensures
        environment.anchor is None ==> requested(environment) == Err::<
            Option<CleanupRequestView>,
            ErrorView,
        >(missing_value("PHANTUN_CLIENT_MAC_CLEANUP_ANCHOR"@)),
        environment.anchor is Some && environment.token is None ==> requested(environment) == Err::<
            Option<CleanupRequestView>,
            ErrorView,
        >(missing_value("PHANTUN_CLIENT_MAC_CLEANUP_TOKEN"@)),
        environment.anchor is Some && environment.token is Some && environment.parent_pid is None
            ==> requested(environment) == Err::<Option<CleanupRequestView>, ErrorView>(
            missing_value("PHANTUN_CLIENT_MAC_CLEANUP_PARENT_PID"@),
        ),
        environment.anchor is Some && environment.token is Some && environment.parent_pid is Some
            ==> (requested(environment) matches Err(error) ==> error.message
            == "invalid Phantun cleanup parent process identifier"@),
        CLEANUP_MODE_ENV@ == "PHANTUN_CLIENT_MAC_CLEANUP_MODE"@,
{
}

/// A value that is missing is told by its name.
pub proof fn missing_values_are_told_by_name(name: Seq<char>)
    ensures
        missing_value(name).kind == ErrorKind::InvalidInput,
        missing_value(name).message == "missing internal Phantun cleanup value "@ + name,
{
}

/// A loaded rule holds two things: the rule below the anchor and the reference.
/// While it is being installed only the reference is held, once there is one.
pub proof fn the_guard_holds_rule_and_reference(
    guard: FirewallGuard,
    setup: FirewallSetup,
    holding: Holding,
)
    ensures
        guard.holds().contains(holding) <==> holding == Holding::Rule(guard.anchor@) || holding
            == Holding::Reference(guard.token@),
        setup is Enabling ==> !setup.holds().contains(holding),
        setup matches FirewallSetup::Checking { token, .. } ==> (setup.holds().contains(holding)
            <==> holding == Holding::Reference(token@)),
        setup matches FirewallSetup::Loading { token, .. } ==> (setup.holds().contains(holding)
            <==> holding == Holding::Reference(token@)),
{
}

} // verus!
