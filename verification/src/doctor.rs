//! A diagnosis of the configuration, the ports, the controller and the connections.

use crate::config::{self, AppConfig};
use crate::encoding::{self, read_output};
use crate::number::{self, decimal_text, parse_number};
use crate::runtime::{self, controller_addr};
use crate::selector::{self, ProxiesResponse, ProxyInfo};
use crate::text::{self, has_text, same_text, split_lines, strip_prefix, to_chars, to_text, trim};
use vstd::prelude::*;

verus! {

// ---------------------------------------------------------------------------
// Findings
// ---------------------------------------------------------------------------

/// How grave a finding is.
#[derive(Debug, Clone, Copy, PartialEq, Eq, Structural)]
pub enum Level {
    Good,
    Fail,
    Warn,
    Info,
}

impl Level {
    /// The mark in front of a finding.
    pub open spec fn mark(self) -> Seq<char> {
        match self {
            Level::Good => "[OK]   "@,
            Level::Fail => "[FAIL] "@,
            Level::Warn => "[WARN] "@,
            Level::Info => "[INFO] "@,
        }
    }
}

/// One line of a diagnosis.
#[derive(Debug, PartialEq, Eq)]
pub struct Finding {
    pub level: Level,
    pub label: String,
    pub detail: String,
}

/// A finding as contracts speak of it.
pub struct Remark {
    pub level: Level,
    pub label: Seq<char>,
    pub detail: Seq<char>,
}

impl View for Finding {
    type V = Remark;

    open spec fn view(&self) -> Remark {
        Remark { level: self.level, label: self.label@, detail: self.detail@ }
    }
}

impl Finding {
    fn new(level: Level, label: &str, detail: &str) -> (finding: Self)
        ensures
            finding@ == (Remark { level, label: label@, detail: detail@ }),
    {
        Finding { level, label: label.to_string(), detail: detail.to_string() }
    }

    /// The line as it is printed.
    pub fn line(&self) -> (line: String)
        ensures
            line@ == self.level.mark() + self.label@ + ": "@ + self.detail@,
    {
        let mut line: String = match self.level {
            Level::Good => "[OK]   ".to_string(),
            Level::Fail => "[FAIL] ".to_string(),
            Level::Warn => "[WARN] ".to_string(),
            Level::Info => "[INFO] ".to_string(),
        };
        line.append(self.label.as_str());
        line.append(": ");
        line.append(self.detail.as_str());
        line
    }
}

/// The remarks of a list of findings.
pub open spec fn remarks(findings: Seq<Finding>) -> Seq<Remark> {
    findings.map_values(|finding: Finding| finding@)
}

/// What is said of the configuration: that it was loaded, or why it was not.
pub fn config_finding(error: Option<&str>) -> (finding: Finding)
    ensures
        finding@ == match error {
            None => Remark { level: Level::Good, label: "config"@, detail: "loaded"@ },
            Some(message) => Remark { level: Level::Fail, label: "config"@, detail: message@ },
        },
{
    match error {
        None => Finding::new(Level::Good, "config", "loaded"),
        Some(message) => Finding::new(Level::Fail, "config", message),
    }
}

// ---------------------------------------------------------------------------
// Hints in the output of commands
// ---------------------------------------------------------------------------

/// Whether the output of `ifconfig` speaks of the address of the TUN device.
pub open spec fn shows_tun(output: Option<Seq<char>>) -> bool {
    match output {
        Some(shown) => text::contains_text(shown, "198.18.0.1"@),
        None => false,
    }
}

/// Whether the output of `ifconfig` speaks of the address of the TUN device.
pub fn tun_route_hint(output: Option<Vec<u8>>) -> (found: bool)
    ensures
        found == shows_tun(encoding::output_text(config::optional_bytes(output))),
{
    match read_output(output) {
        Some(shown) => has_text(to_chars(shown.as_str()).as_slice(), "198.18.0.1"),
        None => false,
    }
}

/// The HTTP proxy that the system is set to.
#[derive(Debug, PartialEq, Eq)]
pub struct SystemProxyHint {
    pub enabled: bool,
    pub server: Option<String>,
    pub port: Option<u16>,
}

/// The system's proxy as contracts speak of it.
pub struct SystemProxy {
    pub enabled: bool,
    pub server: Option<Seq<char>>,
    pub port: Option<u16>,
}

impl View for SystemProxyHint {
    type V = SystemProxy;

    open spec fn view(&self) -> SystemProxy {
        SystemProxy {
            enabled: self.enabled,
            server: config::optional_text(self.server),
            port: self.port,
        }
    }
}

/// The text of an optional server, empty where there is none.
pub open spec fn text_or_empty(text: Option<Seq<char>>) -> Seq<char> {
    match text {
        Some(t) => t,
        None => Seq::empty(),
    }
}

/// The digits of an optional port, none where there is none.
pub open spec fn port_or_empty(port: Option<u16>) -> Seq<char> {
    match port {
        Some(n) => number::decimal(n as nat),
        None => Seq::empty(),
    }
}

fn append_server(out: &mut String, server: &Option<String>)
    ensures
        final(out)@ == old(out)@ + text_or_empty(config::optional_text(*server)),
{
    match server {
        Some(name) => out.append(name.as_str()),
        None => {
            assert(out@ =~= out@ + Seq::<char>::empty());
        },
    }
}

fn append_port(out: &mut String, port: Option<u16>)
    ensures
        final(out)@ == old(out)@ + port_or_empty(port),
{
    match port {
        Some(n) => {
            let digits: String = decimal_text(n as u64);
            out.append(digits.as_str());
        },
        None => {
            assert(out@ =~= out@ + Seq::<char>::empty());
        },
    }
}

impl SystemProxy {
    /// The words in which the setting is described.
    pub open spec fn words(self) -> Seq<char> {
        "Wi-Fi HTTP enabled="@ + (if self.enabled {
            "Yes"@
        } else {
            "No"@
        }) + " server="@ + text_or_empty(self.server) + " port="@ + port_or_empty(self.port)
    }

    /// The warning that the setting does not fit the port of the core.
    pub open spec fn warning(self, mixed_port: u16) -> Seq<char> {
        "Wi-Fi HTTP proxy points to "@ + text_or_empty(self.server) + ":"@ + port_or_empty(
            self.port,
        ) + ", but clash-cli mixed-port is "@ + number::decimal(mixed_port as nat)
    }
}

impl SystemProxyHint {
    /// A description of the setting.
    pub fn summary(&self) -> (summary: String)
        ensures
            summary@ == self@.words(),
    {
        let mut summary: String = "Wi-Fi HTTP enabled=".to_string();
        if self.enabled {
            summary.append("Yes");
        } else {
            summary.append("No");
        }
        summary.append(" server=");
        append_server(&mut summary, &self.server);
        summary.append(" port=");
        append_port(&mut summary, self.port);
        summary
    }

    fn warning(&self, mixed_port: u16) -> (warning: String)
        ensures
            warning@ == self@.warning(mixed_port),
    {
        let mut warning: String = "Wi-Fi HTTP proxy points to ".to_string();
        append_server(&mut warning, &self.server);
        warning.append(":");
        append_port(&mut warning, self.port);
        warning.append(", but clash-cli mixed-port is ");
        let digits: String = decimal_text(mixed_port as u64);
        warning.append(digits.as_str());
        warning
    }
}

/// What follows `prefix` on the first line that starts with it.
pub open spec fn first_with_prefix(lines: Seq<Seq<char>>, prefix: Seq<char>) -> Option<Seq<char>>
    decreases lines.len(),
{
    if lines.len() == 0 {
        None
    } else if prefix.is_prefix_of(lines[0]) {
        text::stripped(lines[0], prefix)
    } else {
        first_with_prefix(lines.skip(1), prefix)
    }
}

fn find_with_prefix(lines: &Vec<String>, prefix: &str) -> (found: Option<String>)
    ensures
        config::optional_text(found) == first_with_prefix(text::texts(lines@), prefix@),
{
    let ghost all = text::texts(lines@);
    assert(all.skip(0) =~= all);
    for i in 0..lines.len()
        invariant
            all == text::texts(lines@),
            first_with_prefix(all, prefix@) == first_with_prefix(all.skip(i as int), prefix@),
    {
        let chars: Vec<char> = to_chars(lines[i].as_str());
        assert(all.skip(i as int)[0] == lines@[i as int]@);
        if let Some(rest) = strip_prefix(chars.as_slice(), prefix) {
            return Some(to_text(rest));
        }
        assert(all.skip(i as int).skip(1) =~= all.skip(i + 1));
    }
    None
}

/// The proxy in the output of `networksetup -getwebproxy`: whether it is on, which server
/// is named and which port is given, if it is a number. Without the first there is none.
pub open spec fn shown_proxy(output: Option<Seq<char>>) -> Option<SystemProxy> {
    match output {
        Some(shown) => {
            let lines = text::lines(shown);
            match first_with_prefix(lines, "Enabled: "@) {
                Some(enabled) => Some(
                    SystemProxy {
                        enabled: enabled == "Yes"@,
                        server: match first_with_prefix(lines, "Server: "@) {
                            Some(server) => if server.len() > 0 {
                                Some(server)
                            } else {
                                None
                            },
                            None => None,
                        },
                        port: match first_with_prefix(lines, "Port: "@) {
                            Some(port) => match number::parsed_number(port, 65535) {
                                Ok(n) => Some(n as u16),
                                Err(_) => None,
                            },
                            None => None,
                        },
                    },
                ),
                None => None,
            }
        },
        None => None,
    }
}

/// The proxy of an optional hint.
pub open spec fn optional_proxy(hint: Option<SystemProxyHint>) -> Option<SystemProxy> {
    match hint {
        Some(hint) => Some(hint@),
        None => None,
    }
}

/// Reads the output of `networksetup -getwebproxy`.
pub fn system_proxy_hint(output: Option<Vec<u8>>) -> (hint: Option<SystemProxyHint>)
    ensures
        optional_proxy(hint) == shown_proxy(
            encoding::output_text(config::optional_bytes(output)),
        ),
{
    let shown: String = match read_output(output) {
        Some(shown) => shown,
        None => {
            return None;
        },
    };
    let lines: Vec<String> = split_lines(to_chars(shown.as_str()).as_slice());
    let enabled: String = match find_with_prefix(&lines, "Enabled: ") {
        Some(enabled) => enabled,
        None => {
            return None;
        },
    };
    let server: Option<String> = match find_with_prefix(&lines, "Server: ") {
        Some(server) => if server.as_str().is_empty() {
            None
        } else {
            Some(server)
        },
        None => None,
    };
    let port: Option<u16> = match find_with_prefix(&lines, "Port: ") {
        Some(port) => match parse_number(to_chars(port.as_str()).as_slice(), 65535) {
            Ok(n) => Some(n as u16),
            Err(_) => None,
        },
        None => None,
    };
    Some(SystemProxyHint { enabled: same_text(enabled.as_str(), "Yes"), server, port })
}

/// How many processes are reported.
pub const MOST_PROCESSES: usize = 6;

/// The lines that hold more than white space, trimmed, up to the given number of them.
pub open spec fn filled_lines(lines: Seq<Seq<char>>, most: nat) -> Seq<Seq<char>>
    decreases lines.len(),
{
    if lines.len() == 0 || most == 0 {
        Seq::empty()
    } else if text::trimmed(lines[0]).len() == 0 {
        filled_lines(lines.skip(1), most)
    } else {
        seq![text::trimmed(lines[0])] + filled_lines(lines.skip(1), (most - 1) as nat)
    }
}

/// The processes in the output of `pgrep`.
pub open spec fn shown_processes(output: Option<Seq<char>>) -> Option<Seq<Seq<char>>> {
    match output {
        Some(shown) => Some(filled_lines(text::lines(shown), MOST_PROCESSES as nat)),
        None => None,
    }
}

/// The texts of an optional list.
pub open spec fn optional_texts(list: Option<Vec<String>>) -> Option<Seq<Seq<char>>> {
    match list {
        Some(list) => Some(text::texts(list@)),
        None => None,
    }
}

/// Reads the output of `pgrep`.
pub fn mihomo_process_hint(output: Option<Vec<u8>>) -> (processes: Option<Vec<String>>)
    ensures
        optional_texts(processes) == shown_processes(
            encoding::output_text(config::optional_bytes(output)),
        ),
{
    let shown: String = match read_output(output) {
        Some(shown) => shown,
        None => {
            return None;
        },
    };
    let lines: Vec<String> = split_lines(to_chars(shown.as_str()).as_slice());
    let ghost all = text::lines(shown@);
    let mut processes: Vec<String> = Vec::new();
    let mut i: usize = 0;
    proof {
        assert(all.skip(0) =~= all);
        assert(text::texts(processes@) + filled_lines(all, MOST_PROCESSES as nat) =~= filled_lines(
            all,
            MOST_PROCESSES as nat,
        ));
    }
    while i < lines.len() && processes.len() < MOST_PROCESSES
        invariant
            all == text::texts(lines@),
            i <= lines.len(),
            processes@.len() <= MOST_PROCESSES,
            filled_lines(all, MOST_PROCESSES as nat) == text::texts(processes@) + filled_lines(
                all.skip(i as int),
                (MOST_PROCESSES - processes@.len()) as nat,
            ),
        decreases lines.len() - i,
    {
        let ghost before = text::texts(processes@);
        let ghost left = (MOST_PROCESSES - processes@.len()) as nat;
        let ghost rest = all.skip(i as int);
        let chars: Vec<char> = to_chars(lines[i].as_str());
        let line: &[char] = trim(chars.as_slice());
        assert(rest[0] == lines@[i as int]@);
        assert(rest.skip(1) =~= all.skip(i + 1));
        if line.len() > 0 {
            processes.push(to_text(line));
            proof {
                assert(text::texts(processes@) =~= before.push(line@));
                assert(before + filled_lines(rest, left) =~= text::texts(processes@) + filled_lines(
                    all.skip(i + 1),
                    (left - 1) as nat,
                ));
            }
        }
        i = i + 1;
    }
    assert(text::texts(processes@) + Seq::<Seq<char>>::empty() =~= text::texts(processes@));
    Some(processes)
}

/// Texts in one, with a separator between them.
pub open spec fn joined(list: Seq<Seq<char>>, separator: Seq<char>) -> Seq<char>
    decreases list.len(),
{
    if list.len() == 0 {
        Seq::empty()
    } else if list.len() == 1 {
        list[0]
    } else {
        joined(list.drop_last(), separator) + separator + list.last()
    }
}

fn join(list: &Vec<String>, separator: &str) -> (whole: String)
    ensures
        whole@ == joined(text::texts(list@), separator@),
{
    let ghost all = text::texts(list@);
    let mut whole = String::new();
    for i in 0..list.len()
        invariant
            all == text::texts(list@),
            whole@ == joined(all.take(i as int), separator@),
    {
        if i > 0 {
            whole.append(separator);
        }
        whole.append(list[i].as_str());
        proof {
            let more = all.take(i + 1);
            assert(more.drop_last() =~= all.take(i as int));
            assert(more.last() == list@[i as int]@);
            assert(whole@ =~= joined(more, separator@));
        }
    }
    assert(all.take(all.len() as int) =~= all);
    whole
}

// ---------------------------------------------------------------------------
// Probes
// ---------------------------------------------------------------------------

/// Something that a diagnosis looks at.
#[derive(Debug, Clone, Copy, PartialEq, Eq, Structural)]
pub enum Probe {
    /// The file of the runtime configuration.
    Runtime,
    /// The program of the core.
    Binary,
    /// The port of the controller.
    ControllerPort,
    /// The port of the proxy that the core offers.
    MixedPort,
    /// The answer of the controller.
    ControllerApi,
    /// A request without the proxy.
    Direct,
    /// A request through the proxy.
    Proxied,
    /// The output of `ifconfig`.
    TunRoute,
    /// The output of `networksetup`.
    SystemProxy,
    /// The output of `pgrep`.
    Processes,
}

/// What was seen.
pub enum Observation {
    /// Whether the file is there.
    Runtime(bool),
    /// The number of components in the path of the program, and whether it is there.
    Binary(usize, bool),
    /// Whether something listens.
    ControllerPort(bool),
    /// Whether something listens.
    MixedPort(bool),
    /// The proxies, or what went wrong.
    ControllerApi(Result<ProxiesResponse, String>),
    /// The summary of the answer, or what went wrong.
    Direct(Result<String, String>),
    /// The summary of the answer, or what went wrong.
    Proxied(Result<String, String>),
    /// The output, if the command could be run.
    TunRoute(Option<Vec<u8>>),
    /// The output, if the command could be run.
    SystemProxy(Option<Vec<u8>>),
    /// The output, if the command could be run.
    Processes(Option<Vec<u8>>),
}

/// The probe behind the given one. The TUN device is looked for only where it is wanted.
pub open spec fn next_probe(cfg: AppConfig, seen: Observation) -> Option<Probe> {
    match seen {
        Observation::Runtime(_) => Some(Probe::Binary),
        Observation::Binary(_, _) => Some(Probe::ControllerPort),
        Observation::ControllerPort(_) => Some(Probe::MixedPort),
        Observation::MixedPort(_) => Some(Probe::ControllerApi),
        Observation::ControllerApi(_) => Some(Probe::Direct),
        Observation::Direct(_) => Some(Probe::Proxied),
        Observation::Proxied(_) => if cfg.tun.enable {
            Some(Probe::TunRoute)
        } else {
            Some(Probe::SystemProxy)
        },
        Observation::TunRoute(_) => Some(Probe::SystemProxy),
        Observation::SystemProxy(_) => Some(Probe::Processes),
        Observation::Processes(_) => None,
    }
}

/// What is said of the program of the core: a path is looked up, a bare name is left to
/// the search path.
pub open spec fn binary_remark(bin: Seq<char>, components: usize, found: bool) -> Remark {
    if components <= 1 {
        Remark {
            level: Level::Info,
            label: "mihomo binary"@,
            detail: "using PATH command `"@ + bin + "`"@,
        }
    } else if found {
        Remark { level: Level::Good, label: "mihomo binary"@, detail: bin }
    } else {
        Remark { level: Level::Fail, label: "mihomo binary"@, detail: "not found: "@ + bin }
    }
}

/// What is said of a port.
pub open spec fn port_remark(label: Seq<char>, address: Seq<char>, up: bool) -> Remark {
    if up {
        Remark { level: Level::Good, label, detail: address }
    } else {
        Remark { level: Level::Fail, label, detail: address + " is not listening"@ }
    }
}

/// The address of the proxy that the core offers.
pub open spec fn mixed_address(cfg: AppConfig) -> Seq<char> {
    "127.0.0.1:"@ + number::decimal(cfg.mihomo.mixed_port as nat)
}

/// The description of the selector group.
pub open spec fn selector_words(selector: Seq<char>, info: ProxyInfo) -> Seq<char> {
    selector + " now="@ + (match info.now {
        Some(now) => now@,
        None => "<none>"@,
    }) + " candidates="@ + number::decimal(info.all@.len())
}

/// What is said of the controller.
pub open spec fn api_remark(cfg: AppConfig, answer: Result<ProxiesResponse, String>) -> Remark {
    match answer {
        Ok(response) => match selector::info_at(response.proxies@, cfg.proxy.selector@) {
            Some(info) => Remark {
                level: Level::Good,
                label: "controller api"@,
                detail: selector_words(cfg.proxy.selector@, info),
            },
            None => Remark {
                level: Level::Fail,
                label: "controller api"@,
                detail: "selector `"@ + cfg.proxy.selector@ + "` not found"@,
            },
        },
        Err(message) => Remark {
            level: Level::Fail,
            label: "controller api"@,
            detail: message@,
        },
    }
}

/// What is said of a request.
pub open spec fn request_remark(label: Seq<char>, answer: Result<String, String>) -> Remark {
    match answer {
        Ok(summary) => Remark { level: Level::Good, label, detail: summary@ },
        Err(message) => Remark { level: Level::Fail, label, detail: message@ },
    }
}

/// What is said of the TUN device.
pub open spec fn tun_remark(found: bool) -> Remark {
    if found {
        Remark {
            level: Level::Good,
            label: "tun route hint"@,
            detail: "198.18.0.1 route/interface found"@,
        }
    } else {
        Remark {
            level: Level::Fail,
            label: "tun route hint"@,
            detail: "TUN is enabled in config, but 198.18.0.1 was not found"@,
        }
    }
}

/// What is said of the system's proxy: a warning where it is on and is not the core's.
pub open spec fn system_remark(proxy: SystemProxy, mixed_port: u16) -> Remark {
    if proxy.enabled && proxy.port != Some(mixed_port) {
        Remark {
            level: Level::Warn,
            label: "system proxy hint"@,
            detail: proxy.warning(mixed_port),
        }
    } else {
        Remark { level: Level::Info, label: "system proxy hint"@, detail: proxy.words() }
    }
}

/// What is said of an observation.
pub open spec fn remarks_on(cfg: AppConfig, seen: Observation) -> Seq<Remark> {
    match seen {
        Observation::Runtime(present) => seq![
            if present {
                Remark { level: Level::Good, label: "runtime"@, detail: "exists"@ }
            } else {
                Remark {
                    level: Level::Fail,
                    label: "runtime"@,
                    detail: "missing; run `clash-cli update` first"@,
                }
            },
        ],
        Observation::Binary(components, found) => seq![
            binary_remark(cfg.mihomo.bin@, components, found),
        ],
        Observation::ControllerPort(up) => seq![
            port_remark("controller tcp"@, runtime::controller_address(cfg), up),
        ],
        Observation::MixedPort(up) => seq![
            port_remark("mixed proxy tcp"@, mixed_address(cfg), up),
        ],
        Observation::ControllerApi(answer) => seq![api_remark(cfg, answer)],
        Observation::Direct(answer) => seq![request_remark("direct request"@, answer)],
        Observation::Proxied(answer) => if cfg.tun.enable {
            seq![request_remark("proxy request"@, answer)]
        } else {
            seq![
                request_remark("proxy request"@, answer),
                Remark { level: Level::Info, label: "tun"@, detail: "disabled in config"@ },
            ]
        },
        Observation::TunRoute(output) => seq![
            tun_remark(shows_tun(encoding::output_text(config::optional_bytes(output)))),
        ],
        Observation::SystemProxy(output) => match shown_proxy(
            encoding::output_text(config::optional_bytes(output)),
        ) {
            Some(proxy) => seq![system_remark(proxy, cfg.mihomo.mixed_port)],
            None => Seq::empty(),
        },
        Observation::Processes(output) => match shown_processes(
            encoding::output_text(config::optional_bytes(output)),
        ) {
            Some(processes) => if processes.len() > 0 {
                seq![
                    Remark {
                        level: Level::Info,
                        label: "related processes"@,
                        detail: joined(processes, " | "@),
                    },
                ]
            } else {
                Seq::empty()
            },
            None => Seq::empty(),
        },
    }
}

fn binary_finding(bin: &str, components: usize, found: bool) -> (finding: Finding)
    ensures
        finding@ == binary_remark(bin@, components, found),
{
    if components <= 1 {
        let mut detail: String = "using PATH command `".to_string();
        detail.append(bin);
        detail.append("`");
        Finding::new(Level::Info, "mihomo binary", detail.as_str())
    } else if found {
        Finding::new(Level::Good, "mihomo binary", bin)
    } else {
        let mut detail: String = "not found: ".to_string();
        detail.append(bin);
        Finding::new(Level::Fail, "mihomo binary", detail.as_str())
    }
}

fn port_finding(label: &str, address: &str, up: bool) -> (finding: Finding)
    ensures
        finding@ == port_remark(label@, address@, up),
{
    if up {
        Finding::new(Level::Good, label, address)
    } else {
        let mut detail: String = address.to_string();
        detail.append(" is not listening");
        Finding::new(Level::Fail, label, detail.as_str())
    }
}

/// The address of the proxy that the core offers.
pub fn mixed_addr(cfg: &AppConfig) -> (address: String)
    ensures
        address@ == mixed_address(*cfg),
{
    let mut address: String = "127.0.0.1:".to_string();
    let port: String = decimal_text(cfg.mihomo.mixed_port as u64);
    address.append(port.as_str());
    address
}

/// The URL of the proxy that the core offers.
pub fn proxy_url(cfg: &AppConfig) -> (url: String)
    ensures
        url@ == "http://"@ + mixed_address(*cfg),
{
    let mut url: String = "http://".to_string();
    let address: String = mixed_addr(cfg);
    url.append(address.as_str());
    url
}

/// The summary of an answer to a request.
pub fn answer_summary(status: &str, millis: u64) -> (summary: String)
    ensures
        summary@ == "HTTP "@ + status@ + " in "@ + number::decimal(millis as nat) + " ms"@,
{
    let mut summary: String = "HTTP ".to_string();
    summary.append(status);
    summary.append(" in ");
    let digits: String = decimal_text(millis);
    summary.append(digits.as_str());
    summary.append(" ms");
    summary
}

fn api_finding(cfg: &AppConfig, answer: &Result<ProxiesResponse, String>) -> (finding: Finding)
    ensures
        finding@ == api_remark(*cfg, *answer),
{
    match answer {
        Ok(response) => match response.get(cfg.proxy.selector.as_str()) {
            Some(info) => {
                let mut detail: String = cfg.proxy.selector.clone();
                detail.append(" now=");
                match &info.now {
                    Some(now) => detail.append(now.as_str()),
                    None => detail.append("<none>"),
                }
                detail.append(" candidates=");
                let count: String = decimal_text(info.all.len() as u64);
                detail.append(count.as_str());
                Finding::new(Level::Good, "controller api", detail.as_str())
            },
            None => {
                let mut detail: String = "selector `".to_string();
                detail.append(cfg.proxy.selector.as_str());
                detail.append("` not found");
                Finding::new(Level::Fail, "controller api", detail.as_str())
            },
        },
        Err(message) => Finding::new(Level::Fail, "controller api", message.as_str()),
    }
}

fn request_finding(label: &str, answer: &Result<String, String>) -> (finding: Finding)
    ensures
        finding@ == request_remark(label@, *answer),
{
    match answer {
        Ok(summary) => Finding::new(Level::Good, label, summary.as_str()),
        Err(message) => Finding::new(Level::Fail, label, message.as_str()),
    }
}

fn tun_finding(found: bool) -> (finding: Finding)
    ensures
        finding@ == tun_remark(found),
{
    if found {
        Finding::new(Level::Good, "tun route hint", "198.18.0.1 route/interface found")
    } else {
        Finding::new(
            Level::Fail,
            "tun route hint",
            "TUN is enabled in config, but 198.18.0.1 was not found",
        )
    }
}

fn system_finding(hint: &SystemProxyHint, mixed_port: u16) -> (finding: Finding)
    ensures
        finding@ == system_remark(hint@, mixed_port),
{
    let ours: bool = match hint.port {
        Some(port) => port == mixed_port,
        None => false,
    };
    if hint.enabled && !ours {
        Finding::new(Level::Warn, "system proxy hint", hint.warning(mixed_port).as_str())
    } else {
        Finding::new(Level::Info, "system proxy hint", hint.summary().as_str())
    }
}

/// Says what is to be said of an observation, and what to look at next.
pub fn doctor(cfg: &AppConfig, seen: Observation) -> (report: (Vec<Finding>, Option<Probe>))
    ensures
        remarks(report.0@) == remarks_on(*cfg, seen),
        report.1 == next_probe(*cfg, seen),
{
    let mut findings: Vec<Finding> = Vec::new();
    let next: Option<Probe> = match seen {
        Observation::Runtime(present) => {
            if present {
                findings.push(Finding::new(Level::Good, "runtime", "exists"));
            } else {
                findings.push(
                    Finding::new(Level::Fail, "runtime", "missing; run `clash-cli update` first"),
                );
            }
            Some(Probe::Binary)
        },
        Observation::Binary(components, found) => {
            findings.push(binary_finding(cfg.mihomo.bin.as_str(), components, found));
            Some(Probe::ControllerPort)
        },
        Observation::ControllerPort(up) => {
            findings.push(port_finding("controller tcp", controller_addr(cfg).as_str(), up));
            Some(Probe::MixedPort)
        },
        Observation::MixedPort(up) => {
            findings.push(port_finding("mixed proxy tcp", mixed_addr(cfg).as_str(), up));
            Some(Probe::ControllerApi)
        },
        Observation::ControllerApi(answer) => {
            findings.push(api_finding(cfg, &answer));
            Some(Probe::Direct)
        },
        Observation::Direct(answer) => {
            findings.push(request_finding("direct request", &answer));
            Some(Probe::Proxied)
        },
        Observation::Proxied(answer) => {
            findings.push(request_finding("proxy request", &answer));
            if cfg.tun.enable {
                Some(Probe::TunRoute)
            } else {
                findings.push(Finding::new(Level::Info, "tun", "disabled in config"));
                Some(Probe::SystemProxy)
            }
        },
        Observation::TunRoute(output) => {
            findings.push(tun_finding(tun_route_hint(output)));
            Some(Probe::SystemProxy)
        },
        Observation::SystemProxy(output) => {
            if let Some(hint) = system_proxy_hint(output) {
                findings.push(system_finding(&hint, cfg.mihomo.mixed_port));
            }
            Some(Probe::Processes)
        },
        Observation::Processes(output) => {
            if let Some(processes) = mihomo_process_hint(output) {
                if !processes.is_empty() {
                    findings.push(
                        Finding::new(
                            Level::Info,
                            "related processes",
                            join(&processes, " | ").as_str(),
                        ),
                    );
                }
            }
            None
        },
    };
    assert(remarks(findings@) =~= remarks_on(*cfg, seen));
    (findings, next)
}

/// The probe that an observation comes from.
pub open spec fn probe_of(seen: Observation) -> Probe {
    match seen {
        Observation::Runtime(_) => Probe::Runtime,
        Observation::Binary(_, _) => Probe::Binary,
        Observation::ControllerPort(_) => Probe::ControllerPort,
        Observation::MixedPort(_) => Probe::MixedPort,
        Observation::ControllerApi(_) => Probe::ControllerApi,
        Observation::Direct(_) => Probe::Direct,
        Observation::Proxied(_) => Probe::Proxied,
        Observation::TunRoute(_) => Probe::TunRoute,
        Observation::SystemProxy(_) => Probe::SystemProxy,
        Observation::Processes(_) => Probe::Processes,
    }
}

impl Probe {
    /// The start of a diagnosis.
    pub fn first() -> (probe: Probe)
        ensures
            probe == Probe::Runtime,
            probe.place() == 0,
    {
        Probe::Runtime
    }

    /// The place of a probe in a diagnosis.
    pub open spec fn place(self) -> int {
        match self {
            Probe::Runtime => 0,
            Probe::Binary => 1,
            Probe::ControllerPort => 2,
            Probe::MixedPort => 3,
            Probe::ControllerApi => 4,
            Probe::Direct => 5,
            Probe::Proxied => 6,
            Probe::TunRoute => 7,
            Probe::SystemProxy => 8,
            Probe::Processes => 9,
        }
    }
}

/// A diagnosis goes through the probes in their order and leaves out none but that of the
/// TUN device, and that exactly where the device is not wanted.
pub proof fn probes_go_forward(cfg: AppConfig, seen: Observation)
    ensures
        match next_probe(cfg, seen) {
            Some(next) => if probe_of(seen) == Probe::Proxied && !cfg.tun.enable {
                next.place() == probe_of(seen).place() + 2
            } else {
                next.place() == probe_of(seen).place() + 1
            },
            None => probe_of(seen) == Probe::Processes,
        },
{
}

// ---------------------------------------------------------------------------
// What holds of every diagnosis
// ---------------------------------------------------------------------------

/// The first line that starts with a prefix counts, and what follows the prefix on it is
/// what was written there; where no line starts with it, nothing is found.
pub proof fn first_line_with_prefix_counts(
    front: Seq<Seq<char>>,
    prefix: Seq<char>,
    rest: Seq<char>,
    back: Seq<Seq<char>>,
)
    requires
        forall|i: int| 0 <= i < front.len() ==> !prefix.is_prefix_of(#[trigger] front[i]),
    ensures
        first_with_prefix(front.push(prefix + rest) + back, prefix) == Some(rest),
        first_with_prefix(front, prefix) is None,
    decreases front.len(),
{
    let all = front.push(prefix + rest) + back;
    if front.len() == 0 {
        assert(all[0] == prefix + rest);
        text::prefix_and_rest_make_the_text(prefix + rest, prefix, rest);
    } else {
        assert(all[0] == front[0]);
        assert(all.skip(1) =~= front.skip(1).push(prefix + rest) + back);
        assert forall|i: int| 0 <= i < front.skip(1).len() implies !prefix.is_prefix_of(
            #[trigger] front.skip(1)[i],
        ) by {
            assert(front.skip(1)[i] == front[i + 1]);
        }
        first_line_with_prefix_counts(front.skip(1), prefix, rest, back);
    }
}

/// The system's proxy is read line by line: it is there exactly where a line says whether it
/// is on, and it is on exactly where that line says `Yes`; the server is what its line names,
/// unless that is empty, and the port what its line gives, where that is a port.
pub proof fn shown_proxy_by_lines(shown: Seq<char>)
    ensures
        shown_proxy(None) is None,
        ({
            let enabled = first_with_prefix(text::lines(shown), "Enabled: "@);
            let server = first_with_prefix(text::lines(shown), "Server: "@);
            let port = first_with_prefix(text::lines(shown), "Port: "@);
            let proxy = shown_proxy(Some(shown));
            &&& proxy is Some <==> enabled is Some
            &&& proxy is Some ==> {
                &&& proxy->0.enabled <==> enabled == Some("Yes"@)
                &&& server is Some && server->0.len() > 0 ==> proxy->0.server == server
                &&& !(server is Some && server->0.len() > 0) ==> proxy->0.server is None
                &&& proxy->0.port is Some <==> port is Some && number::parsed_number(
                    port->0,
                    65535,
                ) is Ok
                &&& proxy->0.port is Some ==> number::parsed_number(port->0, 65535) == Ok::<
                    nat,
                    number::NumberError,
                >(proxy->0.port->0 as nat)
            }
        }),
{
    let port = first_with_prefix(text::lines(shown), "Port: "@);
    if port is Some {
        lemma_port_in_range(port->0);
    }
}

proof fn lemma_port_in_range(port: Seq<char>)
    ensures
        number::parsed_number(port, 65535) matches Ok(n) ==> n <= 65535,
{
    lemma_number_in_range(0, port, 65535);
    if port.len() > 0 {
        lemma_number_in_range(0, port.skip(1), 65535);
    }
}

proof fn lemma_number_in_range(value: nat, s: Seq<char>, max: nat)
    requires
        value <= max,
    ensures
        number::continued_number(value, s, max) matches Ok(n) ==> n <= max,
    decreases s.len(),
{
    if s.len() > 0 && number::is_digit(s[0]) && value * 10 + number::digit_value(s[0]) <= max {
        lemma_number_in_range(value * 10 + number::digit_value(s[0]), s.skip(1), max);
    }
}

/// The lines that are left are all those that hold more than white space, trimmed and in
/// their order, or the first of them where there are more than wanted.
pub proof fn filled_lines_are_the_first(lines: Seq<Seq<char>>, most: nat)
    ensures
        ({
            let filled = lines.map_values(|line: Seq<char>| text::trimmed(line)).filter(
                |line: Seq<char>| line.len() > 0,
            );
            filled_lines(lines, most) == if filled.len() <= most {
                filled
            } else {
                filled.take(most as int)
            }
        }),
    decreases lines.len(),
{
    let trims = lines.map_values(|line: Seq<char>| text::trimmed(line));
    let solid = |line: Seq<char>| line.len() > 0;
    let filled = trims.filter(solid);
    if lines.len() == 0 {
        reveal(Seq::filter);
        assert(filled =~= Seq::<Seq<char>>::empty());
    } else {
        let rest = lines.skip(1);
        let later = rest.map_values(|line: Seq<char>| text::trimmed(line));
        let first = seq![text::trimmed(lines[0])];
        assert(trims =~= first + later);
        Seq::filter_distributes_over_add(first, later, solid);
        assert(first.filter(solid) =~= if text::trimmed(lines[0]).len() > 0 {
            first
        } else {
            Seq::<Seq<char>>::empty()
        }) by {
            reveal_with_fuel(Seq::filter, 2);
            assert(first.drop_last() =~= Seq::<Seq<char>>::empty());
            assert(first.last() == text::trimmed(lines[0]));
        }
        filled_lines_are_the_first(rest, most);
        if most > 0 {
            filled_lines_are_the_first(rest, (most - 1) as nat);
        }
        assert(filled =~= first.filter(solid) + later.filter(solid));
        if most == 0 {
            assert(filled_lines(lines, most) =~= Seq::<Seq<char>>::empty());
            assert(filled.take(0) =~= Seq::<Seq<char>>::empty());
        } else if text::trimmed(lines[0]).len() == 0 {
            assert(filled =~= later.filter(solid));
        } else {
            let wanted = if filled.len() <= most {
                filled
            } else {
                filled.take(most as int)
            };
            assert(filled_lines(lines, most) =~= wanted);
        }
    }
}

/// The first six processes that are shown are reported, and none without an output.
pub proof fn six_processes_are_shown(shown: Seq<char>)
    ensures
        shown_processes(None) is None,
        shown_processes(Some(shown)) == Some(filled_lines(text::lines(shown), 6)),
{
}

/// Texts are put together in their order, with the separator between each two of them and
/// nowhere else.
pub proof fn joined_in_parts(a: Seq<Seq<char>>, b: Seq<Seq<char>>, separator: Seq<char>)
    ensures
        a.len() > 0 && b.len() > 0 ==> joined(a + b, separator) == joined(a, separator) + separator
            + joined(b, separator),
        a.len() == 1 ==> joined(a, separator) == a[0],
        a.len() == 0 ==> joined(a, separator).len() == 0,
    decreases b.len(),
{
    if a.len() > 0 && b.len() > 0 {
        let all = a + b;
        assert(all.drop_last() =~= a + b.drop_last());
        assert(all.last() == b.last());
        if b.len() == 1 {
            assert(a + b.drop_last() =~= a);
        } else {
            joined_in_parts(a, b.drop_last(), separator);
            assert(joined(all, separator) =~= joined(a, separator) + separator + joined(
                b,
                separator,
            ));
        }
    }
}

/// Of the runtime file, the program of the core, the two ports and the two requests, the good
/// ones are those that were found, listen or were answered; the others fail, but for a core
/// that is left to the search path.
pub proof fn remarks_by_outcome(
    cfg: AppConfig,
    components: usize,
    good: bool,
    answer: Result<String, String>,
)
    ensures
        remarks_on(cfg, Observation::Runtime(good)) == seq![
            Remark {
                level: if good { Level::Good } else { Level::Fail },
                label: "runtime"@,
                detail: if good { "exists"@ } else { "missing; run `clash-cli update` first"@ },
            },
        ],
        remarks_on(cfg, Observation::Binary(components, good)) == seq![
            Remark {
                level: if components <= 1 {
                    Level::Info
                } else if good {
                    Level::Good
                } else {
                    Level::Fail
                },
                label: "mihomo binary"@,
                detail: if components <= 1 {
                    "using PATH command `"@ + cfg.mihomo.bin@ + "`"@
                } else if good {
                    cfg.mihomo.bin@
                } else {
                    "not found: "@ + cfg.mihomo.bin@
                },
            },
        ],
        ({
            let address = cfg.controller.host@ + ":"@ + number::decimal(cfg.controller.port as nat);
            remarks_on(cfg, Observation::ControllerPort(good)) == seq![
                Remark {
                    level: if good { Level::Good } else { Level::Fail },
                    label: "controller tcp"@,
                    detail: if good { address } else { address + " is not listening"@ },
                },
            ]
        }),
        ({
            let address = "127.0.0.1:"@ + number::decimal(cfg.mihomo.mixed_port as nat);
            remarks_on(cfg, Observation::MixedPort(good)) == seq![
                Remark {
                    level: if good { Level::Good } else { Level::Fail },
                    label: "mixed proxy tcp"@,
                    detail: if good { address } else { address + " is not listening"@ },
                },
            ]
        }),
        ({
            let level = if answer is Ok { Level::Good } else { Level::Fail };
            let detail = if answer is Ok { answer->Ok_0@ } else { answer->Err_0@ };
            let off = Remark { level: Level::Info, label: "tun"@, detail: "disabled in config"@ };
            &&& remarks_on(cfg, Observation::Direct(answer)) == seq![
                Remark { level, label: "direct request"@, detail },
            ]
            &&& remarks_on(cfg, Observation::Proxied(answer)) == seq![
                Remark { level, label: "proxy request"@, detail },
            ] + if cfg.tun.enable { Seq::<Remark>::empty() } else { seq![off] }
        }),
{
}

/// The controller is well exactly where it lists the selector group, and it is then told
/// which proxy the group is on and how many it has.
pub proof fn remarks_on_the_controller(cfg: AppConfig, response: ProxiesResponse, message: String)
    ensures
        ({
            let found = selector::info_at(response.proxies@, cfg.proxy.selector@);
            let said = remarks_on(cfg, Observation::ControllerApi(Ok(response)));
            &&& said.len() == 1
            &&& said[0].label == "controller api"@
            &&& found is Some ==> said[0].level == Level::Good && said[0].detail
                == cfg.proxy.selector@ + " now="@ + (match found->0.now {
                Some(now) => now@,
                None => "<none>"@,
            }) + " candidates="@ + number::decimal(found->0.all@.len())
            &&& found is None ==> said[0].level == Level::Fail && said[0].detail == "selector `"@
                + cfg.proxy.selector@ + "` not found"@
        }),
        remarks_on(cfg, Observation::ControllerApi(Err(message))) == seq![
            Remark { level: Level::Fail, label: "controller api"@, detail: message@ },
        ],
{
}

/// The TUN device is there exactly where its address stands in the output of `ifconfig`, and
/// its absence is a failure.
pub proof fn remarks_on_the_device(cfg: AppConfig, output: Option<Vec<u8>>)
    ensures
        ({
            let shown = encoding::output_text(config::optional_bytes(output));
            let there = shown is Some && text::contains_text(shown->0, "198.18.0.1"@);
            let said = remarks_on(cfg, Observation::TunRoute(output));
            &&& said.len() == 1
            &&& said[0].label == "tun route hint"@
            &&& said[0].level == Level::Good <==> there
            &&& said[0].level == Level::Fail <==> !there
            &&& there ==> said[0].detail == "198.18.0.1 route/interface found"@
            &&& !there ==> said[0].detail
                == "TUN is enabled in config, but 198.18.0.1 was not found"@
        }),
{
}

/// The system's proxy is warned of exactly where it is on and its port is not that of the
/// core; else it is only described, and where none is shown nothing is said.
pub proof fn remarks_on_the_system(cfg: AppConfig, output: Option<Vec<u8>>)
    ensures
        ({
            let proxy = shown_proxy(encoding::output_text(config::optional_bytes(output)));
            let said = remarks_on(cfg, Observation::SystemProxy(output));
            let server = match proxy->0.server {
                Some(server) => server,
                None => Seq::<char>::empty(),
            };
            let port = match proxy->0.port {
                Some(port) => number::decimal(port as nat),
                None => Seq::<char>::empty(),
            };
            let apart = proxy->0.enabled && !(proxy->0.port is Some && proxy->0.port->0
                == cfg.mihomo.mixed_port);
            &&& proxy is None ==> said.len() == 0
            &&& proxy is Some ==> {
                &&& said.len() == 1
                &&& said[0].label == "system proxy hint"@
                &&& said[0].level == Level::Warn <==> apart
                &&& said[0].level == Level::Info <==> !apart
                &&& apart ==> said[0].detail == "Wi-Fi HTTP proxy points to "@ + server + ":"@
                    + port + ", but clash-cli mixed-port is "@ + number::decimal(
                    cfg.mihomo.mixed_port as nat,
                )
                &&& !apart ==> said[0].detail == "Wi-Fi HTTP enabled="@ + (if proxy->0.enabled {
                    "Yes"@
                } else {
                    "No"@
                }) + " server="@ + server + " port="@ + port
            }
        }),
{
}

/// The processes are reported in one line exactly where there are any.
pub proof fn remarks_on_the_processes(cfg: AppConfig, output: Option<Vec<u8>>)
    ensures
        ({
            let processes = shown_processes(encoding::output_text(config::optional_bytes(output)));
            let said = remarks_on(cfg, Observation::Processes(output));
            if processes is Some && processes->0.len() > 0 {
                &&& said.len() == 1
                &&& said[0].level == Level::Info
                &&& said[0].label == "related processes"@
                &&& said[0].detail == joined(processes->0, " | "@)
            } else {
                said.len() == 0
            }
        }),
{
}

/// The marks of the levels are as long as each other and differ.
pub proof fn marks_line_up(a: Level, b: Level)
    ensures
        a.mark().len() == b.mark().len(),
        a.mark() == b.mark() <==> a == b,
{
    reveal_strlit("[OK]   ");
    reveal_strlit("[FAIL] ");
    reveal_strlit("[WARN] ");
    reveal_strlit("[INFO] ");
    assert(a.mark()[1] == b.mark()[1] ==> a == b);
}

/// A diagnosis goes from each probe to the next one, from the runtime file to the processes.
pub proof fn probes_in_their_order(cfg: AppConfig, seen: Observation)
    ensures
        match probe_of(seen) {
            Probe::Runtime => next_probe(cfg, seen) == Some(Probe::Binary),
            Probe::Binary => next_probe(cfg, seen) == Some(Probe::ControllerPort),
            Probe::ControllerPort => next_probe(cfg, seen) == Some(Probe::MixedPort),
            Probe::MixedPort => next_probe(cfg, seen) == Some(Probe::ControllerApi),
            Probe::ControllerApi => next_probe(cfg, seen) == Some(Probe::Direct),
            Probe::Direct => next_probe(cfg, seen) == Some(Probe::Proxied),
            Probe::Proxied => next_probe(cfg, seen) == Some(
                if cfg.tun.enable { Probe::TunRoute } else { Probe::SystemProxy },
            ),
            Probe::TunRoute => next_probe(cfg, seen) == Some(Probe::SystemProxy),
            Probe::SystemProxy => next_probe(cfg, seen) == Some(Probe::Processes),
            Probe::Processes => next_probe(cfg, seen) is None,
        },
{
}

/// The configuration is well exactly where nothing was wrong with it.
pub proof fn remarks_on_the_configuration(error: Option<&str>, finding: Finding)
    requires
        call_ensures(config_finding, (error,), finding),
    ensures
        finding.level == Level::Good <==> error is None,
        finding.level == Level::Fail <==> error is Some,
        finding.label@ == "config"@,
        error is None ==> finding.detail@ == "loaded"@,
        error is Some ==> finding.detail@ == error->0@,
{
    assert(finding@.level == finding.level);
    assert(finding@.label == finding.label@);
    assert(finding@.detail == finding.detail@);
}

} // verus!
