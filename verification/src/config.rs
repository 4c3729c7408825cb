//! The configuration of the program and the ways in which a command line changes it.

use crate::encoding::{self, read_output};
use crate::number::{self, decimal_text, parse_number};
use crate::text::{self, copy_texts, to_chars, trim};
use crate::yaml::Yaml;
use vstd::prelude::*;

verus! {

// ---------------------------------------------------------------------------
// Settings
// ---------------------------------------------------------------------------

#[derive(Debug, PartialEq, Eq)]
pub struct AppConfig {
    pub subscriptions: Vec<Subscription>,
    pub mihomo: MihomoConfig,
    pub controller: ControllerConfig,
    pub proxy: ProxyConfig,
    pub tun: TunConfig,
    pub dns: DnsConfig,
    pub rules: Vec<String>,
    pub rule_providers: Vec<(Yaml, Yaml)>,
}

#[derive(Debug, PartialEq, Eq)]
pub struct Subscription {
    pub name: String,
    pub url: String,
    pub user_agent: Option<String>,
    pub includes: Vec<String>,
    pub excludes: Vec<String>,
}

#[derive(Debug, PartialEq, Eq)]
pub struct MihomoConfig {
    pub bin: String,
    pub mixed_port: u16,
    pub allow_lan: bool,
    pub mode: String,
    pub log_level: String,
}

#[derive(Debug, PartialEq, Eq)]
pub struct ControllerConfig {
    pub host: String,
    pub port: u16,
    pub secret: String,
}

#[derive(Debug, PartialEq, Eq)]
pub struct ProxyConfig {
    pub selector: String,
    pub auto_group: String,
    pub test_url: String,
    pub timeout_ms: u64,
    pub interval_secs: u64,
    pub health_check_secs: u64,
}

#[derive(Debug, PartialEq, Eq)]
pub struct TunConfig {
    pub enable: bool,
    pub stack: String,
    pub auto_route: bool,
    pub auto_detect_interface: bool,
    pub dns_hijack: Vec<String>,
}

#[derive(Debug, PartialEq, Eq)]
pub struct DnsConfig {
    pub enable: bool,
    pub listen: String,
    pub enhanced_mode: String,
    pub fake_ip_range: String,
    pub nameserver: Vec<String>,
    pub fallback: Vec<String>,
}

// ---------------------------------------------------------------------------
// Defaults
// ---------------------------------------------------------------------------

impl MihomoConfig {
    pub open spec fn is_default(self) -> bool {
        &&& self.bin@ == "mihomo"@
        &&& self.mixed_port == 7890
        &&& !self.allow_lan
        &&& self.mode@ == "rule"@
        &&& self.log_level@ == "info"@
    }
}

impl ControllerConfig {
    pub open spec fn is_default(self) -> bool {
        &&& self.host@ == "127.0.0.1"@
        &&& self.port == 9090
        &&& self.secret@ == Seq::<char>::empty()
    }
}

impl ProxyConfig {
    pub open spec fn is_default(self) -> bool {
        &&& self.selector@ == "PROXY"@
        &&& self.auto_group@ == "AUTO"@
        &&& self.test_url@ == "http://cp.cloudflare.com/generate_204"@
        &&& self.timeout_ms == 5000
        &&& self.interval_secs == 300
        &&& self.health_check_secs == 300
    }
}

impl TunConfig {
    pub open spec fn is_default(self) -> bool {
        &&& !self.enable
        &&& self.stack@ == "system"@
        &&& self.auto_route
        &&& self.auto_detect_interface
        &&& text::texts(self.dns_hijack@) == seq!["any:53"@]
    }
}

impl DnsConfig {
    pub open spec fn is_default(self) -> bool {
        &&& self.enable
        &&& self.listen@ == "0.0.0.0:53"@
        &&& self.enhanced_mode@ == "fake-ip"@
        &&& self.fake_ip_range@ == "198.18.0.1/16"@
        &&& text::texts(self.nameserver@) == seq!["223.5.5.5"@, "119.29.29.29"@]
        &&& text::texts(self.fallback@) == seq![
            "https://1.1.1.1/dns-query"@,
            "https://dns.google/dns-query"@,
        ]
    }
}

impl AppConfig {
    pub open spec fn is_default(self) -> bool {
        &&& self.subscriptions@.len() == 0
        &&& self.mihomo.is_default()
        &&& self.controller.is_default()
        &&& self.proxy.is_default()
        &&& self.tun.is_default()
        &&& self.dns.is_default()
        &&& text::texts(self.rules@) == seq!["MATCH,PROXY"@]
        &&& self.rule_providers@.len() == 0
    }
}

/// The address that the DNS server listens on where the configuration names none.
pub fn default_dns_listen() -> (address: String)
    ensures
        address@ == "0.0.0.0:53"@,
{
    "0.0.0.0:53".to_string()
}

impl Default for Subscription {
    fn default() -> (made: Self)
        ensures
            made.name@ == "default"@,
            made.url@ == Seq::<char>::empty(),
            made.user_agent is None,
            made.includes@.len() == 0,
            made.excludes@.len() == 0,
    {
        Subscription {
            name: "default".to_string(),
            url: String::new(),
            user_agent: None,
            includes: Vec::new(),
            excludes: Vec::new(),
        }
    }
}

impl Default for MihomoConfig {
    fn default() -> (made: Self)
        ensures
            made.is_default(),
    {
        MihomoConfig {
            bin: "mihomo".to_string(),
            mixed_port: 7890,
            allow_lan: false,
            mode: "rule".to_string(),
            log_level: "info".to_string(),
        }
    }
}

impl Default for ControllerConfig {
    fn default() -> (made: Self)
        ensures
            made.is_default(),
    {
        ControllerConfig { host: "127.0.0.1".to_string(), port: 9090, secret: String::new() }
    }
}

impl Default for ProxyConfig {
    fn default() -> (made: Self)
        ensures
            made.is_default(),
    {
        ProxyConfig {
            selector: "PROXY".to_string(),
            auto_group: "AUTO".to_string(),
            test_url: "http://cp.cloudflare.com/generate_204".to_string(),
            timeout_ms: 5000,
            interval_secs: 300,
            health_check_secs: 300,
        }
    }
}

impl Default for TunConfig {
    fn default() -> (made: Self)
        ensures
            made.is_default(),
    {
        let mut dns_hijack: Vec<String> = Vec::new();
        dns_hijack.push("any:53".to_string());
        assert(text::texts(dns_hijack@) =~= seq!["any:53"@]);
        TunConfig {
            enable: false,
            stack: "system".to_string(),
            auto_route: true,
            auto_detect_interface: true,
            dns_hijack,
        }
    }
}

impl Default for DnsConfig {
    fn default() -> (made: Self)
        ensures
            made.is_default(),
    {
        let mut nameserver: Vec<String> = Vec::new();
        nameserver.push("223.5.5.5".to_string());
        nameserver.push("119.29.29.29".to_string());
        assert(text::texts(nameserver@) =~= seq!["223.5.5.5"@, "119.29.29.29"@]);
        let mut fallback: Vec<String> = Vec::new();
        fallback.push("https://1.1.1.1/dns-query".to_string());
        fallback.push("https://dns.google/dns-query".to_string());
        assert(text::texts(fallback@) =~= seq![
            "https://1.1.1.1/dns-query"@,
            "https://dns.google/dns-query"@,
        ]);
        DnsConfig {
            enable: true,
            listen: default_dns_listen(),
            enhanced_mode: "fake-ip".to_string(),
            fake_ip_range: "198.18.0.1/16".to_string(),
            nameserver,
            fallback,
        }
    }
}

impl Default for AppConfig {
    fn default() -> (made: Self)
        ensures
            made.is_default(),
    {
        let mut rules: Vec<String> = Vec::new();
        rules.push("MATCH,PROXY".to_string());
        assert(text::texts(rules@) =~= seq!["MATCH,PROXY"@]);
        AppConfig {
            subscriptions: Vec::new(),
            mihomo: MihomoConfig::default(),
            controller: ControllerConfig::default(),
            proxy: ProxyConfig::default(),
            tun: TunConfig::default(),
            dns: DnsConfig::default(),
            rules,
            rule_providers: Vec::new(),
        }
    }
}

// ---------------------------------------------------------------------------
// Refusals
// ---------------------------------------------------------------------------

/// Why a command cannot work with the configuration.
#[derive(Debug, PartialEq, Eq)]
pub enum ConfigError {
    /// A configuration file of that path is there already.
    Exists(String),
    /// The configuration file of that path names no subscription.
    NoSubscriptions(String),
    /// TUN mode is on and the program, of that path, runs without administrator privileges.
    NeedsElevation(String),
}

impl ConfigError {
    /// The words in which the error is reported.
    pub open spec fn words(self) -> Seq<char> {
        match self {
            ConfigError::Exists(path) => "config already exists: "@ + path@
                + ". Pass --force to overwrite."@,
            ConfigError::NoSubscriptions(path) => "no subscriptions configured in "@ + path@,
            ConfigError::NeedsElevation(program) =>
                "TUN mode usually requires administrator privileges. Try: sudo "@ + program@
                    + " --tun"@,
        }
    }

    pub fn message(&self) -> (message: String)
        ensures
            message@ == self.words(),
    {
        match self {
            ConfigError::Exists(path) => {
                let mut message = "config already exists: ".to_string();
                message.append(path.as_str());
                message.append(". Pass --force to overwrite.");
                message
            },
            ConfigError::NoSubscriptions(path) => {
                let mut message = "no subscriptions configured in ".to_string();
                message.append(path.as_str());
                message
            },
            ConfigError::NeedsElevation(program) => {
                let mut message =
                    "TUN mode usually requires administrator privileges. Try: sudo ".to_string();
                message.append(program.as_str());
                message.append(" --tun");
                message
            },
        }
    }
}

// ---------------------------------------------------------------------------
// Setting up
// ---------------------------------------------------------------------------

/// Whether a list of subscriptions is the one made of some URLs: one for each, in their
/// order, numbered from one, downloaded as `clash-cli/0.1` and not filtered.
pub open spec fn numbered(subscriptions: Seq<Subscription>, urls: Seq<Seq<char>>) -> bool {
    &&& subscriptions.len() == urls.len()
    &&& forall|i: int|
        0 <= i < urls.len() ==> {
            let subscription = #[trigger] subscriptions[i];
            &&& subscription.name@ == "sub-"@ + number::decimal((i + 1) as nat)
            &&& subscription.url@ == urls[i]
            &&& subscription.user_agent is Some
            &&& subscription.user_agent->0@ == "clash-cli/0.1"@
            &&& subscription.includes@.len() == 0
            &&& subscription.excludes@.len() == 0
        }
}

/// The subscriptions of the given URLs.
pub fn number_subscriptions(urls: &Vec<String>) -> (made: Vec<Subscription>)
    ensures
        numbered(made@, text::texts(urls@)),
{
    let mut made: Vec<Subscription> = Vec::new();
    for i in 0..urls.len()
        invariant
            made@.len() == i,
            numbered(made@, text::texts(urls@).take(i as int)),
    {
        let mut name = "sub-".to_string();
        let position: String = decimal_text((i + 1) as u64);
        name.append(position.as_str());
        made.push(
            Subscription {
                name,
                url: urls[i].clone(),
                user_agent: Some("clash-cli/0.1".to_string()),
                includes: Vec::new(),
                excludes: Vec::new(),
            },
        );
    }
    assert(text::texts(urls@).take(urls@.len() as int) =~= text::texts(urls@));
    made
}

/// Whether a configuration is the one that `init` writes.
pub open spec fn initial(made: AppConfig, urls: Seq<Seq<char>>, mihomo_bin: Option<Seq<char>>) -> bool {
    &&& numbered(made.subscriptions@, urls)
    &&& match mihomo_bin {
        Some(bin) => made.mihomo.bin@ == bin,
        None => made.mihomo.bin@ == "mihomo"@,
    }
    &&& made.mihomo.mixed_port == 7890
    &&& !made.mihomo.allow_lan
    &&& made.mihomo.mode@ == "rule"@
    &&& made.mihomo.log_level@ == "info"@
    &&& made.controller.is_default()
    &&& made.proxy.is_default()
    &&& made.tun.is_default()
    &&& made.dns.is_default()
    &&& text::texts(made.rules@) == seq!["MATCH,PROXY"@]
    &&& made.rule_providers@.len() == 0
}

/// The text of an optional string.
pub open spec fn optional_text(text: Option<String>) -> Option<Seq<char>> {
    match text {
        Some(t) => Some(t@),
        None => None,
    }
}

/// The configuration that `init` writes to `path`. An existing file is only replaced by
/// force.
pub fn init_config(
    path: &str,
    present: bool,
    urls: &Vec<String>,
    mihomo_bin: Option<String>,
    force: bool,
) -> (made: Result<AppConfig, ConfigError>)
    ensures
        match made {
            Ok(config) => (!present || force) && initial(
                config,
                text::texts(urls@),
                optional_text(mihomo_bin),
            ),
            Err(ConfigError::Exists(at)) => present && !force && at@ == path@,
            Err(_) => false,
        },
{
    if present && !force {
        return Err(ConfigError::Exists(path.to_string()));
    }
    let mut config = AppConfig::default();
    config.subscriptions = number_subscriptions(urls);
    if let Some(bin) = mihomo_bin {
        config.mihomo.bin = bin;
    }
    Ok(config)
}

/// What the command line says, apart from the subcommand and the configuration file.
#[derive(Debug, PartialEq, Eq)]
pub struct Cli {
    pub quick_subscription: Option<String>,
    pub subscriptions: Vec<String>,
    pub mihomo_bin: Option<String>,
    pub tun: bool,
    pub no_core: bool,
}

/// Changes of the configuration that the command line asks for.
#[derive(Debug, PartialEq, Eq)]
pub struct QuickSetup {
    pub subscriptions: Vec<String>,
    pub mihomo_bin: Option<String>,
    pub tun: bool,
}

impl QuickSetup {
    /// Whether the command line asks for any change.
    pub open spec fn changes(self) -> bool {
        self.subscriptions@.len() > 0 || self.mihomo_bin is Some || self.tun
    }

    /// The changes that a command line asks for: the URL that stands alone comes before
    /// those of `--subscribe`.
    pub fn from_cli(cli: &Cli) -> (setup: Self)
        ensures
            text::texts(setup.subscriptions@) == (match cli.quick_subscription {
                Some(url) => seq![url@],
                None => Seq::empty(),
            }) + text::texts(cli.subscriptions@),
            optional_text(setup.mihomo_bin) == optional_text(cli.mihomo_bin),
            setup.tun == cli.tun,
    {
        let mut subscriptions: Vec<String> = Vec::new();
        if let Some(url) = &cli.quick_subscription {
            subscriptions.push(url.clone());
        }
        let ghost first = text::texts(subscriptions@);
        let mut others: Vec<String> = copy_texts(&cli.subscriptions);
        subscriptions.append(&mut others);
        assert(text::texts(subscriptions@) =~= first + text::texts(cli.subscriptions@));
        assert(first =~= (match cli.quick_subscription {
            Some(url) => seq![url@],
            None => Seq::empty(),
        }));
        let mihomo_bin: Option<String> = match &cli.mihomo_bin {
            Some(bin) => Some(bin.clone()),
            None => None,
        };
        QuickSetup { subscriptions, mihomo_bin, tun: cli.tun }
    }

    pub fn has_changes(&self) -> (any: bool)
        ensures
            any == self.changes(),
    {
        !self.subscriptions.is_empty() || self.mihomo_bin.is_some() || self.tun
    }
}

/// Whether `changed` is `base` with the changes of `setup` and no others.
pub open spec fn applied(base: AppConfig, setup: QuickSetup, changed: AppConfig) -> bool {
    &&& if setup.subscriptions@.len() == 0 {
        changed.subscriptions == base.subscriptions
    } else {
        numbered(changed.subscriptions@, text::texts(setup.subscriptions@))
    }
    &&& changed.mihomo.bin@ == (match setup.mihomo_bin {
        Some(bin) => bin@,
        None => base.mihomo.bin@,
    })
    &&& changed.mihomo.mixed_port == base.mihomo.mixed_port
    &&& changed.mihomo.allow_lan == base.mihomo.allow_lan
    &&& changed.mihomo.mode == base.mihomo.mode
    &&& changed.mihomo.log_level == base.mihomo.log_level
    &&& changed.tun.enable == (base.tun.enable || setup.tun)
    &&& changed.tun.stack == base.tun.stack
    &&& changed.tun.auto_route == base.tun.auto_route
    &&& changed.tun.auto_detect_interface == base.tun.auto_detect_interface
    &&& changed.tun.dns_hijack == base.tun.dns_hijack
    &&& changed.controller == base.controller
    &&& changed.proxy == base.proxy
    &&& changed.dns == base.dns
    &&& changed.rules == base.rules
    &&& changed.rule_providers == base.rule_providers
}

/// Changes a configuration, or the default one where there is none yet, as the command
/// line asks for.
pub fn apply_quick_setup(existing: Option<AppConfig>, setup: &QuickSetup) -> (changed: AppConfig)
    ensures
        match existing {
            Some(base) => applied(base, *setup, changed),
            None => exists|base: AppConfig| #[trigger] base.is_default() && applied(base, *setup, changed),
        },
{
    let mut config: AppConfig = match existing {
        Some(config) => config,
        None => AppConfig::default(),
    };
    let ghost base = config;
    if !setup.subscriptions.is_empty() {
        config.subscriptions = number_subscriptions(&setup.subscriptions);
    }
    if let Some(bin) = &setup.mihomo_bin {
        config.mihomo.bin = bin.clone();
    }
    if setup.tun {
        config.tun.enable = true;
    }
    assert(applied(base, *setup, config));
    config
}

/// Passes on a configuration that was read from `path`, if it names a subscription.
pub fn load_config(path: &str, config: AppConfig) -> (loaded: Result<AppConfig, ConfigError>)
    ensures
        match loaded {
            Ok(same) => config.subscriptions@.len() > 0 && same == config,
            Err(ConfigError::NoSubscriptions(at)) => config.subscriptions@.len() == 0 && at@
                == path@,
            Err(_) => false,
        },
{
    if config.subscriptions.is_empty() {
        Err(ConfigError::NoSubscriptions(path.to_string()))
    } else {
        Ok(config)
    }
}

// ---------------------------------------------------------------------------
// Privileges
// ---------------------------------------------------------------------------

/// Whether the output of `id -u` is the number of the administrator.
pub open spec fn administrator(output: Option<Seq<char>>) -> bool {
    match output {
        Some(uid) => number::parsed_number(text::trimmed(uid), u32::MAX as nat) == Ok::<
            nat,
            number::NumberError,
        >(0),
        None => false,
    }
}

/// The bytes of an optional output.
pub open spec fn optional_bytes(output: Option<Vec<u8>>) -> Option<Seq<u8>> {
    match output {
        Some(bytes) => Some(bytes@),
        None => None,
    }
}

/// Whether the program runs as the administrator, by the output of `id -u`.
pub fn is_elevated(output: Option<Vec<u8>>) -> (elevated: bool)
    ensures
        elevated == administrator(encoding::output_text(optional_bytes(output))),
{
    match read_output(output) {
        Some(uid) => {
            let chars: Vec<char> = to_chars(uid.as_str());
            match parse_number(trim(chars.as_slice()), u32::MAX) {
                Ok(n) => n == 0,
                Err(_) => false,
            }
        },
        None => false,
    }
}

/// Refuses to start the core in TUN mode without administrator privileges. The refusal
/// names the program, or `clash-cli` where its path is not known.
pub fn ensure_can_start_core(
    config: &AppConfig,
    elevated: bool,
    program: Option<String>,
) -> (allowed: Result<(), ConfigError>)
    ensures
        match allowed {
            Ok(_) => !config.tun.enable || elevated,
            Err(ConfigError::NeedsElevation(name)) => config.tun.enable && !elevated && name@ == (
            match program {
                Some(path) => path@,
                None => "clash-cli"@,
            }),
            Err(_) => false,
        },
{
    if config.tun.enable && !elevated {
        let name: String = match program {
            Some(path) => path,
            None => "clash-cli".to_string(),
        };
        return Err(ConfigError::NeedsElevation(name));
    }
    Ok(())
}

// ---------------------------------------------------------------------------
// What holds of every change
// ---------------------------------------------------------------------------

/// Whether two subscriptions say the same.
pub open spec fn same_subscription(a: Subscription, b: Subscription) -> bool {
    &&& a.name@ == b.name@
    &&& a.url@ == b.url@
    &&& optional_text(a.user_agent) == optional_text(b.user_agent)
    &&& text::texts(a.includes@) == text::texts(b.includes@)
    &&& text::texts(a.excludes@) == text::texts(b.excludes@)
}

/// Whether two configurations say the same.
pub open spec fn same_config(a: AppConfig, b: AppConfig) -> bool {
    &&& a.subscriptions@.len() == b.subscriptions@.len()
    &&& forall|i: int|
        0 <= i < a.subscriptions@.len() ==> same_subscription(
            #[trigger] a.subscriptions@[i],
            b.subscriptions@[i],
        )
    &&& a.mihomo.bin@ == b.mihomo.bin@
    &&& a.mihomo.mixed_port == b.mihomo.mixed_port
    &&& a.mihomo.allow_lan == b.mihomo.allow_lan
    &&& a.mihomo.mode@ == b.mihomo.mode@
    &&& a.mihomo.log_level@ == b.mihomo.log_level@
    &&& a.controller == b.controller
    &&& a.proxy == b.proxy
    &&& a.tun.enable == b.tun.enable
    &&& a.tun.stack@ == b.tun.stack@
    &&& a.tun.auto_route == b.tun.auto_route
    &&& a.tun.auto_detect_interface == b.tun.auto_detect_interface
    &&& text::texts(a.tun.dns_hijack@) == text::texts(b.tun.dns_hijack@)
    &&& a.dns == b.dns
    &&& text::texts(a.rules@) == text::texts(b.rules@)
    &&& a.rule_providers == b.rule_providers
}

/// To apply the changes of a command line a second time changes nothing more.
pub proof fn quick_setup_idempotent(
    base: AppConfig,
    setup: QuickSetup,
    once: AppConfig,
    twice: AppConfig,
)
    requires
        applied(base, setup, once),
        applied(once, setup, twice),
    ensures
        applied(base, setup, twice),
        same_config(twice, once),
{
    assert forall|i: int| 0 <= i < twice.subscriptions@.len() implies same_subscription(
        #[trigger] twice.subscriptions@[i],
        once.subscriptions@[i],
    ) by {
        let a = twice.subscriptions@[i];
        let b = once.subscriptions@[i];
        assert(text::texts(a.includes@) =~= text::texts(b.includes@));
        assert(text::texts(a.excludes@) =~= text::texts(b.excludes@));
    }
}

/// A command line that asks for no change leaves a configuration as it is.
pub proof fn no_changes_keep(base: AppConfig, setup: QuickSetup, changed: AppConfig)
    requires
        !setup.changes(),
        applied(base, setup, changed),
    ensures
        same_config(changed, base),
{
}

/// A configuration that was changed by a command line with a URL, or that `init` made of a
/// URL, names a subscription and so can be loaded.
pub proof fn set_up_with_url_loads(
    base: AppConfig,
    setup: QuickSetup,
    changed: AppConfig,
    urls: Seq<Seq<char>>,
    mihomo_bin: Option<Seq<char>>,
    made: AppConfig,
)
    ensures
        setup.subscriptions@.len() > 0 && applied(base, setup, changed)
            ==> changed.subscriptions@.len() > 0,
        urls.len() > 0 && initial(made, urls, mihomo_bin) ==> made.subscriptions@.len() > 0,
{
}

/// Numbered subscriptions have different names.
pub proof fn numbered_names_differ(
    subscriptions: Seq<Subscription>,
    urls: Seq<Seq<char>>,
    i: int,
    j: int,
)
    requires
        numbered(subscriptions, urls),
        0 <= i < j < subscriptions.len(),
    ensures
        subscriptions[i].name@ != subscriptions[j].name@,
{
    let a = number::decimal((i + 1) as nat);
    let b = number::decimal((j + 1) as nat);
    number::decimal_read_back((i + 1) as nat, (j + 1) as nat);
    number::decimal_read_back((j + 1) as nat, (j + 1) as nat);
    if subscriptions[i].name@ == subscriptions[j].name@ {
        let prefix = "sub-"@.len() as int;
        assert((("sub-"@) + a).skip(prefix) =~= a);
        assert((("sub-"@) + b).skip(prefix) =~= b);
    }
}

/// A command line gives exactly the subscriptions that it names, one for each URL in their
/// order, numbered from one and unfiltered, and keeps those that are there where it names
/// none.
pub proof fn quick_setup_subscriptions(
    base: AppConfig,
    setup: QuickSetup,
    changed: AppConfig,
    i: int,
)
    requires
        applied(base, setup, changed),
    ensures
        setup.subscriptions@.len() == 0 ==> changed.subscriptions@ == base.subscriptions@,
        setup.subscriptions@.len() > 0 ==> changed.subscriptions@.len()
            == setup.subscriptions@.len(),
        0 <= i < setup.subscriptions@.len() ==> {
            let made = changed.subscriptions@[i];
            &&& made.url@ == setup.subscriptions@[i]@
            &&& made.name@ == "sub-"@ + number::decimal((i + 1) as nat)
            &&& made.user_agent is Some && made.user_agent->0@ == "clash-cli/0.1"@
            &&& made.includes@.len() == 0
            &&& made.excludes@.len() == 0
        },
{
    if 0 <= i < setup.subscriptions@.len() {
        assert(text::texts(setup.subscriptions@)[i] == setup.subscriptions@[i]@);
    }
}

/// A command line can turn TUN mode on and never off, and names the core where it says so.
/// Nothing else changes.
pub proof fn quick_setup_settings(base: AppConfig, setup: QuickSetup, changed: AppConfig)
    requires
        applied(base, setup, changed),
    ensures
        changed.tun.enable <==> base.tun.enable || setup.tun,
        setup.mihomo_bin is Some ==> changed.mihomo.bin@ == setup.mihomo_bin->0@,
        setup.mihomo_bin is None ==> changed.mihomo.bin@ == base.mihomo.bin@,
        changed.mihomo.mixed_port == base.mihomo.mixed_port,
        changed.mihomo.allow_lan == base.mihomo.allow_lan,
        changed.mihomo.mode@ == base.mihomo.mode@,
        changed.mihomo.log_level@ == base.mihomo.log_level@,
        changed.tun.stack@ == base.tun.stack@,
        changed.tun.auto_route == base.tun.auto_route,
        changed.tun.auto_detect_interface == base.tun.auto_detect_interface,
        text::texts(changed.tun.dns_hijack@) == text::texts(base.tun.dns_hijack@),
        changed.controller == base.controller,
        changed.proxy == base.proxy,
        changed.dns == base.dns,
        changed.rules == base.rules,
        changed.rule_providers == base.rule_providers,
{
}

/// A command line asks for a change exactly where it names a subscription or a core or asks
/// for TUN mode.
pub proof fn quick_setup_changes(setup: QuickSetup)
    ensures
        !setup.changes() <==> setup.subscriptions@.len() == 0 && setup.mihomo_bin is None
            && !setup.tun,
{
}

/// `init` makes the default configuration with the subscriptions of its URLs and with the
/// core that it is given, and nothing else in it differs.
pub proof fn init_keeps_the_defaults(
    made: AppConfig,
    urls: Seq<Seq<char>>,
    mihomo_bin: Option<Seq<char>>,
    i: int,
)
    requires
        initial(made, urls, mihomo_bin),
    ensures
        mihomo_bin is Some ==> made.mihomo.bin@ == mihomo_bin->0,
        mihomo_bin is None ==> made.mihomo.is_default(),
        made.subscriptions@.len() == urls.len(),
        0 <= i < urls.len() ==> {
            let subscription = made.subscriptions@[i];
            &&& subscription.url@ == urls[i]
            &&& subscription.name@ == "sub-"@ + number::decimal((i + 1) as nat)
            &&& subscription.user_agent is Some
            &&& subscription.user_agent->0@ == "clash-cli/0.1"@
            &&& subscription.includes@.len() == 0
            &&& subscription.excludes@.len() == 0
        },
        made.mihomo.mixed_port == 7890,
        !made.mihomo.allow_lan,
        made.mihomo.mode@ == "rule"@,
        made.mihomo.log_level@ == "info"@,
        made.controller.is_default(),
        made.proxy.is_default(),
        made.tun.is_default(),
        made.dns.is_default(),
        text::texts(made.rules@) == seq!["MATCH,PROXY"@],
        made.rule_providers@.len() == 0,
        urls.len() == 0 && mihomo_bin is None ==> made.is_default(),
{
}

/// The default configuration: a mixed port on this machine alone, a controller without a
/// secret, TUN mode off and the DNS server on.
pub proof fn default_settings(made: AppConfig)
    requires
        made.is_default(),
    ensures
        made.mihomo.bin@ == "mihomo"@,
        made.mihomo.mixed_port == 7890,
        !made.mihomo.allow_lan,
        made.mihomo.mode@ == "rule"@,
        made.mihomo.log_level@ == "info"@,
        made.controller.host@ == "127.0.0.1"@,
        made.controller.port == 9090,
        made.controller.secret@.len() == 0,
        made.proxy.selector@ == "PROXY"@,
        made.proxy.auto_group@ == "AUTO"@,
        made.proxy.test_url@ == "http://cp.cloudflare.com/generate_204"@,
        made.proxy.timeout_ms == 5000,
        made.proxy.interval_secs == 300,
        made.proxy.health_check_secs == 300,
        !made.tun.enable,
        made.tun.stack@ == "system"@,
        made.tun.auto_route,
        made.tun.auto_detect_interface,
        text::texts(made.tun.dns_hijack@) == seq!["any:53"@],
        made.dns.enable,
        made.dns.listen@ == "0.0.0.0:53"@,
        made.dns.enhanced_mode@ == "fake-ip"@,
        made.dns.fake_ip_range@ == "198.18.0.1/16"@,
        text::texts(made.dns.nameserver@) == seq!["223.5.5.5"@, "119.29.29.29"@],
        text::texts(made.dns.fallback@) == seq![
            "https://1.1.1.1/dns-query"@,
            "https://dns.google/dns-query"@,
        ],
        text::texts(made.rules@) == seq!["MATCH,PROXY"@],
        made.subscriptions@.len() == 0,
        made.rule_providers@.len() == 0,
{
}

/// A number in the output of `id -u`, between white space, is the administrator's exactly
/// where its digits are worth nothing. Without an output there is no administrator.
pub proof fn administrator_is_zero(front: Seq<char>, digits: Seq<char>, back: Seq<char>)
    requires
        text::blank(front),
        text::blank(back),
        number::all_digits(digits),
        digits.len() > 0,
    ensures
        administrator(Some(front + digits + back)) <==> number::worth(digits) == 0,
        !administrator(None),
{
    text::outer_blanks_are_trimmed(front, digits, back);
    assert(!text::white_space(digits[0])) by {
        assert('0' <= digits[0] <= '9');
    }
    assert(!text::white_space(digits.last())) by {
        assert('0' <= digits[digits.len() - 1] <= '9');
    }
    number::digits_are_read(digits, u32::MAX as nat);
}

/// A refusal names the file or the program that it is about.
pub proof fn refusals_name_their_file(path: String)
    ensures
        ConfigError::Exists(path).words() == "config already exists: "@ + path@
            + ". Pass --force to overwrite."@,
        ConfigError::NoSubscriptions(path).words() == "no subscriptions configured in "@ + path@,
        ConfigError::NeedsElevation(path).words()
            == "TUN mode usually requires administrator privileges. Try: sudo "@ + path@
            + " --tun"@,
{
}

/// What is optional is there exactly where it was given, and as it was given.
pub proof fn optional_as_given(text: String, bytes: Vec<u8>)
    ensures
        optional_text(Some(text)) == Some(text@),
        optional_text(None) is None,
        optional_bytes(Some(bytes)) == Some(bytes@),
        optional_bytes(None) is None,
{
}

/// Only an output of zeros, with a plus sign before them or without one and between white
/// space, is the administrator's.
pub proof fn administrator_is_nothing_else(output: Seq<char>)
    requires
        administrator(Some(output)),
    ensures
        ({
            let uid = text::trimmed(output);
            &&& uid.len() > 0
            &&& forall|i: int|
                0 <= i < uid.len() ==> #[trigger] uid[i] == '0' || (i == 0 && uid[i] == '+')
        }),
{
    let uid = text::trimmed(output);
    if uid.len() > 1 && uid[0] == '+' {
        let digits = uid.skip(1);
        number::lemma_zero(digits, u32::MAX as nat);
        assert forall|i: int| 1 <= i < uid.len() implies #[trigger] uid[i] == '0' by {
            assert(uid[i] == digits[i - 1]);
        }
    } else {
        number::lemma_zero(uid, u32::MAX as nat);
    }
}

/// TUN mode is refused exactly where it is on and the program is not privileged.
pub proof fn only_tun_needs_privileges(
    config: &AppConfig,
    elevated: bool,
    program: Option<String>,
    allowed: Result<(), ConfigError>,
)
    requires
        call_ensures(ensure_can_start_core, (config, elevated, program), allowed),
    ensures
        allowed is Ok <==> elevated || !config.tun.enable,
{
}

/// The URL that stands alone comes first, then those of `--subscribe` in their order; the core
/// and TUN mode are taken over.
pub proof fn command_line_is_taken_over(cli: &Cli, setup: QuickSetup, i: int)
    requires
        call_ensures(QuickSetup::from_cli, (cli,), setup),
    ensures
        ({
            let alone: int = if cli.quick_subscription is Some { 1 } else { 0 };
            &&& setup.subscriptions@.len() == alone + cli.subscriptions@.len()
            &&& cli.quick_subscription is Some ==> setup.subscriptions@[0]@
                == cli.quick_subscription->0@
            &&& 0 <= i < cli.subscriptions@.len() ==> setup.subscriptions@[alone + i]@
                == cli.subscriptions@[i]@
        }),
        setup.mihomo_bin is Some <==> cli.mihomo_bin is Some,
        setup.mihomo_bin is Some ==> setup.mihomo_bin->0@ == cli.mihomo_bin->0@,
        setup.tun <==> cli.tun,
{
    let alone: int = if cli.quick_subscription is Some { 1 } else { 0 };
    let all = text::texts(setup.subscriptions@);
    assert(all.len() == setup.subscriptions@.len());
    if cli.quick_subscription is Some {
        assert(all[0] == setup.subscriptions@[0]@);
    }
    if 0 <= i < cli.subscriptions@.len() {
        assert(all[alone + i] == setup.subscriptions@[alone + i]@);
    }
}

/// `init` is refused exactly where there is a file and no force, and the refusal names it.
pub proof fn init_spares_what_is_there(
    path: &str,
    present: bool,
    urls: &Vec<String>,
    mihomo_bin: Option<String>,
    force: bool,
    made: Result<AppConfig, ConfigError>,
)
    requires
        call_ensures(init_config, (path, present, urls, mihomo_bin, force), made),
    ensures
        made is Err <==> present && !force,
        made matches Err(error) ==> error.words() == "config already exists: "@ + path@
            + ". Pass --force to overwrite."@,
        made matches Ok(config) ==> config.subscriptions@.len() == urls@.len(),
{
}

/// A configuration is loaded exactly where it names a subscription, and then as it is.
pub proof fn loading_needs_a_subscription(
    path: &str,
    config: AppConfig,
    loaded: Result<AppConfig, ConfigError>,
)
    requires
        call_ensures(load_config, (path, config), loaded),
    ensures
        loaded is Ok <==> config.subscriptions@.len() > 0,
        loaded matches Ok(same) ==> same == config,
        loaded matches Err(error) ==> error.words() == "no subscriptions configured in "@ + path@,
{
}

/// Where there is no configuration yet, a command line changes the default one.
pub proof fn quick_setup_from_nothing(base: AppConfig, setup: QuickSetup, changed: AppConfig)
    requires
        base.is_default(),
        applied(base, setup, changed),
    ensures
        changed.subscriptions@.len() == setup.subscriptions@.len(),
        changed.tun.enable <==> setup.tun,
        changed.tun.auto_route && changed.tun.auto_detect_interface,
        setup.mihomo_bin is None ==> changed.mihomo.is_default(),
        changed.controller.is_default(),
        changed.proxy.is_default(),
        changed.dns.is_default(),
{
}

} // verus!
