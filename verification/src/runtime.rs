//! The runtime configuration that mihomo is started with.

use crate::config::{AppConfig, DnsConfig, ProxyConfig, TunConfig};
use crate::emit;
use crate::error::SubscriptionError;
use crate::number::{self, decimal_text};
use crate::text;
use crate::yaml::{self, copy_entries, insert, mapping, sequence, text_value, Yaml, YamlTree};
use vstd::prelude::*;

verus! {

/// A list of texts as a YAML sequence.
pub open spec fn text_list(list: Seq<Seq<char>>) -> YamlTree {
    YamlTree::Sequence(Seq::new(list.len(), |i: int| YamlTree::Text(list[i])))
}

fn text_items(list: &[String]) -> (items: Vec<Yaml>)
    ensures
        YamlTree::Sequence(yaml::trees(items@)) == text_list(text::texts(list@)),
{
    let mut items: Vec<Yaml> = Vec::new();
    for i in 0..list.len()
        invariant
            items@.len() == i,
            forall|j: int| 0 <= j < i ==> (#[trigger] items@[j])@ == YamlTree::Text(list@[j]@),
    {
        items.push(text_value(list[i].as_str()));
    }
    assert(yaml::trees(items@) =~= text_list(text::texts(list@))->Sequence_0);
    items
}

/// The `tun` section.
pub open spec fn tun_tree(tun: TunConfig) -> YamlTree {
    YamlTree::Mapping(
        seq![
            yaml::field("enable"@, YamlTree::Bool(tun.enable)),
            yaml::field("stack"@, YamlTree::Text(tun.stack@)),
            yaml::field("auto-route"@, YamlTree::Bool(tun.auto_route)),
            yaml::field("auto-detect-interface"@, YamlTree::Bool(tun.auto_detect_interface)),
            yaml::field("dns-hijack"@, text_list(text::texts(tun.dns_hijack@))),
        ],
    )
}

proof fn lemma_tun_keys()
    ensures
        "enable"@.len() == 6 && "stack"@.len() == 5 && "auto-detect-interface"@.len() == 21,
        "auto-route"@.len() == 10 && "dns-hijack"@.len() == 10 && "auto-route"@ != "dns-hijack"@,
{
    reveal_strlit("enable");
    reveal_strlit("stack");
    reveal_strlit("auto-route");
    reveal_strlit("auto-detect-interface");
    reveal_strlit("dns-hijack");
    assert("auto-route"@[0] == 'a' && "dns-hijack"@[0] == 'd');
}

/// Makes the `tun` section.
pub fn build_tun(cfg: &AppConfig) -> (section: Yaml)
    ensures
        section@ == tun_tree(cfg.tun),
{
    proof {
        lemma_tun_keys();
    }
    let mut tun: Vec<(Yaml, Yaml)> = Vec::new();
    insert(&mut tun, "enable", Yaml::Bool(cfg.tun.enable));
    insert(&mut tun, "stack", text_value(cfg.tun.stack.as_str()));
    insert(&mut tun, "auto-route", Yaml::Bool(cfg.tun.auto_route));
    insert(&mut tun, "auto-detect-interface", Yaml::Bool(cfg.tun.auto_detect_interface));
    insert(&mut tun, "dns-hijack", sequence(text_items(cfg.tun.dns_hijack.as_slice())));
    assert(yaml::entry_trees(tun@) =~= tun_tree(cfg.tun)->Mapping_0);
    mapping(tun)
}

/// The `dns` section.
pub open spec fn dns_tree(dns: DnsConfig) -> YamlTree {
    YamlTree::Mapping(
        seq![
            yaml::field("enable"@, YamlTree::Bool(dns.enable)),
            yaml::field("listen"@, YamlTree::Text(dns.listen@)),
            yaml::field("enhanced-mode"@, YamlTree::Text(dns.enhanced_mode@)),
            yaml::field("fake-ip-range"@, YamlTree::Text(dns.fake_ip_range@)),
            yaml::field("nameserver"@, text_list(text::texts(dns.nameserver@))),
            yaml::field("fallback"@, text_list(text::texts(dns.fallback@))),
        ],
    )
}

proof fn lemma_dns_keys()
    ensures
        "enable"@.len() == 6 && "listen"@.len() == 6 && "enable"@ != "listen"@,
        "enhanced-mode"@.len() == 13 && "fake-ip-range"@.len() == 13,
        "enhanced-mode"@ != "fake-ip-range"@,
        "nameserver"@.len() == 10 && "fallback"@.len() == 8,
{
    reveal_strlit("enable");
    reveal_strlit("listen");
    reveal_strlit("enhanced-mode");
    reveal_strlit("fake-ip-range");
    reveal_strlit("nameserver");
    reveal_strlit("fallback");
    assert("enable"@[0] == 'e' && "listen"@[0] == 'l');
    assert("enhanced-mode"@[0] == 'e' && "fake-ip-range"@[0] == 'f');
}

/// Makes the `dns` section.
pub fn build_dns(cfg: &AppConfig) -> (section: Yaml)
    ensures
        section@ == dns_tree(cfg.dns),
{
    proof {
        lemma_dns_keys();
    }
    let mut dns: Vec<(Yaml, Yaml)> = Vec::new();
    insert(&mut dns, "enable", Yaml::Bool(cfg.dns.enable));
    insert(&mut dns, "listen", text_value(cfg.dns.listen.as_str()));
    insert(&mut dns, "enhanced-mode", text_value(cfg.dns.enhanced_mode.as_str()));
    insert(&mut dns, "fake-ip-range", text_value(cfg.dns.fake_ip_range.as_str()));
    insert(&mut dns, "nameserver", sequence(text_items(cfg.dns.nameserver.as_slice())));
    insert(&mut dns, "fallback", sequence(text_items(cfg.dns.fallback.as_slice())));
    assert(yaml::entry_trees(dns@) =~= dns_tree(cfg.dns)->Mapping_0);
    mapping(dns)
}

/// The group in which mihomo picks a proxy by its own measurements.
pub open spec fn auto_group_tree(proxy: ProxyConfig, names: Seq<Seq<char>>) -> YamlTree {
    YamlTree::Mapping(
        seq![
            yaml::field("name"@, YamlTree::Text(proxy.auto_group@)),
            yaml::field("type"@, YamlTree::Text("url-test"@)),
            yaml::field("url"@, YamlTree::Text(proxy.test_url@)),
            yaml::field("interval"@, YamlTree::Integer(proxy.interval_secs as int)),
            yaml::field("proxies"@, text_list(names)),
        ],
    )
}

/// The group in which a proxy is selected: the automatic group first, then every proxy.
pub open spec fn selector_tree(proxy: ProxyConfig, names: Seq<Seq<char>>) -> YamlTree {
    YamlTree::Mapping(
        seq![
            yaml::field("name"@, YamlTree::Text(proxy.selector@)),
            yaml::field("type"@, YamlTree::Text("select"@)),
            yaml::field("proxies"@, text_list(seq![proxy.auto_group@] + names)),
        ],
    )
}

/// The `proxy-groups` section.
pub open spec fn group_trees(proxy: ProxyConfig, names: Seq<Seq<char>>) -> Seq<YamlTree> {
    seq![auto_group_tree(proxy, names), selector_tree(proxy, names)]
}

proof fn lemma_group_keys()
    ensures
        "name"@.len() == 4 && "type"@.len() == 4 && "name"@ != "type"@,
        "url"@.len() == 3 && "interval"@.len() == 8 && "proxies"@.len() == 7,
{
    reveal_strlit("name");
    reveal_strlit("type");
    reveal_strlit("url");
    reveal_strlit("interval");
    reveal_strlit("proxies");
    assert("name"@[0] == 'n' && "type"@[0] == 't');
}

/// Makes the groups of the given proxies.
pub fn build_proxy_groups(cfg: &AppConfig, names: &[String]) -> (groups: Vec<Yaml>)
    ensures
        yaml::trees(groups@) == group_trees(cfg.proxy, text::texts(names@)),
{
    let ghost all = text::texts(names@);
    proof {
        lemma_group_keys();
    }
    let mut auto: Vec<(Yaml, Yaml)> = Vec::new();
    insert(&mut auto, "name", text_value(cfg.proxy.auto_group.as_str()));
    insert(&mut auto, "type", text_value("url-test"));
    insert(&mut auto, "url", text_value(cfg.proxy.test_url.as_str()));
    insert(&mut auto, "interval", Yaml::Unsigned(cfg.proxy.interval_secs));
    insert(&mut auto, "proxies", sequence(text_items(names)));
    assert(yaml::entry_trees(auto@) =~= auto_group_tree(cfg.proxy, all)->Mapping_0);

    let mut members: Vec<Yaml> = Vec::new();
    members.push(text_value(cfg.proxy.auto_group.as_str()));
    let mut others: Vec<Yaml> = text_items(names);
    let ghost other_trees = yaml::trees(others@);
    members.append(&mut others);
    assert(yaml::trees(members@) =~= seq![YamlTree::Text(cfg.proxy.auto_group@)] + other_trees);
    assert(yaml::trees(members@) =~= text_list(seq![cfg.proxy.auto_group@] + all)->Sequence_0);

    let mut selector: Vec<(Yaml, Yaml)> = Vec::new();
    insert(&mut selector, "name", text_value(cfg.proxy.selector.as_str()));
    insert(&mut selector, "type", text_value("select"));
    insert(&mut selector, "proxies", sequence(members));
    assert(yaml::entry_trees(selector@) =~= selector_tree(cfg.proxy, all)->Mapping_0);

    let mut groups: Vec<Yaml> = Vec::new();
    groups.push(mapping(auto));
    groups.push(mapping(selector));
    assert(yaml::trees(groups@) =~= group_trees(cfg.proxy, all));
    groups
}

/// The address of the controller.
pub open spec fn controller_address(cfg: AppConfig) -> Seq<char> {
    cfg.controller.host@ + ":"@ + number::decimal(cfg.controller.port as nat)
}

/// The address of the controller, as `host:port`.
pub fn controller_addr(cfg: &AppConfig) -> (address: String)
    ensures
        address@ == controller_address(*cfg),
{
    let mut address: String = cfg.controller.host.clone();
    address.append(":");
    let port: String = decimal_text(cfg.controller.port as u64);
    address.append(port.as_str());
    address
}

/// The entry for the secret of the controller, where there is one.
pub open spec fn secret_field(secret: Seq<char>) -> Seq<(YamlTree, YamlTree)> {
    if secret.len() > 0 {
        seq![yaml::field("secret"@, YamlTree::Text(secret))]
    } else {
        Seq::empty()
    }
}

/// The entry for the rule providers, where there are any.
pub open spec fn providers_field(providers: Seq<(YamlTree, YamlTree)>) -> Seq<
    (YamlTree, YamlTree),
> {
    if providers.len() > 0 {
        seq![yaml::field("rule-providers"@, YamlTree::Mapping(providers))]
    } else {
        Seq::empty()
    }
}

/// The entries about ports, modes and the controller.
pub open spec fn general_fields(cfg: AppConfig) -> Seq<(YamlTree, YamlTree)> {
    seq![
        yaml::field("mixed-port"@, YamlTree::Integer(cfg.mihomo.mixed_port as int)),
        yaml::field("allow-lan"@, YamlTree::Bool(cfg.mihomo.allow_lan)),
        yaml::field("mode"@, YamlTree::Text(cfg.mihomo.mode@)),
        yaml::field("log-level"@, YamlTree::Text(cfg.mihomo.log_level@)),
        yaml::field("external-controller"@, YamlTree::Text(controller_address(cfg))),
    ]
}

/// The entries about proxies, groups and rules.
pub open spec fn proxy_fields(
    cfg: AppConfig,
    proxies: Seq<YamlTree>,
    names: Seq<Seq<char>>,
) -> Seq<(YamlTree, YamlTree)> {
    seq![
        yaml::field("proxies"@, YamlTree::Sequence(proxies)),
        yaml::field("proxy-groups"@, YamlTree::Sequence(group_trees(cfg.proxy, names))),
        yaml::field("rules"@, text_list(text::texts(cfg.rules@))),
    ]
}

/// The runtime configuration.
pub open spec fn runtime_tree(
    cfg: AppConfig,
    proxies: Seq<YamlTree>,
    names: Seq<Seq<char>>,
) -> YamlTree {
    YamlTree::Mapping(
        general_fields(cfg) + secret_field(cfg.controller.secret@) + proxy_fields(
            cfg,
            proxies,
            names,
        ) + providers_field(yaml::entry_trees(cfg.rule_providers@)) + seq![
            yaml::field("tun"@, tun_tree(cfg.tun)),
            yaml::field("dns"@, dns_tree(cfg.dns)),
        ],
    )
}

proof fn lemma_runtime_keys()
    ensures
        "mixed-port"@.len() == 10 && "mode"@.len() == 4 && "external-controller"@.len() == 19,
        "allow-lan"@.len() == 9 && "log-level"@.len() == 9 && "allow-lan"@ != "log-level"@,
        "secret"@.len() == 6 && "proxies"@.len() == 7 && "proxy-groups"@.len() == 12,
        "rules"@.len() == 5 && "rule-providers"@.len() == 14,
        "tun"@.len() == 3 && "dns"@.len() == 3 && "tun"@ != "dns"@,
{
    reveal_strlit("mixed-port");
    reveal_strlit("allow-lan");
    reveal_strlit("mode");
    reveal_strlit("log-level");
    reveal_strlit("external-controller");
    reveal_strlit("secret");
    reveal_strlit("proxies");
    reveal_strlit("proxy-groups");
    reveal_strlit("rules");
    reveal_strlit("rule-providers");
    reveal_strlit("tun");
    reveal_strlit("dns");
    assert("allow-lan"@[0] == 'a' && "log-level"@[0] == 'l');
    assert("tun"@[0] == 't' && "dns"@[0] == 'd');
}

/// Makes the runtime configuration of the given proxies, which the groups list by the given
/// names.
pub fn build_runtime_config(
    cfg: &AppConfig,
    proxies: Vec<Yaml>,
    names: Vec<String>,
) -> (runtime: Result<Yaml, SubscriptionError>)
    ensures
        runtime is Ok,
        runtime->Ok_0@ == runtime_tree(*cfg, yaml::trees(proxies@), text::texts(names@)),
{
    let ghost proxy_trees = yaml::trees(proxies@);
    let ghost all = text::texts(names@);
    proof {
        lemma_runtime_keys();
    }
    let mut root: Vec<(Yaml, Yaml)> = Vec::new();
    insert(&mut root, "mixed-port", Yaml::Unsigned(cfg.mihomo.mixed_port as u64));
    insert(&mut root, "allow-lan", Yaml::Bool(cfg.mihomo.allow_lan));
    insert(&mut root, "mode", text_value(cfg.mihomo.mode.as_str()));
    insert(&mut root, "log-level", text_value(cfg.mihomo.log_level.as_str()));
    insert(&mut root, "external-controller", Yaml::Text(controller_addr(cfg)));
    let ghost general = general_fields(*cfg);
    assert(yaml::entry_trees(root@) =~= general);

    if !cfg.controller.secret.as_str().is_empty() {
        insert(&mut root, "secret", text_value(cfg.controller.secret.as_str()));
    }
    let ghost secret = general + secret_field(cfg.controller.secret@);
    assert(yaml::entry_trees(root@) =~= secret);

    insert(&mut root, "proxies", sequence(proxies));
    insert(&mut root, "proxy-groups", sequence(build_proxy_groups(cfg, names.as_slice())));
    insert(&mut root, "rules", sequence(text_items(cfg.rules.as_slice())));
    let ghost ruled = secret + proxy_fields(*cfg, proxy_trees, all);
    assert(yaml::entry_trees(root@) =~= ruled);

    if !cfg.rule_providers.is_empty() {
        insert(&mut root, "rule-providers", mapping(copy_entries(&cfg.rule_providers)));
    }
    let ghost provided = ruled + providers_field(yaml::entry_trees(cfg.rule_providers@));
    assert(yaml::entry_trees(root@) =~= provided);

    insert(&mut root, "tun", build_tun(cfg));
    insert(&mut root, "dns", build_dns(cfg));
    assert(yaml::entry_trees(root@) =~= runtime_tree(*cfg, proxy_trees, all)->Mapping_0);
    Ok(mapping(root))
}

/// What is written into a runtime configuration reads back under its key. There is a
/// secret only where it is not empty, and there are rule providers only where some are
/// given.
pub proof fn runtime_reads_back(cfg: AppConfig, proxies: Seq<YamlTree>, names: Seq<Seq<char>>)
    ensures
        ({
            let runtime = runtime_tree(cfg, proxies, names);
            &&& yaml::member(runtime, "mixed-port"@) == Some(
                YamlTree::Integer(cfg.mihomo.mixed_port as int),
            )
            &&& yaml::member(runtime, "allow-lan"@) == Some(YamlTree::Bool(cfg.mihomo.allow_lan))
            &&& yaml::member(runtime, "mode"@) == Some(YamlTree::Text(cfg.mihomo.mode@))
            &&& yaml::member(runtime, "log-level"@) == Some(YamlTree::Text(cfg.mihomo.log_level@))
            &&& yaml::member(runtime, "external-controller"@) == Some(
                YamlTree::Text(controller_address(cfg)),
            )
            &&& yaml::member(runtime, "secret"@) == if cfg.controller.secret@.len() > 0 {
                Some(YamlTree::Text(cfg.controller.secret@))
            } else {
                None
            }
            &&& yaml::member(runtime, "proxies"@) == Some(YamlTree::Sequence(proxies))
            &&& yaml::member(runtime, "proxy-groups"@) == Some(
                YamlTree::Sequence(group_trees(cfg.proxy, names)),
            )
            &&& yaml::member(runtime, "rules"@) == Some(text_list(text::texts(cfg.rules@)))
            &&& yaml::member(runtime, "rule-providers"@) == if cfg.rule_providers@.len() > 0 {
                Some(YamlTree::Mapping(yaml::entry_trees(cfg.rule_providers@)))
            } else {
                None
            }
            &&& yaml::member(runtime, "tun"@) == Some(tun_tree(cfg.tun))
            &&& yaml::member(runtime, "dns"@) == Some(dns_tree(cfg.dns))
        }),
{
    lemma_runtime_keys();
    let entries = runtime_tree(cfg, proxies, names)->Mapping_0;
    let s = secret_field(cfg.controller.secret@).len() as int;
    let p = providers_field(yaml::entry_trees(cfg.rule_providers@)).len() as int;
    yaml::first_entry_counts(entries, 0, "mixed-port"@);
    yaml::first_entry_counts(entries, 1, "allow-lan"@);
    yaml::first_entry_counts(entries, 2, "mode"@);
    yaml::first_entry_counts(entries, 3, "log-level"@);
    yaml::first_entry_counts(entries, 4, "external-controller"@);
    if s > 0 {
        yaml::first_entry_counts(entries, 5, "secret"@);
    } else {
        yaml::no_entry_without_key(entries, "secret"@);
    }
    yaml::first_entry_counts(entries, 5 + s, "proxies"@);
    yaml::first_entry_counts(entries, 6 + s, "proxy-groups"@);
    yaml::first_entry_counts(entries, 7 + s, "rules"@);
    if p > 0 {
        yaml::first_entry_counts(entries, 8 + s, "rule-providers"@);
    } else {
        yaml::no_entry_without_key(entries, "rule-providers"@);
    }
    yaml::first_entry_counts(entries, 8 + s + p, "tun"@);
    yaml::first_entry_counts(entries, 9 + s + p, "dns"@);
}

/// A runtime configuration has two groups: the automatic one, which lists the names, and
/// the selector, which lists the automatic group and then the names.
pub proof fn groups_list_names(proxy: ProxyConfig, names: Seq<Seq<char>>)
    ensures
        ({
            let groups = group_trees(proxy, names);
            &&& groups.len() == 2
            &&& yaml::member(groups[0], "name"@) == Some(YamlTree::Text(proxy.auto_group@))
            &&& yaml::member(groups[0], "type"@) == Some(YamlTree::Text("url-test"@))
            &&& yaml::member(groups[0], "url"@) == Some(YamlTree::Text(proxy.test_url@))
            &&& yaml::member(groups[0], "interval"@) == Some(
                YamlTree::Integer(proxy.interval_secs as int),
            )
            &&& yaml::member(groups[0], "proxies"@) == Some(text_list(names))
            &&& yaml::member(groups[1], "name"@) == Some(YamlTree::Text(proxy.selector@))
            &&& yaml::member(groups[1], "type"@) == Some(YamlTree::Text("select"@))
            &&& yaml::member(groups[1], "proxies"@) == Some(
                text_list(seq![proxy.auto_group@] + names),
            )
        }),
{
    lemma_group_keys();
    let auto = auto_group_tree(proxy, names)->Mapping_0;
    yaml::first_entry_counts(auto, 0, "name"@);
    yaml::first_entry_counts(auto, 1, "type"@);
    yaml::first_entry_counts(auto, 2, "url"@);
    yaml::first_entry_counts(auto, 3, "interval"@);
    yaml::first_entry_counts(auto, 4, "proxies"@);
    let selector = selector_tree(proxy, names)->Mapping_0;
    yaml::first_entry_counts(selector, 0, "name"@);
    yaml::first_entry_counts(selector, 1, "type"@);
    yaml::first_entry_counts(selector, 2, "proxies"@);
}

proof fn lemma_text_list_well_formed(list: Seq<Seq<char>>)
    ensures
        emit::well_formed(text_list(list)),
{
    emit::lemma_well_formed_sequence(text_list(list)->Sequence_0);
}

proof fn lemma_sections_well_formed(cfg: AppConfig, names: Seq<Seq<char>>)
    ensures
        emit::well_formed(tun_tree(cfg.tun)),
        emit::well_formed(dns_tree(cfg.dns)),
        emit::well_formed(auto_group_tree(cfg.proxy, names)),
        emit::well_formed(selector_tree(cfg.proxy, names)),
{
    lemma_text_list_well_formed(text::texts(cfg.tun.dns_hijack@));
    lemma_text_list_well_formed(text::texts(cfg.dns.nameserver@));
    lemma_text_list_well_formed(text::texts(cfg.dns.fallback@));
    lemma_text_list_well_formed(names);
    lemma_text_list_well_formed(seq![cfg.proxy.auto_group@] + names);
    lemma_tun_keys();
    emit::lemma_well_formed_mapping(tun_tree(cfg.tun)->Mapping_0);
    lemma_dns_keys();
    emit::lemma_well_formed_mapping(dns_tree(cfg.dns)->Mapping_0);
    lemma_group_keys();
    emit::lemma_well_formed_mapping(auto_group_tree(cfg.proxy, names)->Mapping_0);
    emit::lemma_well_formed_mapping(selector_tree(cfg.proxy, names)->Mapping_0);
}

/// A runtime configuration is a well-formed document if its proxies and rule providers are:
/// no key stands twice in it.
pub proof fn runtime_well_formed(cfg: AppConfig, proxies: Seq<YamlTree>, names: Seq<Seq<char>>)
    requires
        forall|i: int| 0 <= i < proxies.len() ==> emit::well_formed(#[trigger] proxies[i]),
        emit::well_formed(YamlTree::Mapping(yaml::entry_trees(cfg.rule_providers@))),
    ensures
        emit::well_formed(runtime_tree(cfg, proxies, names)),
{
    lemma_runtime_keys();
    lemma_sections_well_formed(cfg, names);
    lemma_text_list_well_formed(text::texts(cfg.rules@));
    emit::lemma_well_formed_sequence(proxies);
    emit::lemma_well_formed_sequence(group_trees(cfg.proxy, names));
    let entries = runtime_tree(cfg, proxies, names)->Mapping_0;
    assert(yaml::distinct_keys(entries));
    emit::lemma_well_formed_mapping(entries);
}

/// Whether a value is the list of the given texts.
pub open spec fn lists(value: Option<YamlTree>, list: Seq<Seq<char>>) -> bool {
    value matches Some(YamlTree::Sequence(items)) && items.len() == list.len() && forall|i: int|
        0 <= i < list.len() ==> #[trigger] items[i] == YamlTree::Text(list[i])
}

/// The TUN section of a runtime configuration has under each key the setting of that name, and
/// no other entry.
pub proof fn tun_settings_read_back(cfg: AppConfig, proxies: Seq<YamlTree>, names: Seq<Seq<char>>)
    ensures
        ({
            let section = yaml::member(runtime_tree(cfg, proxies, names), "tun"@)->0;
            &&& yaml::member(runtime_tree(cfg, proxies, names), "tun"@) is Some
            &&& yaml::member(section, "enable"@) == Some(YamlTree::Bool(cfg.tun.enable))
            &&& yaml::member(section, "stack"@) == Some(YamlTree::Text(cfg.tun.stack@))
            &&& yaml::member(section, "auto-route"@) == Some(YamlTree::Bool(cfg.tun.auto_route))
            &&& yaml::member(section, "auto-detect-interface"@) == Some(
                YamlTree::Bool(cfg.tun.auto_detect_interface),
            )
            &&& lists(yaml::member(section, "dns-hijack"@), text::texts(cfg.tun.dns_hijack@))
            &&& section == tun_tree(cfg.tun)
            &&& section is Mapping && section->Mapping_0.len() == 5
        }),
{
    runtime_reads_back(cfg, proxies, names);
    lemma_tun_keys();
    let entries = tun_tree(cfg.tun)->Mapping_0;
    yaml::first_entry_counts(entries, 0, "enable"@);
    yaml::first_entry_counts(entries, 1, "stack"@);
    yaml::first_entry_counts(entries, 2, "auto-route"@);
    yaml::first_entry_counts(entries, 3, "auto-detect-interface"@);
    yaml::first_entry_counts(entries, 4, "dns-hijack"@);
}

/// The DNS section of a runtime configuration has under each key the setting of that name, and
/// no other entry.
pub proof fn dns_settings_read_back(cfg: AppConfig, proxies: Seq<YamlTree>, names: Seq<Seq<char>>)
    ensures
        ({
            let section = yaml::member(runtime_tree(cfg, proxies, names), "dns"@)->0;
            &&& yaml::member(runtime_tree(cfg, proxies, names), "dns"@) is Some
            &&& yaml::member(section, "enable"@) == Some(YamlTree::Bool(cfg.dns.enable))
            &&& yaml::member(section, "listen"@) == Some(YamlTree::Text(cfg.dns.listen@))
            &&& yaml::member(section, "enhanced-mode"@) == Some(
                YamlTree::Text(cfg.dns.enhanced_mode@),
            )
            &&& yaml::member(section, "fake-ip-range"@) == Some(
                YamlTree::Text(cfg.dns.fake_ip_range@),
            )
            &&& lists(yaml::member(section, "nameserver"@), text::texts(cfg.dns.nameserver@))
            &&& lists(yaml::member(section, "fallback"@), text::texts(cfg.dns.fallback@))
            &&& section == dns_tree(cfg.dns)
            &&& section is Mapping && section->Mapping_0.len() == 6
        }),
{
    runtime_reads_back(cfg, proxies, names);
    lemma_dns_keys();
    let entries = dns_tree(cfg.dns)->Mapping_0;
    yaml::first_entry_counts(entries, 0, "enable"@);
    yaml::first_entry_counts(entries, 1, "listen"@);
    yaml::first_entry_counts(entries, 2, "enhanced-mode"@);
    yaml::first_entry_counts(entries, 3, "fake-ip-range"@);
    yaml::first_entry_counts(entries, 4, "nameserver"@);
    yaml::first_entry_counts(entries, 5, "fallback"@);
}

/// A runtime configuration has the settings of the core under the keys that mihomo reads,
/// the proxies as they are, the rules in their order, and a secret and rule providers exactly
/// where there are some. Besides them it has the groups and two sections, and nothing else.
pub proof fn core_settings_read_back(cfg: AppConfig, proxies: Seq<YamlTree>, names: Seq<Seq<char>>)
    ensures
        ({
            let runtime = runtime_tree(cfg, proxies, names);
            let providers = cfg.rule_providers@;
            let secrets: int = if cfg.controller.secret@.len() > 0 { 1 } else { 0 };
            let provided: int = if providers.len() > 0 { 1 } else { 0 };
            &&& runtime is Mapping && runtime->Mapping_0.len() == 10 + secrets + provided
            &&& yaml::member(runtime, "mixed-port"@) == Some(
                YamlTree::Integer(cfg.mihomo.mixed_port as int),
            )
            &&& yaml::member(runtime, "allow-lan"@) == Some(YamlTree::Bool(cfg.mihomo.allow_lan))
            &&& yaml::member(runtime, "mode"@) == Some(YamlTree::Text(cfg.mihomo.mode@))
            &&& yaml::member(runtime, "log-level"@) == Some(YamlTree::Text(cfg.mihomo.log_level@))
            &&& yaml::member(runtime, "external-controller"@) == Some(
                YamlTree::Text(
                    cfg.controller.host@ + ":"@ + number::decimal(cfg.controller.port as nat),
                ),
            )
            &&& cfg.controller.secret@.len() > 0 ==> yaml::member(runtime, "secret"@) == Some(
                YamlTree::Text(cfg.controller.secret@),
            )
            &&& cfg.controller.secret@.len() == 0 ==> yaml::member(runtime, "secret"@) is None
            &&& yaml::member(runtime, "proxies"@) == Some(YamlTree::Sequence(proxies))
            &&& lists(yaml::member(runtime, "rules"@), text::texts(cfg.rules@))
            &&& providers.len() == 0 ==> yaml::member(runtime, "rule-providers"@) is None
            &&& providers.len() > 0 ==> {
                &&& yaml::member(runtime, "rule-providers"@) matches Some(
                    YamlTree::Mapping(entries),
                )
                &&& entries.len() == providers.len()
                &&& forall|i: int|
                    0 <= i < providers.len() ==> #[trigger] entries[i] == (
                        providers[i].0@,
                        providers[i].1@,
                    )
            }
        }),
{
    runtime_reads_back(cfg, proxies, names);
}

/// The first group of a runtime configuration is the automatic one and lists the names; the
/// second is the selector and lists the automatic group and then the names. Each has the
/// settings that it was given, and no other entry.
pub proof fn group_settings_read_back(
    cfg: AppConfig,
    proxies: Seq<YamlTree>,
    names: Seq<Seq<char>>,
)
    ensures
        ({
            let runtime = runtime_tree(cfg, proxies, names);
            let groups = yaml::member(runtime, "proxy-groups"@)->0->Sequence_0;
            &&& yaml::member(runtime, "proxy-groups"@) == Some(YamlTree::Sequence(groups))
            &&& groups.len() == 2
            &&& groups[0] is Mapping && groups[0]->Mapping_0.len() == 5
            &&& groups[1] is Mapping && groups[1]->Mapping_0.len() == 3
            &&& yaml::member(groups[0], "name"@) == Some(YamlTree::Text(cfg.proxy.auto_group@))
            &&& yaml::member(groups[0], "type"@) == Some(YamlTree::Text("url-test"@))
            &&& yaml::member(groups[0], "url"@) == Some(YamlTree::Text(cfg.proxy.test_url@))
            &&& yaml::member(groups[0], "interval"@) == Some(
                YamlTree::Integer(cfg.proxy.interval_secs as int),
            )
            &&& lists(yaml::member(groups[0], "proxies"@), names)
            &&& yaml::member(groups[1], "name"@) == Some(YamlTree::Text(cfg.proxy.selector@))
            &&& yaml::member(groups[1], "type"@) == Some(YamlTree::Text("select"@))
            &&& lists(yaml::member(groups[1], "proxies"@), seq![cfg.proxy.auto_group@] + names)
        }),
{
    runtime_reads_back(cfg, proxies, names);
    groups_list_names(cfg.proxy, names);
}

} // verus!
