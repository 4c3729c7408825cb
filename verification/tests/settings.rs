use clash_cli::config::{
    apply_quick_setup, default_dns_listen, ensure_can_start_core, init_config, is_elevated,
    load_config, number_subscriptions, AppConfig, Cli, ConfigError, QuickSetup, Subscription,
};

fn command_line(url: Option<&str>, more: &[&str], bin: Option<&str>, tun: bool) -> QuickSetup {
    QuickSetup::from_cli(&Cli {
        quick_subscription: url.map(|s| s.to_string()),
        subscriptions: more.iter().map(|s| s.to_string()).collect(),
        mihomo_bin: bin.map(|s| s.to_string()),
        tun,
        no_core: false,
    })
}

fn urls_of(config: &AppConfig) -> Vec<&str> {
    config.subscriptions.iter().map(|sub| sub.url.as_str()).collect()
}

#[test]
fn defaults_are_as_documented() {
    let config = AppConfig::default();
    assert!(config.subscriptions.is_empty());
    assert_eq!(config.mihomo.bin, "mihomo");
    assert_eq!(config.mihomo.mixed_port, 7890);
    assert!(!config.mihomo.allow_lan);
    assert_eq!(config.mihomo.mode, "rule");
    assert_eq!(config.mihomo.log_level, "info");
    assert_eq!(config.controller.host, "127.0.0.1");
    assert_eq!(config.controller.port, 9090);
    assert_eq!(config.controller.secret, "");
    assert_eq!(config.proxy.selector, "PROXY");
    assert_eq!(config.proxy.auto_group, "AUTO");
    assert_eq!(config.proxy.test_url, "http://cp.cloudflare.com/generate_204");
    assert_eq!(config.proxy.timeout_ms, 5000);
    assert_eq!(config.proxy.interval_secs, 300);
    assert_eq!(config.proxy.health_check_secs, 300);
    assert!(!config.tun.enable && config.tun.auto_route && config.tun.auto_detect_interface);
    assert_eq!(config.tun.stack, "system");
    assert_eq!(config.tun.dns_hijack, ["any:53"]);
    assert!(config.dns.enable);
    assert_eq!(config.dns.listen, default_dns_listen());
    assert_eq!(default_dns_listen(), "0.0.0.0:53");
    assert_eq!(config.dns.enhanced_mode, "fake-ip");
    assert_eq!(config.dns.fake_ip_range, "198.18.0.1/16");
    assert_eq!(config.dns.nameserver, ["223.5.5.5", "119.29.29.29"]);
    assert_eq!(config.dns.fallback, ["https://1.1.1.1/dns-query", "https://dns.google/dns-query"]);
    assert_eq!(config.rules, ["MATCH,PROXY"]);
    assert!(config.rule_providers.is_empty());
    let sub = Subscription::default();
    assert_eq!(sub.name, "default");
    assert_eq!(sub.user_agent, None);
}

#[test]
fn a_command_line_may_ask_for_changes() {
    let setup = command_line(Some("u1"), &["u2", "u3"], None, false);
    assert_eq!(setup.subscriptions, ["u1", "u2", "u3"]);
    assert!(setup.has_changes());
    assert!(!command_line(None, &[], None, false).has_changes());
    assert!(command_line(None, &[], Some("/bin/mihomo"), false).has_changes());
    assert!(command_line(None, &[], None, true).has_changes());
}

#[test]
fn quick_setup_changes_what_it_names() {
    let setup = command_line(Some("u1"), &["u2"], Some("/bin/mihomo"), true);
    let config = apply_quick_setup(None, &setup);
    assert_eq!(urls_of(&config), ["u1", "u2"]);
    assert_eq!(config.mihomo.bin, "/bin/mihomo");
    assert!(config.tun.enable);
    assert_eq!(config.dns, AppConfig::default().dns);
    let again = apply_quick_setup(Some(config), &setup);
    assert_eq!(again, apply_quick_setup(None, &setup));

    let kept = apply_quick_setup(Some(again), &command_line(None, &[], None, false));
    assert_eq!(kept, apply_quick_setup(None, &setup));
}

#[test]
fn subscriptions_are_numbered() {
    let made = number_subscriptions(&vec!["a".to_string(), "b".to_string()]);
    assert_eq!(made[0].name, "sub-1");
    assert_eq!(made[1].name, "sub-2");
    assert_eq!(made[1].url, "b");
    assert_eq!(made[1].user_agent.as_deref(), Some("clash-cli/0.1"));
    assert!(made[1].includes.is_empty() && made[1].excludes.is_empty());
}

#[test]
fn init_keeps_an_existing_file() {
    let urls = vec!["u".to_string()];
    let error = init_config("c.yaml", true, &urls, None, false).unwrap_err();
    assert_eq!(
        error.message(),
        "config already exists: c.yaml. Pass --force to overwrite."
    );
    let forced = init_config("c.yaml", true, &urls, Some("core".to_string()), true).unwrap();
    assert_eq!(forced.mihomo.bin, "core");
    let fresh = init_config("c.yaml", false, &urls, None, false).unwrap();
    assert_eq!(fresh.mihomo.bin, "mihomo");
    assert_eq!(urls_of(&fresh), ["u"]);
    assert!(load_config("c.yaml", fresh).is_ok());
}

#[test]
fn a_configuration_needs_a_subscription() {
    let error = load_config("c.yaml", AppConfig::default()).unwrap_err();
    assert_eq!(error.message(), "no subscriptions configured in c.yaml");
    let config = apply_quick_setup(None, &command_line(Some("u"), &[], None, false));
    assert_eq!(urls_of(&load_config("c.yaml", config).unwrap()), ["u"]);
}

#[test]
fn the_administrator_is_user_zero() {
    let shown = |s: &str| Some(s.as_bytes().to_vec());
    assert!(is_elevated(shown("0\n")));
    assert!(is_elevated(shown(" 00 ")));
    assert!(!is_elevated(shown("1000\n")));
    assert!(!is_elevated(shown("root")));
    assert!(!is_elevated(shown("")));
    assert!(!is_elevated(shown("4294967296")));
    assert!(!is_elevated(Some(vec![0xff])));
    assert!(!is_elevated(None));
}

#[test]
fn tun_needs_the_administrator() {
    let mut config = AppConfig::default();
    assert_eq!(ensure_can_start_core(&config, false, None), Ok(()));
    config.tun.enable = true;
    assert_eq!(ensure_can_start_core(&config, true, None), Ok(()));
    assert_eq!(
        ensure_can_start_core(&config, false, None).unwrap_err().message(),
        "TUN mode usually requires administrator privileges. Try: sudo clash-cli --tun"
    );
    assert_eq!(
        ensure_can_start_core(&config, false, Some("/bin/cc".to_string())),
        Err(ConfigError::NeedsElevation("/bin/cc".to_string()))
    );
}
