use clash_cli::config::{AppConfig, Subscription};
use clash_cli::emit::{is_holdable, to_text, to_value, WriteError};
use clash_cli::error::{Problem, SubscriptionError};
use clash_cli::order::{comes_before, place};
use clash_cli::runtime::{build_dns, build_proxy_groups, build_runtime_config, build_tun, controller_addr};
use clash_cli::update::{cache_file, check_download, sanitize_name, ProxyPool, UpdateStep};
use clash_cli::yaml::{copy_entries, from_value, insert, parse_yaml, Yaml};

fn text(content: &str) -> Yaml {
    Yaml::Text(content.to_string())
}

fn sub(includes: &[&str], excludes: &[&str]) -> Subscription {
    let mut sub = Subscription::default();
    sub.includes = includes.iter().map(|s| s.to_string()).collect();
    sub.excludes = excludes.iter().map(|s| s.to_string()).collect();
    sub
}

fn names_of(list: &Yaml) -> Vec<String> {
    list.as_sequence()
        .unwrap()
        .iter()
        .map(|item| item.as_str().unwrap().to_string())
        .collect()
}

fn keys_of(yaml: &Yaml) -> Vec<String> {
    match yaml {
        Yaml::Mapping(entries) => entries
            .iter()
            .map(|(key, _)| key.as_str().unwrap().to_string())
            .collect(),
        other => panic!("{other:?}"),
    }
}

fn add(pool: ProxyPool, body: &str, sub: &Subscription) -> ProxyPool {
    match pool.add_subscription(body, sub) {
        Ok(pool) => pool,
        Err(error) => panic!("{error:?}"),
    }
}

fn failure(pool: ProxyPool, body: &str, sub: &Subscription) -> SubscriptionError {
    match pool.add_subscription(body, sub) {
        Ok(_) => panic!("the subscription should be refused"),
        Err(error) => error,
    }
}

#[test]
fn subscriptions_are_merged_and_filtered() {
    let first = "proxies:\n- {name: b, server: one}\n- {name: a, server: two}\n- {name: b, server: three}\n- {name: x-expired}";
    let second = "proxies:\n- {name: a, server: four}\n- {name: c, server: five}\n- {name: d, server: six}";
    let pool = add(ProxyPool::new(), first, &sub(&[], &["expired"]));
    let pool = add(pool, second, &sub(&["a|c"], &[]));
    let runtime = pool.runtime_config(&AppConfig::default()).unwrap();
    let proxies = runtime.get("proxies").unwrap().as_sequence().unwrap();
    let servers: Vec<&str> = proxies
        .iter()
        .map(|proxy| proxy.get("server").unwrap().as_str().unwrap())
        .collect();
    assert_eq!(servers, ["one", "two", "five"]);
    let groups = runtime.get("proxy-groups").unwrap().as_sequence().unwrap();
    assert_eq!(names_of(groups[0].get("proxies").unwrap()), ["a", "b", "c"]);
    assert_eq!(names_of(groups[1].get("proxies").unwrap()), ["AUTO", "a", "b", "c"]);
}

#[test]
fn a_pool_without_proxies_has_no_configuration() {
    let error = ProxyPool::new().runtime_config(&AppConfig::default()).unwrap_err();
    match error {
        SubscriptionError::Problem(problem) => assert_eq!(
            problem.message(),
            "subscriptions did not provide any proxy after filtering"
        ),
        other => panic!("{other:?}"),
    }
    let pool = add(ProxyPool::new(), "proxies: [{name: a}]", &sub(&["b"], &[]));
    assert!(matches!(
        pool.runtime_config(&AppConfig::default()),
        Err(SubscriptionError::Problem(Problem::NoProxies))
    ));
}

#[test]
fn subscriptions_that_cannot_be_used_are_refused() {
    let refused = |body: &str, sub: &Subscription| failure(ProxyPool::new(), body, sub);
    assert!(matches!(
        refused("hello", &sub(&[], &[])),
        SubscriptionError::Problem(Problem::UnknownFormat)
    ));
    assert!(matches!(
        refused("proxies: 1", &sub(&["("], &[])),
        SubscriptionError::Problem(Problem::MissingProxies)
    ));
    assert!(matches!(
        refused("proxies: [{}]", &sub(&["("], &[])),
        SubscriptionError::Pattern(_)
    ));
    assert!(matches!(
        refused("proxies: [{}]", &sub(&["a"], &["("])),
        SubscriptionError::Pattern(_)
    ));
    assert!(matches!(
        refused("proxies: [{name: a}, {}]", &sub(&["b"], &[])),
        SubscriptionError::Problem(Problem::MissingName)
    ));
}

#[test]
fn documents_and_proxies_can_be_added() {
    let items = vec![parse_yaml("{name: b}").unwrap(), parse_yaml("{name: a}").unwrap()];
    let pool = ProxyPool::new().add_proxies(&items, None, None).ok().unwrap();
    let document = parse_yaml("proxies: [{name: a}, {name: 香}, {name: Z}]").unwrap();
    let pool = pool.add_document(&document, &sub(&[], &[])).ok().unwrap();
    let runtime = pool.runtime_config(&AppConfig::default()).unwrap();
    let groups = runtime.get("proxy-groups").unwrap().as_sequence().unwrap();
    assert_eq!(names_of(groups[0].get("proxies").unwrap()), ["Z", "a", "b", "香"]);
    assert_eq!(runtime.get("proxies").unwrap().as_sequence().unwrap().len(), 4);
}

fn run_update(cfg: &AppConfig, bodies: &[&str]) -> Result<Yaml, SubscriptionError> {
    let mut step = UpdateStep::first(cfg)?;
    for (i, body) in bodies.iter().enumerate() {
        step = match step {
            UpdateStep::Fetch(fetching) => {
                assert_eq!(fetching.subscription(cfg), Some(&cfg.subscriptions[i]));
                fetching.downloaded(cfg, body)?
            }
            UpdateStep::Write(_) => panic!("every subscription has been downloaded"),
        };
    }
    match step {
        UpdateStep::Write(runtime) => Ok(runtime),
        UpdateStep::Fetch(_) => panic!("some subscriptions have not been downloaded"),
    }
}

#[test]
fn an_update_takes_one_download_for_each_subscription() {
    let mut cfg = AppConfig::default();
    assert!(matches!(
        run_update(&cfg, &[]),
        Err(SubscriptionError::Problem(Problem::NoProxies))
    ));
    cfg.subscriptions = vec![sub(&[], &[]), sub(&["b"], &[])];
    cfg.subscriptions[1].name = "second".to_string();
    let bodies = ["proxies: [{name: a}]", "proxies: [{name: b}, {name: c}]"];
    let runtime = run_update(&cfg, &bodies).unwrap();
    let groups = runtime.get("proxy-groups").unwrap().as_sequence().unwrap();
    assert_eq!(names_of(groups[0].get("proxies").unwrap()), ["a", "b"]);
    assert!(matches!(
        run_update(&cfg, &["hello"]),
        Err(SubscriptionError::Problem(Problem::UnknownFormat))
    ));
    assert!(matches!(
        run_update(&cfg, &["proxies: []", "proxies: [{name: c}]"]),
        Err(SubscriptionError::Problem(Problem::NoProxies))
    ));
}

#[test]
fn names_are_put_in_order() {
    let mut names: Vec<String> = Vec::new();
    for name in ["b", "", "ab", "é", "a", "b", "z"] {
        place(&mut names, name.to_string());
    }
    let mut sorted = names.clone();
    sorted.sort();
    sorted.dedup();
    assert_eq!(names, sorted);
    assert_eq!(names, ["", "a", "ab", "b", "z", "é"]);
    assert!(!place(&mut names, "ab".to_string()));
    assert!(place(&mut names, "aa".to_string()));
    assert!(comes_before("a", "ab"));
    assert!(!comes_before("ab", "a"));
    assert!(!comes_before("a", "a"));
    assert!(comes_before("z", "\u{ffff}") && comes_before("\u{ffff}", "\u{10000}"));
}

#[test]
fn downloads_need_success() {
    assert_eq!(check_download("one", 200, "200 OK"), Ok(()));
    assert_eq!(
        check_download("one", 204, "204 No Content"),
        Err("subscription one returned HTTP 204 No Content".to_string())
    );
}

#[test]
fn cache_files_have_plain_names() {
    assert_eq!(sanitize_name("my sub/1-a_B.香"), "my_sub_1-a_B__");
    assert_eq!(sanitize_name(&sanitize_name("a b")), sanitize_name("a b"));
    let mut sub = Subscription::default();
    assert_eq!(cache_file(&sub), "default.yaml");
    sub.name = "a.b".to_string();
    assert_eq!(cache_file(&sub), "a_b.yaml");
}

#[test]
fn a_runtime_configuration_reads_back() {
    let mut cfg = AppConfig::default();
    let runtime = build_runtime_config(&cfg, vec![], vec![]).unwrap();
    assert_eq!(
        keys_of(&runtime),
        [
            "mixed-port",
            "allow-lan",
            "mode",
            "log-level",
            "external-controller",
            "proxies",
            "proxy-groups",
            "rules",
            "tun",
            "dns"
        ]
    );
    assert_eq!(runtime.get("external-controller"), Some(&text("127.0.0.1:9090")));
    assert_eq!(runtime.get("secret"), None);

    cfg.controller.secret = "word".to_string();
    cfg.rule_providers = vec![(text("ads"), parse_yaml("{type: http, weight: 1.5}").unwrap())];
    let runtime = build_runtime_config(&cfg, vec![Yaml::Null], vec!["n".to_string()]).unwrap();
    assert_eq!(
        keys_of(&runtime),
        [
            "mixed-port",
            "allow-lan",
            "mode",
            "log-level",
            "external-controller",
            "secret",
            "proxies",
            "proxy-groups",
            "rules",
            "rule-providers",
            "tun",
            "dns"
        ]
    );
    assert_eq!(runtime.get("mixed-port"), Some(&Yaml::Unsigned(7890)));
    assert_eq!(runtime.get("allow-lan"), Some(&Yaml::Bool(false)));
    assert_eq!(runtime.get("mode"), Some(&text("rule")));
    assert_eq!(runtime.get("log-level"), Some(&text("info")));
    assert_eq!(runtime.get("secret"), Some(&text("word")));
    assert_eq!(runtime.get("proxies"), Some(&Yaml::Sequence(vec![Yaml::Null])));
    assert_eq!(runtime.get("rules"), Some(&Yaml::Sequence(vec![text("MATCH,PROXY")])));
    assert_eq!(
        runtime.get("rule-providers"),
        Some(&Yaml::Mapping(copy_entries(&cfg.rule_providers)))
    );
    assert_eq!(runtime.get("tun"), Some(&build_tun(&cfg)));
    assert_eq!(runtime.get("dns"), Some(&build_dns(&cfg)));
    assert_eq!(controller_addr(&cfg), "127.0.0.1:9090");
}

#[test]
fn sections_hold_the_settings() {
    let cfg = AppConfig::default();
    let tun = parse_yaml("{enable: false, stack: system, auto-route: true, auto-detect-interface: true, dns-hijack: ['any:53']}").unwrap();
    assert_eq!(build_tun(&cfg), tun);
    let dns = parse_yaml("{enable: true, listen: '0.0.0.0:53', enhanced-mode: fake-ip, fake-ip-range: 198.18.0.1/16, nameserver: [223.5.5.5, 119.29.29.29], fallback: ['https://1.1.1.1/dns-query', 'https://dns.google/dns-query']}").unwrap();
    assert_eq!(build_dns(&cfg), dns);
    let groups = build_proxy_groups(&cfg, &["a".to_string(), "b".to_string()]);
    let expected = parse_yaml("- {name: AUTO, type: url-test, url: 'http://cp.cloudflare.com/generate_204', interval: 300, proxies: [a, b]}\n- {name: PROXY, type: select, proxies: [AUTO, a, b]}").unwrap();
    assert_eq!(Yaml::Sequence(groups), expected);
}

#[test]
fn an_entry_that_was_set_reads_back() {
    let mut entries = vec![(text("a"), Yaml::Unsigned(1)), (text("b"), Yaml::Unsigned(2))];
    insert(&mut entries, "a", Yaml::Unsigned(3));
    insert(&mut entries, "c", Yaml::Unsigned(4));
    assert_eq!(
        entries,
        vec![
            (text("a"), Yaml::Unsigned(3)),
            (text("b"), Yaml::Unsigned(2)),
            (text("c"), Yaml::Unsigned(4))
        ]
    );
}

#[test]
fn yaml_values_keep_their_kind() {
    let yaml = parse_yaml("{a: ~, b: true, c: 3, d: -4, e: 1.5, f: x, g: [1], h: !t {i: 2}, 5: y}").unwrap();
    assert_eq!(yaml.get("a"), Some(&Yaml::Null));
    assert_eq!(yaml.get("b"), Some(&Yaml::Bool(true)));
    assert_eq!(yaml.get("c"), Some(&Yaml::Unsigned(3)));
    assert_eq!(yaml.get("d"), Some(&Yaml::Negative(-4)));
    assert_eq!(yaml.get("e"), Some(&Yaml::Float("1.5".to_string())));
    assert_eq!(yaml.get("f").unwrap().as_str(), Some("x"));
    assert_eq!(yaml.get("g").unwrap().as_sequence(), Some(&vec![Yaml::Unsigned(1)]));
    assert_eq!(yaml.get("h").unwrap().get("i"), Some(&Yaml::Unsigned(2)));
    assert_eq!(
        yaml.get("h"),
        Some(&Yaml::Tagged(
            "!t".to_string(),
            Box::new(Yaml::Mapping(vec![(text("i"), Yaml::Unsigned(2))]))
        ))
    );
    assert_eq!(yaml.get("5"), None);
    assert_eq!(parse_yaml("{a: 1, a: 2}"), None);
    assert_eq!(yaml.clone(), yaml);
}

#[test]
fn documents_are_written() {
    let document = parse_yaml("{b: [1, -2, 1.5, .nan, -.inf, 1e+30], a: {x: ~, y: 'true'}, t: !t {k: !u v}, 5: z, true: q}").unwrap();
    let text = to_text(&document).unwrap();
    assert_eq!(parse_yaml(&text), Some(document.clone()));
    assert_eq!(from_value(to_value(&document).unwrap()), document);
    assert_eq!(to_text(&text_list(&["a", "1", ""])).unwrap(), "- a\n- '1'\n- ''\n");
    let cfg = AppConfig::default();
    let proxies = vec![parse_yaml("{name: a, weight: 0.5}").unwrap()];
    let runtime = build_runtime_config(&cfg, proxies, vec!["a".to_string()]).unwrap();
    let text = to_text(&runtime).unwrap();
    assert!(text.starts_with("mixed-port: 7890\nallow-lan: false\nmode: rule\n"));
    assert_eq!(parse_yaml(&text), Some(runtime));
}

fn text_list(list: &[&str]) -> Yaml {
    Yaml::Sequence(list.iter().map(|s| text(s)).collect())
}

#[test]
fn a_tag_keeps_its_text() {
    for tag in ["!a", "!!", "!!a"] {
        let tagged = Yaml::Tagged(tag.to_string(), Box::new(text("x")));
        assert_eq!(from_value(to_value(&tagged).unwrap()), tagged);
    }
}

#[test]
fn some_documents_cannot_be_written() {
    let untagged = Yaml::Sequence(vec![Yaml::Tagged(String::new(), Box::new(Yaml::Null))]);
    assert!(!is_holdable(&untagged));
    assert!(matches!(to_text(&untagged), Err(WriteError::Unwritable)));
    let no_number = Yaml::Float("many".to_string());
    assert!(is_holdable(&no_number));
    assert!(matches!(to_text(&no_number), Err(WriteError::Yaml(_))));
}
