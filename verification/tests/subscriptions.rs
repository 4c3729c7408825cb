use base64::engine::general_purpose;
use base64::Engine;
use clash_cli::config::AppConfig;
use clash_cli::encoding::{decode_base64_to_string, pad_base64, read_output, unpack_text};
use clash_cli::error::{Problem, SubscriptionError};
use clash_cli::filter::{admits, compile_patterns, matches_filter};
use clash_cli::runtime::build_runtime_config;
use clash_cli::subscription::{
    choose_document, compact, parse_subscription, parse_uri_subscription, proxy_name,
    read_proxy_items,
};
use clash_cli::yaml::{parse_yaml, Yaml};

fn sample_subscription() -> &'static str {
    r#"
proxies:
  - name: HK-01
    type: ss
    server: example.com
    port: 443
    cipher: aes-128-gcm
    password: pass
  - name: 官网信息
    type: ss
    server: example.org
    port: 443
    cipher: aes-128-gcm
    password: pass
"#
}

fn sample_vmess_uri() -> String {
    let fields = [
        ("v", "2"),
        ("ps", "VM-01"),
        ("add", "vm.example.com"),
        ("port", "443"),
        ("id", "11111111-1111-1111-1111-111111111111"),
        ("aid", "0"),
        ("scy", "auto"),
        ("net", "ws"),
        ("type", "none"),
        ("host", "cdn.example.com"),
        ("path", "/ws"),
        ("tls", "tls"),
        ("sni", "sni.example.com"),
    ];
    let mut object = serde_json::Map::new();
    for (key, text) in fields {
        object.insert(key.to_string(), serde_json::Value::String(text.to_string()));
    }
    let raw = serde_json::Value::Object(object).to_string();
    format!("vmess://{}", general_purpose::STANDARD.encode(raw))
}

fn at<'a>(yaml: &'a Yaml, path: &[&str]) -> &'a Yaml {
    let mut here = yaml;
    for key in path {
        here = here.get(key).expect("the key should be there");
    }
    here
}

fn problem(error: SubscriptionError) -> Problem {
    match error {
        SubscriptionError::Problem(problem) => problem,
        other => panic!("{other:?}"),
    }
}

#[test]
fn parses_clash_yaml_subscription() {
    let value = parse_subscription(sample_subscription()).expect("subscription should parse");
    let proxies = read_proxy_items(&value).expect("proxies should exist");
    assert_eq!(proxies.len(), 2);
    assert_eq!(proxy_name(&proxies[0]).unwrap(), "HK-01");
}

#[test]
fn filters_proxy_names_with_include_and_exclude() {
    let includes = compile_patterns(&["HK|US".to_string()]).unwrap();
    let excludes = compile_patterns(&["官网|过期".to_string()]).unwrap();
    assert!(matches_filter("HK-01", includes.as_ref(), excludes.as_ref()));
    assert!(!matches_filter("JP-01", includes.as_ref(), excludes.as_ref()));
    assert!(!matches_filter(
        "HK-官网",
        includes.as_ref(),
        excludes.as_ref()
    ));
}

#[test]
fn builds_runtime_config_with_tun_dns_groups_and_rules() {
    let mut cfg = AppConfig::default();
    cfg.tun.enable = true;
    cfg.rules = vec![
        "DOMAIN-SUFFIX,github.com,PROXY".to_string(),
        "MATCH,DIRECT".to_string(),
    ];

    let value = parse_subscription(sample_subscription()).unwrap();
    let proxies = read_proxy_items(&value).unwrap();
    let names = proxies
        .iter()
        .map(proxy_name)
        .collect::<Result<Vec<_>, _>>()
        .unwrap();
    let runtime = build_runtime_config(&cfg, proxies, names).unwrap();

    assert_eq!(at(&runtime, &["mixed-port"]), &Yaml::Unsigned(7890));
    assert_eq!(at(&runtime, &["tun", "enable"]), &Yaml::Bool(true));
    assert_eq!(at(&runtime, &["dns", "enhanced-mode"]).as_str(), Some("fake-ip"));
    let groups = at(&runtime, &["proxy-groups"]).as_sequence().unwrap();
    assert_eq!(at(&groups[0], &["name"]).as_str(), Some("AUTO"));
    assert_eq!(at(&groups[1], &["name"]).as_str(), Some("PROXY"));
    assert_eq!(at(&runtime, &["rules"]).as_sequence().unwrap().len(), 2);
}

#[test]
fn parses_base64_uri_subscription() {
    let ss_main = general_purpose::STANDARD.encode("aes-128-gcm:pass@ss.example.com:8388");
    let lines = format!("ss://{}#SS-01\n{}", ss_main, sample_vmess_uri());
    let body = general_purpose::STANDARD.encode(lines);

    let value = parse_subscription(&body).expect("uri subscription should parse");
    let proxies = read_proxy_items(&value).expect("proxies should exist");

    assert_eq!(proxies.len(), 2);
    assert_eq!(at(&proxies[0], &["type"]).as_str(), Some("ss"));
    assert_eq!(at(&proxies[0], &["name"]).as_str(), Some("SS-01"));
    assert_eq!(at(&proxies[1], &["type"]).as_str(), Some("vmess"));
    assert_eq!(
        at(&proxies[1], &["ws-opts", "headers", "Host"]).as_str(),
        Some("cdn.example.com")
    );
}

#[test]
fn packed_yaml_gives_the_same_document() {
    let plain = parse_subscription(sample_subscription()).unwrap();
    let packed = general_purpose::STANDARD.encode(sample_subscription());
    assert_eq!(parse_subscription(&packed).unwrap(), plain);
}

#[test]
fn packed_links_give_the_same_document() {
    let list = "ss://aes-128-gcm:pass@ss.example.com:8388#one\nnot a link\n";
    let packed = general_purpose::STANDARD.encode(list);
    assert_eq!(
        parse_subscription(&packed).unwrap(),
        parse_subscription(list).unwrap()
    );
    let url_safe = general_purpose::URL_SAFE_NO_PAD.encode(list);
    assert_eq!(
        parse_subscription(&url_safe).unwrap(),
        parse_subscription(list).unwrap()
    );
}

#[test]
fn line_breaks_in_a_packed_subscription_do_not_count() {
    let list = "ss://aes-128-gcm:pass@ss.example.com:8388#one";
    let packed = general_purpose::STANDARD.encode(list);
    let (front, back) = packed.split_at(20);
    let broken = format!("{front}\r\n  {back}\n");
    assert_eq!(compact(&broken), packed);
    assert_eq!(compact(&format!("{front}\n{back}")), packed);
    assert_eq!(
        parse_subscription(&broken).unwrap(),
        parse_subscription(list).unwrap()
    );
}

#[test]
fn a_broken_link_ends_the_search() {
    let error = parse_subscription("ss://aes-128-gcm:pass@ss.example.com:port#one").unwrap_err();
    assert_eq!(problem(error).message(), "invalid digit found in string");
    let error = parse_subscription("vmess://AAAA").unwrap_err();
    assert!(matches!(error, SubscriptionError::Json(_)));
    let error = parse_subscription("vmess://*").unwrap_err();
    assert!(matches!(error, SubscriptionError::Base64(_)));
    let error = parse_subscription("vmess://gICA").unwrap_err();
    assert!(matches!(error, SubscriptionError::Utf8(_)));
}

#[test]
fn a_text_of_no_known_format_is_refused() {
    let error = parse_subscription("hello there").unwrap_err();
    assert_eq!(
        problem(error).message(),
        "subscription is not a Clash/Mihomo YAML document or supported URI list."
    );
    assert!(parse_uri_subscription("hello there").unwrap().is_none());
    assert!(parse_uri_subscription("").unwrap().is_none());
}

#[test]
fn a_document_needs_a_list_of_proxies() {
    let value = parse_subscription("proxies: none").unwrap();
    assert_eq!(
        read_proxy_items(&value).unwrap_err().message(),
        "subscription missing proxies array"
    );
    let value = parse_yaml("- a\n- b").unwrap();
    assert_eq!(read_proxy_items(&value).unwrap_err(), Problem::MissingProxies);
}

#[test]
fn a_proxy_needs_a_name() {
    let nameless = parse_yaml("{type: ss}").unwrap();
    assert_eq!(
        proxy_name(&nameless).unwrap_err().message(),
        "proxy item missing name"
    );
    let numbered = parse_yaml("{name: 1}").unwrap();
    assert_eq!(proxy_name(&numbered).unwrap_err(), Problem::MissingName);
    let tagged = parse_yaml("!node {name: !text one}").unwrap();
    assert_eq!(proxy_name(&tagged).unwrap(), "one");
}

#[test]
fn links_give_named_proxies() {
    let list = format!("ss://aes-128-gcm:pass@ss.example.com:8388\n{}", sample_vmess_uri());
    let document = parse_uri_subscription(&list).unwrap().unwrap();
    let items = read_proxy_items(&document).unwrap();
    assert_eq!(items.len(), 2);
    assert_eq!(proxy_name(&items[0]).unwrap(), "");
    assert_eq!(proxy_name(&items[1]).unwrap(), "VM-01");
}

#[test]
fn the_first_reading_with_proxies_counts() {
    let document = |name: &str| parse_yaml(&format!("proxies: [{{name: {name}}}]"));
    let other = || parse_yaml("rules: []");
    let chosen = choose_document(document("a"), document("b"), Ok(None), Ok(None)).unwrap();
    assert_eq!(Some(chosen), document("a"));
    let chosen = choose_document(other(), document("b"), Ok(document("c")), Ok(None)).unwrap();
    assert_eq!(Some(chosen), document("b"));
    let chosen = choose_document(other(), None, Ok(document("c")), Ok(document("d"))).unwrap();
    assert_eq!(Some(chosen), document("c"));
    let chosen = choose_document(None, None, Ok(None), Ok(document("d"))).unwrap();
    assert_eq!(Some(chosen), document("d"));
    let broken = || SubscriptionError::Problem(Problem::SsMissingServer);
    let error = choose_document(None, None, Err(broken()), Ok(document("d"))).unwrap_err();
    assert_eq!(problem(error), Problem::SsMissingServer);
    let error = choose_document(None, None, Ok(None), Err(broken())).unwrap_err();
    assert_eq!(problem(error), Problem::SsMissingServer);
    let invalid = |text: &str| decode_base64_to_string(text).unwrap_err();
    let (open, packed) = (invalid("*"), invalid("a*aa"));
    let expected = format!("{open:?}");
    let error = choose_document(None, None, Err(open), Err(packed)).unwrap_err();
    assert_eq!(format!("{error:?}"), expected);
    let error = choose_document(None, None, Ok(None), Ok(None)).unwrap_err();
    assert_eq!(problem(error), Problem::UnknownFormat);
}

#[test]
fn base64_of_either_alphabet_is_read() {
    assert_eq!(decode_base64_to_string("aGk").unwrap(), "hi");
    assert_eq!(decode_base64_to_string(" aGk= \n").unwrap(), "hi");
    assert_eq!(decode_base64_to_string("Pz8_Pz4-").unwrap(), "????>>");
    assert_eq!(decode_base64_to_string("").unwrap(), "");
    assert_eq!(pad_base64(" a-_ "), "a+/=");
    assert_eq!(pad_base64("ab"), "ab==");
    assert_eq!(pad_base64("abcd"), "abcd");
    assert!(matches!(
        decode_base64_to_string("a"),
        Err(SubscriptionError::Base64(_))
    ));
    assert!(matches!(
        unpack_text(Ok(vec![0x80])),
        Err(SubscriptionError::Utf8(_))
    ));
    assert_eq!(unpack_text(Ok(vec![104, 105])).unwrap(), "hi");
}

#[test]
fn every_form_of_base64_reads_back() {
    for plain in ["", "a", "ab", "abc", "????>>>>", "官网信息", "~~~~~~\n\u{7f}"] {
        let forms = [
            general_purpose::STANDARD.encode(plain),
            general_purpose::STANDARD_NO_PAD.encode(plain),
            general_purpose::URL_SAFE.encode(plain),
            general_purpose::URL_SAFE_NO_PAD.encode(plain),
        ];
        for form in forms {
            for (front, back) in [("", ""), (" \t", "\r\n"), ("\u{3000}", "\u{2003}")] {
                let text = format!("{front}{form}{back}");
                assert_eq!(decode_base64_to_string(&text).unwrap(), plain);
            }
        }
    }
}

#[test]
fn base64_has_one_spelling() {
    for broken in ["aGl=", "aR==", "a===", "====", "aGk=aGk=", "aG k=", "aGk==", "aGk=\u{e9}"] {
        assert!(matches!(
            decode_base64_to_string(broken),
            Err(SubscriptionError::Base64(_))
        ));
    }
}

#[test]
fn a_packed_document_keeps_every_key() {
    let document = "port: 1\nproxies: none\n";
    let plain = parse_subscription(document).unwrap();
    assert_eq!(Some(&plain), parse_yaml(document).as_ref());
    let packed = general_purpose::STANDARD.encode(document);
    let (front, back) = packed.split_at(7);
    let indented = format!("  {front}\n\t{back}\n");
    assert_eq!(parse_subscription(&packed).unwrap(), plain);
    assert_eq!(parse_subscription(&indented).unwrap(), plain);
}

#[test]
fn a_text_without_marks_is_no_mapping() {
    for plain in ["cHJveGllcw==", "proxies", "[proxies, a]", "- proxies", "!t proxies", ""] {
        assert!(parse_yaml(plain).unwrap().get("proxies").is_none());
    }
    for marked in ["proxies:", "? proxies", "{proxies}"] {
        assert!(parse_yaml(marked).unwrap().get("proxies").is_some());
    }
}

#[test]
fn outputs_are_read_as_utf8() {
    assert_eq!(read_output(None), None);
    assert_eq!(read_output(Some(vec![0xff])), None);
    assert_eq!(
        read_output(Some("é".as_bytes().to_vec())),
        Some("é".to_string())
    );
}

#[test]
fn no_patterns_make_no_filter() {
    assert!(compile_patterns(&[]).unwrap().is_none());
    assert!(matches_filter("anything", None, None));
    assert!(matches!(
        compile_patterns(&["(".to_string()]),
        Err(SubscriptionError::Pattern(_))
    ));
    let two = compile_patterns(&["^a".to_string(), "z$".to_string()]).unwrap();
    assert!(matches_filter("a1", two.as_ref(), None));
    assert!(matches_filter("1z", two.as_ref(), None));
    assert!(!matches_filter("1a", two.as_ref(), None));
    assert!(!matches_filter("a1", None, two.as_ref()));
    assert!(matches_filter("1a", None, two.as_ref()));
}

#[test]
fn exclusion_has_the_last_word() {
    assert!(admits(None, None));
    assert!(admits(Some(true), None));
    assert!(!admits(Some(false), None));
    assert!(!admits(None, Some(true)));
    assert!(admits(None, Some(false)));
    assert!(!admits(Some(true), Some(true)));
    assert!(admits(Some(true), Some(false)));
}
