use base64::engine::general_purpose;
use base64::Engine;
use clash_cli::encoding::decode_url_component;
use clash_cli::error::{Problem, SubscriptionError};
use clash_cli::json::{json_string, parse_json, Json};
use clash_cli::link::{parse_ss_uri, parse_vmess_uri, split_host_port, ss_proxy, vmess_proxy};
use clash_cli::number::{decimal_text, parse_number, NumberError};
use clash_cli::text::split_once;
use clash_cli::yaml::Yaml;

fn entry(key: &str, content: Yaml) -> (Yaml, Yaml) {
    (Yaml::Text(key.to_string()), content)
}

fn text(content: &str) -> Yaml {
    Yaml::Text(content.to_string())
}

fn ss(name: &str, server: &str, port: u64, cipher: &str, password: &str) -> Yaml {
    Yaml::Mapping(vec![
        entry("name", text(name)),
        entry("type", text("ss")),
        entry("server", text(server)),
        entry("port", Yaml::Unsigned(port)),
        entry("cipher", text(cipher)),
        entry("password", text(password)),
        entry("udp", Yaml::Bool(true)),
    ])
}

fn problem_of(read: Result<Yaml, SubscriptionError>) -> Problem {
    match read {
        Err(SubscriptionError::Problem(problem)) => problem,
        other => panic!("{other:?}"),
    }
}

fn vmess(fields: &[(&str, &str)]) -> Result<Yaml, Problem> {
    let members = fields
        .iter()
        .map(|(key, content)| (key.to_string(), Json::Text(content.to_string())))
        .collect();
    vmess_proxy(&Json::Object(members))
}

#[test]
fn reads_an_open_ss_link() {
    let proxy = parse_ss_uri("ss://aes-128-gcm:p%40ss:word@ss.example.com:8388?plugin=x#%E9%A6%99").unwrap();
    assert_eq!(proxy, ss("香", "ss.example.com", 8388, "aes-128-gcm", "p@ss:word"));
}

#[test]
fn an_ss_link_reads_back() {
    let uri = "ss://chacha20%3Aietf:a%20b%23c@[2001:db8::1]:443#my%20node%2F1";
    let proxy = parse_ss_uri(uri).unwrap();
    assert_eq!(proxy, ss("my node/1", "2001:db8::1", 443, "chacha20:ietf", "a b#c"));
}

#[test]
fn a_packed_ss_link_gives_the_same_proxy() {
    let description = "aes-128-gcm:pass@ss.example.com:8388";
    let packed = general_purpose::URL_SAFE_NO_PAD.encode(description);
    assert_eq!(
        parse_ss_uri(&format!("ss://{packed}#one")).unwrap(),
        parse_ss_uri(&format!("ss://{description}#one")).unwrap()
    );
}

#[test]
fn the_name_of_an_ss_link_may_be_missing_or_unreadable() {
    let named = |uri: &str| parse_ss_uri(uri).unwrap();
    assert_eq!(named("ss://a:b@h:1"), ss("", "h", 1, "a", "b"));
    assert_eq!(named("ss://a:b@h:1#%ff"), ss("ss", "h", 1, "a", "b"));
    assert_eq!(named("ss://a%ff:b%ff@h:1#x"), ss("x", "h", 1, "a%ff", "b%ff"));
}

#[test]
fn broken_ss_links_are_refused() {
    assert_eq!(problem_of(parse_ss_uri("vmess://x")).message(), "invalid ss uri");
    let packed = |s: &str| format!("ss://{}", general_purpose::STANDARD.encode(s));
    assert_eq!(
        problem_of(parse_ss_uri(&packed("nothing"))).message(),
        "invalid ss uri: missing server"
    );
    assert_eq!(
        problem_of(parse_ss_uri("ss://user@h:1")).message(),
        "invalid ss uri: missing cipher"
    );
    assert_eq!(problem_of(parse_ss_uri("ss://a:b@h")).message(), "missing host port");
    assert_eq!(
        problem_of(parse_ss_uri("ss://a:b@h:65536")),
        Problem::Port(NumberError::TooLarge)
    );
    assert_eq!(
        problem_of(parse_ss_uri("ss://a:b@h:")).message(),
        "cannot parse integer from empty string"
    );
    assert_eq!(ss_proxy("n", "a:b@c@h:9").unwrap(), ss("n", "h", 9, "a", "b@c"));
}

#[test]
fn splits_host_and_port() {
    assert_eq!(
        split_host_port("example.com:443").unwrap(),
        ("example.com".to_string(), 443)
    );
    assert_eq!(split_host_port("[::1]:80").unwrap(), ("::1".to_string(), 80));
    assert_eq!(split_host_port("]a[:+7").unwrap(), ("a".to_string(), 7));
    assert_eq!(split_host_port("none").unwrap_err(), Problem::MissingHostPort);
    assert_eq!(
        split_host_port("h:70000").unwrap_err().message(),
        "number too large to fit in target type"
    );
    assert_eq!(
        split_host_port("h:-1").unwrap_err(),
        Problem::Port(NumberError::InvalidDigit)
    );
}

#[test]
fn splits_at_the_first_delimiter() {
    assert_eq!(split_once("a#b#c", '#'), ("a", "b#c"));
    assert_eq!(split_once("abc", '#'), ("abc", ""));
    assert_eq!(split_once("香#港", '#'), ("香", "港"));
}

#[test]
fn numbers_read_back() {
    for n in [0u32, 1, 9, 10, 443, 65535] {
        let digits: Vec<char> = decimal_text(n as u64).chars().collect();
        assert_eq!(parse_number(&digits, 65535), Ok(n));
    }
    assert_eq!(decimal_text(u64::MAX), "18446744073709551615");
    assert_eq!(parse_number(&[], 65535), Err(NumberError::Empty));
    assert_eq!(parse_number(&['+'], 65535), Err(NumberError::InvalidDigit));
    assert_eq!(parse_number(&['+', '0', '7'], 65535), Ok(7));
    assert_eq!(parse_number(&['6'; 5], 65535), Err(NumberError::TooLarge));
}

#[test]
fn percent_encoding_is_undone() {
    assert_eq!(decode_url_component("a%20b+%2"), Some("a b+%2".to_string()));
    assert_eq!(decode_url_component("%%41%4"), Some("%A%4".to_string()));
    assert_eq!(decode_url_component("%e9%a6%99"), Some("香".to_string()));
    assert_eq!(decode_url_component("%e9"), None);
    assert_eq!(decode_url_component(""), Some(String::new()));
}

#[test]
fn reads_a_full_vmess_link() {
    let proxy = vmess(&[
        ("ps", "one"),
        ("add", "vm.example.com"),
        ("port", "443"),
        ("id", "u"),
        ("aid", "4"),
        ("scy", "none"),
        ("net", "ws"),
        ("tls", "tls"),
        ("sni", "sni.example.com"),
        ("path", "/ws"),
        ("host", "cdn.example.com"),
    ])
    .unwrap();
    assert_eq!(
        proxy,
        Yaml::Mapping(vec![
            entry("name", text("one")),
            entry("type", text("vmess")),
            entry("server", text("vm.example.com")),
            entry("port", Yaml::Unsigned(443)),
            entry("uuid", text("u")),
            entry("alterId", Yaml::Unsigned(4)),
            entry("cipher", text("none")),
            entry("udp", Yaml::Bool(true)),
            entry("tls", Yaml::Bool(true)),
            entry("servername", text("sni.example.com")),
            entry("network", text("ws")),
            entry(
                "ws-opts",
                Yaml::Mapping(vec![
                    entry("path", text("/ws")),
                    entry(
                        "headers",
                        Yaml::Mapping(vec![entry("Host", text("cdn.example.com"))])
                    ),
                ])
            ),
        ])
    );
}

#[test]
fn a_short_vmess_link_gets_defaults() {
    let packed = general_purpose::STANDARD.encode(r#"{"add":"h","port":80,"id":7,"aid":"x","net":"tcp","tls":"none"}"#);
    let proxy = parse_vmess_uri(&format!("vmess://{packed}")).unwrap();
    assert_eq!(
        proxy,
        Yaml::Mapping(vec![
            entry("name", text("vmess")),
            entry("type", text("vmess")),
            entry("server", text("h")),
            entry("port", Yaml::Unsigned(80)),
            entry("uuid", text("7")),
            entry("alterId", Yaml::Unsigned(0)),
            entry("cipher", text("auto")),
            entry("udp", Yaml::Bool(true)),
        ])
    );
    let grpc = vmess(&[("add", "h"), ("port", "1"), ("id", "u"), ("net", "grpc"), ("path", "/p")]).unwrap();
    assert_eq!(grpc.get("network").unwrap().as_str(), Some("grpc"));
    assert!(grpc.get("ws-opts").is_none());
    let bare = vmess(&[("add", "h"), ("port", "1"), ("id", "u"), ("net", "ws"), ("path", "")]).unwrap();
    assert!(bare.get("ws-opts").is_none());
    assert!(bare.get("tls").is_none());
}

#[test]
fn broken_vmess_links_are_refused() {
    assert_eq!(problem_of(parse_vmess_uri("ss://x")).message(), "invalid vmess uri");
    assert_eq!(vmess(&[]).unwrap_err().message(), "vmess missing add");
    assert_eq!(vmess(&[("add", "h")]).unwrap_err().message(), "vmess missing port");
    assert_eq!(
        vmess(&[("add", "h"), ("port", "x")]).unwrap_err(),
        Problem::Port(NumberError::InvalidDigit)
    );
    assert_eq!(
        vmess(&[("add", "h"), ("port", "1")]).unwrap_err().message(),
        "vmess missing id"
    );
    assert_eq!(vmess_proxy(&Json::Other).unwrap_err(), Problem::VmessMissingAdd);
}

#[test]
fn json_texts_are_strings_and_numbers() {
    let json = parse_json(r#"{"a":"x","b":1.50,"c":-3,"d":true,"e":["x"],"f":null}"#).unwrap();
    assert_eq!(json_string(&json, "a"), Some("x".to_string()));
    assert_eq!(json_string(&json, "b"), Some("1.5".to_string()));
    assert_eq!(json_string(&json, "c"), Some("-3".to_string()));
    assert_eq!(json_string(&json, "d"), None);
    assert_eq!(json_string(&json, "e"), None);
    assert_eq!(json_string(&json, "f"), None);
    assert_eq!(json_string(&json, "g"), None);
    assert!(parse_json("{").is_err());
    assert_eq!(json_string(&parse_json("[]").unwrap(), "a"), None);
}
