use clash_cli::config::AppConfig;
use clash_cli::doctor::{
    answer_summary, config_finding, doctor, mihomo_process_hint, mixed_addr, proxy_url,
    system_proxy_hint, tun_route_hint, Observation, Probe, SystemProxyHint,
};
use clash_cli::selector::{ProxiesResponse, ProxyInfo};

fn lines(cfg: &AppConfig, seen: Observation) -> Vec<String> {
    doctor(cfg, seen).0.iter().map(|finding| finding.line()).collect()
}

fn shown(s: &str) -> Option<Vec<u8>> {
    Some(s.as_bytes().to_vec())
}

#[test]
fn files_and_ports_are_reported() {
    let mut cfg = AppConfig::default();
    assert_eq!(config_finding(None).line(), "[OK]   config: loaded");
    assert_eq!(config_finding(Some("broken")).line(), "[FAIL] config: broken");
    assert_eq!(lines(&cfg, Observation::Runtime(true)), ["[OK]   runtime: exists"]);
    assert_eq!(
        lines(&cfg, Observation::Runtime(false)),
        ["[FAIL] runtime: missing; run `clash-cli update` first"]
    );
    assert_eq!(
        lines(&cfg, Observation::Binary(1, false)),
        ["[INFO] mihomo binary: using PATH command `mihomo`"]
    );
    cfg.mihomo.bin = "/bin/core".to_string();
    assert_eq!(
        lines(&cfg, Observation::Binary(3, true)),
        ["[OK]   mihomo binary: /bin/core"]
    );
    assert_eq!(
        lines(&cfg, Observation::Binary(3, false)),
        ["[FAIL] mihomo binary: not found: /bin/core"]
    );
    assert_eq!(
        lines(&cfg, Observation::ControllerPort(true)),
        ["[OK]   controller tcp: 127.0.0.1:9090"]
    );
    assert_eq!(
        lines(&cfg, Observation::MixedPort(false)),
        ["[FAIL] mixed proxy tcp: 127.0.0.1:7890 is not listening"]
    );
    assert_eq!(mixed_addr(&cfg), "127.0.0.1:7890");
    assert_eq!(proxy_url(&cfg), "http://127.0.0.1:7890");
}

#[test]
fn the_controller_is_reported() {
    let cfg = AppConfig::default();
    let group = |now: Option<&str>| ProxiesResponse {
        proxies: vec![(
            "PROXY".to_string(),
            ProxyInfo {
                all: vec!["a".to_string(), "b".to_string()],
                now: now.map(|s| s.to_string()),
            },
        )],
    };
    assert_eq!(
        lines(&cfg, Observation::ControllerApi(Ok(group(Some("a"))))),
        ["[OK]   controller api: PROXY now=a candidates=2"]
    );
    assert_eq!(
        lines(&cfg, Observation::ControllerApi(Ok(group(None)))),
        ["[OK]   controller api: PROXY now=<none> candidates=2"]
    );
    assert_eq!(
        lines(&cfg, Observation::ControllerApi(Ok(ProxiesResponse { proxies: vec![] }))),
        ["[FAIL] controller api: selector `PROXY` not found"]
    );
    assert_eq!(
        lines(&cfg, Observation::ControllerApi(Err("down".to_string()))),
        ["[FAIL] controller api: down"]
    );
}

#[test]
fn requests_are_reported() {
    let mut cfg = AppConfig::default();
    let summary = answer_summary("204 No Content", 35);
    assert_eq!(summary, "HTTP 204 No Content in 35 ms");
    assert_eq!(
        lines(&cfg, Observation::Direct(Ok(summary))),
        ["[OK]   direct request: HTTP 204 No Content in 35 ms"]
    );
    assert_eq!(
        lines(&cfg, Observation::Proxied(Err("down".to_string()))),
        ["[FAIL] proxy request: down", "[INFO] tun: disabled in config"]
    );
    cfg.tun.enable = true;
    assert_eq!(
        lines(&cfg, Observation::Proxied(Err("down".to_string()))),
        ["[FAIL] proxy request: down"]
    );
    assert_eq!(
        lines(&cfg, Observation::TunRoute(shown("inet 198.18.0.1 -->"))),
        ["[OK]   tun route hint: 198.18.0.1 route/interface found"]
    );
    assert_eq!(
        lines(&cfg, Observation::TunRoute(shown("inet 198.18.0.2"))),
        ["[FAIL] tun route hint: TUN is enabled in config, but 198.18.0.1 was not found"]
    );
    assert!(!tun_route_hint(None));
    assert!(!tun_route_hint(Some(vec![0xff])));
}

#[test]
fn the_system_proxy_is_read() {
    let hint = system_proxy_hint(shown("Enabled: Yes\nServer: 10.0.0.1\nPort: 8080\n")).unwrap();
    assert_eq!(
        hint,
        SystemProxyHint {
            enabled: true,
            server: Some("10.0.0.1".to_string()),
            port: Some(8080)
        }
    );
    assert_eq!(hint.summary(), "Wi-Fi HTTP enabled=Yes server=10.0.0.1 port=8080");
    let hint = system_proxy_hint(shown("x\r\nEnabled: No\r\nServer: \r\nPort: many\r\nEnabled: Yes")).unwrap();
    assert_eq!(
        hint,
        SystemProxyHint {
            enabled: false,
            server: None,
            port: None
        }
    );
    assert_eq!(hint.summary(), "Wi-Fi HTTP enabled=No server= port=");
    assert_eq!(system_proxy_hint(shown("Server: 10.0.0.1")), None);
    assert_eq!(system_proxy_hint(None), None);
}

#[test]
fn a_system_proxy_of_another_port_is_warned_of() {
    let cfg = AppConfig::default();
    assert_eq!(
        lines(&cfg, Observation::SystemProxy(shown("Enabled: Yes\nServer: h\nPort: 8080"))),
        ["[WARN] system proxy hint: Wi-Fi HTTP proxy points to h:8080, but clash-cli mixed-port is 7890"]
    );
    assert_eq!(
        lines(&cfg, Observation::SystemProxy(shown("Enabled: Yes"))),
        ["[WARN] system proxy hint: Wi-Fi HTTP proxy points to :, but clash-cli mixed-port is 7890"]
    );
    assert_eq!(
        lines(&cfg, Observation::SystemProxy(shown("Enabled: Yes\nPort: 7890"))),
        ["[INFO] system proxy hint: Wi-Fi HTTP enabled=Yes server= port=7890"]
    );
    assert_eq!(
        lines(&cfg, Observation::SystemProxy(shown("Enabled: No\nPort: 1"))),
        ["[INFO] system proxy hint: Wi-Fi HTTP enabled=No server= port=1"]
    );
    assert!(lines(&cfg, Observation::SystemProxy(None)).is_empty());
}

#[test]
fn six_processes_are_reported() {
    let cfg = AppConfig::default();
    let output = " 1 a \n\n2 b\n3 c\n  \n4 d\n5 e\n6 f\n7 g\n";
    assert_eq!(
        mihomo_process_hint(shown(output)).unwrap(),
        ["1 a", "2 b", "3 c", "4 d", "5 e", "6 f"]
    );
    assert_eq!(
        lines(&cfg, Observation::Processes(shown("1 a\n2 b"))),
        ["[INFO] related processes: 1 a | 2 b"]
    );
    assert!(lines(&cfg, Observation::Processes(shown("\n \n"))).is_empty());
    assert!(lines(&cfg, Observation::Processes(None)).is_empty());
}

#[test]
fn probes_come_in_their_order() {
    let mut cfg = AppConfig::default();
    let course = |cfg: &AppConfig| {
        let mut probes = vec![Probe::first()];
        loop {
            let seen = match probes[probes.len() - 1] {
                Probe::Runtime => Observation::Runtime(true),
                Probe::Binary => Observation::Binary(1, true),
                Probe::ControllerPort => Observation::ControllerPort(true),
                Probe::MixedPort => Observation::MixedPort(true),
                Probe::ControllerApi => Observation::ControllerApi(Err(String::new())),
                Probe::Direct => Observation::Direct(Err(String::new())),
                Probe::Proxied => Observation::Proxied(Err(String::new())),
                Probe::TunRoute => Observation::TunRoute(None),
                Probe::SystemProxy => Observation::SystemProxy(None),
                Probe::Processes => Observation::Processes(None),
            };
            match doctor(cfg, seen).1 {
                Some(next) => probes.push(next),
                None => return probes,
            }
        }
    };
    assert_eq!(course(&cfg).len(), 9);
    assert!(!course(&cfg).contains(&Probe::TunRoute));
    cfg.tun.enable = true;
    assert_eq!(course(&cfg).len(), 10);
    assert!(course(&cfg).contains(&Probe::TunRoute));
}
