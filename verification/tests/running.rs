use clash_cli::api::{ApiCall, ApiClient};
use clash_cli::config::AppConfig;
use clash_cli::selector::{
    candidates, choose_fastest, selector_info, BestProxy, Measurement, ProxiesResponse, ProxyInfo,
    SelectError, SwitchStep,
};
use clash_cli::supervise::{
    check_pause_secs, exit_message, gave_up_message, CheckStep, RunEvent, RunPlan, RunStep,
    WaitStep, PAUSE_MS, PROBES,
};

fn info(all: &[&str], now: Option<&str>) -> ProxyInfo {
    ProxyInfo {
        all: all.iter().map(|s| s.to_string()).collect(),
        now: now.map(|s| s.to_string()),
    }
}

fn measured(list: &[(&str, Option<u64>)]) -> Vec<Measurement> {
    list.iter()
        .map(|(name, delay)| Measurement {
            name: name.to_string(),
            delay: *delay,
        })
        .collect()
}

#[test]
fn candidates_are_the_proxies_of_the_selector() {
    let cfg = AppConfig::default();
    let group = info(&["AUTO", "a", "DIRECT", "b", "REJECT", "a"], None);
    assert_eq!(candidates(&group, &cfg.proxy).unwrap(), ["a", "b", "a"]);
    let error = candidates(&info(&["AUTO", "DIRECT"], None), &cfg.proxy).unwrap_err();
    assert_eq!(error.message(), "selector PROXY does not contain node candidates");
    let response = ProxiesResponse {
        proxies: vec![
            ("a".to_string(), info(&[], None)),
            ("PROXY".to_string(), info(&["a"], Some("a"))),
        ],
    };
    assert_eq!(selector_info(&response, &cfg.proxy).unwrap(), &info(&["a"], Some("a")));
    let empty = ProxiesResponse { proxies: vec![] };
    assert_eq!(
        selector_info(&empty, &cfg.proxy).unwrap_err().message(),
        "selector group not found: PROXY"
    );
}

#[test]
fn the_fastest_candidate_is_chosen() {
    let list = measured(&[("a", Some(90)), ("b", None), ("c", Some(40)), ("d", Some(40)), ("e", Some(100))]);
    let choice = choose_fastest(&list, 100, &None).unwrap();
    assert_eq!(choice.best, BestProxy { name: "c".to_string(), delay: 40 });
    assert!(choice.switch);
    assert_eq!(choice.best.summary(), "c (40 ms)");
    assert!(!choose_fastest(&list, 100, &Some("c".to_string())).unwrap().switch);
    assert!(choose_fastest(&list, 100, &Some("a".to_string())).unwrap().switch);
}

fn switch(response: &ProxiesResponse, delays: &[Option<u64>]) -> Result<(BestProxy, bool), SelectError> {
    let mut cfg = AppConfig::default();
    cfg.proxy.timeout_ms = 100;
    let mut step = SwitchStep::listed(response, &cfg.proxy)?;
    for delay in delays {
        step = match step {
            SwitchStep::Measure(measuring) => measuring.measured(*delay, &cfg.proxy)?,
            _ => panic!("every candidate has been measured"),
        };
    }
    match step {
        SwitchStep::Select(best) => Ok((best, true)),
        SwitchStep::Done(best) => Ok((best, false)),
        _ => panic!("some candidates have not been measured"),
    }
}

#[test]
fn every_candidate_is_measured_before_one_is_chosen() {
    let cfg = AppConfig::default();
    let response = |now: Option<&str>| ProxiesResponse {
        proxies: vec![("PROXY".to_string(), info(&["AUTO", "a", "b", "c"], now))],
    };
    let delays = [Some(30), Some(20), Some(20)];
    let best = || BestProxy { name: "b".to_string(), delay: 20 };
    assert_eq!(switch(&response(None), &delays), Ok((best(), true)));
    assert_eq!(switch(&response(Some("a")), &delays), Ok((best(), true)));
    assert_eq!(switch(&response(Some("b")), &delays), Ok((best(), false)));
    assert_eq!(
        switch(&response(None), &[None, Some(100), None]),
        Err(SelectError::NoReachable)
    );
    assert!(matches!(SwitchStep::first(), SwitchStep::List));
    match SwitchStep::selected(best()) {
        SwitchStep::Done(chosen) => assert_eq!(chosen, best()),
        _ => panic!("the proxy is selected"),
    }
    let step = SwitchStep::listed(&response(None), &cfg.proxy).unwrap();
    let mut asked = Vec::new();
    let mut next = Some(step);
    while let Some(SwitchStep::Measure(measuring)) = next {
        asked.push(measuring.candidate().to_string());
        next = measuring.measured(None, &cfg.proxy).ok();
    }
    assert_eq!(asked, ["a", "b", "c"]);
    assert_eq!(
        SwitchStep::listed(&ProxiesResponse { proxies: vec![] }, &cfg.proxy).err(),
        Some(SelectError::GroupNotFound("PROXY".to_string()))
    );
    let bare = ProxiesResponse {
        proxies: vec![("PROXY".to_string(), info(&["AUTO"], None))],
    };
    assert_eq!(
        SwitchStep::listed(&bare, &cfg.proxy).err(),
        Some(SelectError::NoCandidates("PROXY".to_string()))
    );
}

#[test]
fn slow_candidates_are_not_reachable() {
    let list = measured(&[("a", Some(100)), ("b", None)]);
    let error = choose_fastest(&list, 100, &None).unwrap_err();
    assert_eq!(error, SelectError::NoReachable);
    assert_eq!(error.message(), "no reachable proxy found");
    assert_eq!(choose_fastest(&vec![], 100, &None).unwrap_err(), SelectError::NoReachable);
    assert_eq!(choose_fastest(&list, 101, &None).unwrap().best.name, "a");
}

#[test]
fn requests_name_what_they_ask() {
    let mut cfg = AppConfig::default();
    let client = ApiClient::new(&cfg);
    let request = client.request(&ApiCall::Proxies);
    assert_eq!(request.url, "http://127.0.0.1:9090/proxies");
    assert_eq!(request.token, None);
    assert_eq!(request.content, None);

    cfg.controller.secret = "word".to_string();
    let client = ApiClient::new(&cfg);
    assert_eq!(client.auth(), Some("word".to_string()));
    let request = client.request(&ApiCall::Delay {
        name: "香 1/2".to_string(),
        test_url: "http://x/?a=b~".to_string(),
        timeout_ms: 5000,
    });
    assert_eq!(
        request.url,
        "http://127.0.0.1:9090/proxies/%E9%A6%99%201%2F2/delay?timeout=5000&url=http%3A%2F%2Fx%2F%3Fa%3Db~"
    );
    assert_eq!(request.token, Some("word".to_string()));
    assert_eq!(request.content, None);

    let request = client.request(&ApiCall::Select {
        selector: "my group".to_string(),
        name: "a b".to_string(),
    });
    assert_eq!(request.url, "http://127.0.0.1:9090/proxies/my%20group");
    assert_eq!(request.content, Some(("name".to_string(), "a b".to_string())));

    let request = client.request(&ApiCall::Reload { path: "/r.yaml".to_string() });
    assert_eq!(request.url, "http://127.0.0.1:9090/configs?force=true");
    assert_eq!(request.content, Some(("path".to_string(), "/r.yaml".to_string())));
}

#[test]
fn encoded_names_decode_to_themselves() {
    let client = ApiClient::new(&AppConfig::default());
    for name in ["plain", "a b/c?d#e%f&g", "香港-01", "~._-"] {
        let url = client
            .request(&ApiCall::Select {
                selector: name.to_string(),
                name: String::new(),
            })
            .url;
        let coded = url.strip_prefix("http://127.0.0.1:9090/proxies/").unwrap();
        assert_eq!(
            clash_cli::encoding::decode_url_component(coded),
            Some(name.to_string())
        );
    }
}

#[test]
fn answers_need_success() {
    let delay = ApiCall::Delay {
        name: "a".to_string(),
        test_url: String::new(),
        timeout_ms: 1,
    };
    let select = ApiCall::Select {
        selector: "s".to_string(),
        name: "a".to_string(),
    };
    let reload = ApiCall::Reload { path: "p".to_string() };
    let refusal = |call: &ApiCall| call.check_status(404, "404 Not Found").unwrap_err();
    assert_eq!(refusal(&ApiCall::Proxies), "GET /proxies failed: HTTP 404 Not Found");
    assert_eq!(refusal(&delay), "delay API failed for a: HTTP 404 Not Found");
    assert_eq!(refusal(&select), "select API failed: HTTP 404 Not Found");
    assert_eq!(refusal(&reload), "reload config failed: HTTP 404 Not Found");
    assert!(select.check_status(204, "204 No Content").is_ok());
    assert!(select.check_status(299, "").is_ok());
    assert!(select.check_status(199, "").is_err());
    assert!(select.check_status(300, "").is_err());
}

#[test]
fn a_check_updates_once_and_only_when_needed() {
    assert_eq!(CheckStep::first(), CheckStep::Choose);
    assert_eq!(CheckStep::Choose.next(true), CheckStep::Reachable);
    assert_eq!(CheckStep::Choose.next(false), CheckStep::Update);
    assert_eq!(CheckStep::Update.next(false), CheckStep::UpdateFailed);
    assert_eq!(CheckStep::Update.next(true), CheckStep::Reload);
    for reloaded in [true, false] {
        assert_eq!(CheckStep::Reload.next(reloaded), CheckStep::ChooseAgain);
    }
    assert_eq!(CheckStep::ChooseAgain.next(true), CheckStep::Recovered);
    assert_eq!(CheckStep::ChooseAgain.next(false), CheckStep::Unreachable);
    assert_eq!(CheckStep::Unreachable.next(true), CheckStep::Unreachable);
}

#[test]
fn the_controller_is_asked_forty_times() {
    let mut step = WaitStep::first();
    let mut asked = 0;
    let mut paused = 0;
    while step != WaitStep::GaveUp {
        match step {
            WaitStep::Probe(_) => asked += 1,
            WaitStep::Pause(_) => paused += 1,
            _ => unreachable!(),
        }
        step = step.next(false);
    }
    assert_eq!((asked, paused), (40, 40));
    assert_eq!((PROBES, PAUSE_MS), (40, 500));
    assert_eq!(WaitStep::first().next(true), WaitStep::Ready);
    assert_eq!(
        WaitStep::first().next(false).next(true).next(true),
        WaitStep::Ready
    );
    assert_eq!(gave_up_message(), "mihomo external-controller did not become ready");
}

#[test]
fn a_run_uses_the_configuration_of_an_earlier_run() {
    let plan = RunPlan::new(false, false, true);
    assert_eq!(plan, RunPlan { refresh: false, start_core: true });
    assert!(RunPlan::new(false, true, true).refresh);
    assert!(RunPlan::new(false, false, false).refresh);
    assert_eq!(RunStep::first(plan), RunStep::Guard);
}

#[test]
fn a_run_goes_through_its_steps() {
    let plan = RunPlan { refresh: true, start_core: true };
    let mut step = RunStep::first(plan);
    let mut course = vec![step];
    for _ in 0..8 {
        step = step.next(plan, RunEvent::Succeeded);
        course.push(step);
    }
    assert_eq!(
        course,
        [
            RunStep::Refresh,
            RunStep::Guard,
            RunStep::Start,
            RunStep::Wait,
            RunStep::FirstCheck,
            RunStep::Idle,
            RunStep::Check,
            RunStep::Poll,
            RunStep::Idle
        ]
    );
    assert_eq!(RunStep::Check.next(plan, RunEvent::Failed), RunStep::Poll);
    assert_eq!(RunStep::Poll.next(plan, RunEvent::Failed), RunStep::Failed);
    assert_eq!(RunStep::FirstCheck.next(plan, RunEvent::Failed), RunStep::Failed);
    assert_eq!(RunStep::Idle.next(plan, RunEvent::Interrupted), RunStep::Kill);
    assert_eq!(RunStep::Kill.next(plan, RunEvent::Failed), RunStep::Ended);
    assert_eq!(exit_message("exit status: 1"), "mihomo exited: exit status: 1");
}

#[test]
fn a_run_without_a_core_leaves_cores_alone() {
    let plan = RunPlan { refresh: false, start_core: false };
    assert_eq!(RunStep::first(plan), RunStep::Wait);
    assert_eq!(RunStep::Refresh.next(plan, RunEvent::Succeeded), RunStep::Wait);
    assert_eq!(RunStep::Check.next(plan, RunEvent::Succeeded), RunStep::Idle);
    assert_eq!(RunStep::Idle.next(plan, RunEvent::Interrupted), RunStep::Ended);
}

#[test]
fn checks_are_at_least_five_seconds_apart() {
    assert_eq!(check_pause_secs(0), 5);
    assert_eq!(check_pause_secs(5), 5);
    assert_eq!(check_pause_secs(300), 300);
}
