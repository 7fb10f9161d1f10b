use serde_json::Value;
use sozune_redirectionio::guest::{
    first_step, handle_request, needs_load, Event, Loaded, Step,
};
use sozune_redirectionio::request::{build_rio_request, Request};
use sozune_redirectionio::ruleset::load_router;

/// One engine-format redirect rule in the plugin config.
const CONFIG: &str = r#"{"rules":[
    {"id":"r1","source":{"path":"/old"},"rank":0,"target":"/new","status_code":301}
]}"#;

/// A rule of an engine that matches a path as a whole.
#[derive(Clone)]
struct PathRule {
    path: String,
    target: String,
    status: u16,
}

fn decode(value: &Value) -> Option<PathRule> {
    Some(PathRule {
        path: value["source"]["path"].as_str()?.to_string(),
        target: value["target"].as_str()?.to_string(),
        status: value["status_code"].as_u64()? as u16,
    })
}

fn matching(router: &[PathRule], request: &Request) -> Vec<PathRule> {
    router
        .iter()
        .filter(|rule| Some(rule.path.as_str()) == request.path_and_query.as_deref())
        .cloned()
        .collect()
}

/// What the guest did with a request.
struct Outcome {
    next: i64,
    status: u16,
    headers: Vec<(String, String)>,
    steps: Vec<String>,
}

impl Outcome {
    fn header(&self, name: &str) -> Option<&str> {
        self.headers
            .iter()
            .find(|(n, _)| n.eq_ignore_ascii_case(name))
            .map(|(_, v)| v.as_str())
    }
}

/// Drive a request through a guest that has seen none before.
fn run(host: &str, uri: &str, config: &str) -> Outcome {
    run_on(&mut Guest::default(), host, uri, config)
}

/// What the guest keeps from one request to the next.
#[derive(Default)]
struct Guest {
    loaded: Option<Loaded>,
    router: Vec<PathRule>,
}

/// Drive a request through the guest.
fn run_on(guest: &mut Guest, host: &str, uri: &str, config: &str) -> Outcome {
    let mut outcome = Outcome {
        next: -1,
        status: 0,
        headers: Vec::new(),
        steps: Vec::new(),
    };
    let mut matched: Vec<PathRule> = Vec::new();
    let mut step = first_step();
    loop {
        let shown = format!("{:?}", step);
        outcome
            .steps
            .push(shown.split(' ').next().unwrap().to_string());
        let event = match &step {
            Step::ReadConfig => Event::Config(config.to_string()),
            Step::LoadRules { config } => {
                let router = load_router(
                    config,
                    decode,
                    || Vec::new(),
                    |mut rules: Vec<PathRule>, rule: PathRule| {
                        rules.push(rule);
                        rules
                    },
                    |rules: Vec<PathRule>, _: Option<u64>| rules,
                );
                let any = router.is_some();
                guest.router = router.unwrap_or_default();
                Event::Loaded(any)
            }
            Step::ReadHost => Event::HostValues(vec![host.to_string()]),
            Step::ReadMethod { .. } => Event::Method("GET".to_string()),
            Step::ReadUri { .. } => Event::Uri(uri.to_string()),
            Step::ReadHeaders { .. } => {
                Event::Headers(vec![("host".to_string(), host.to_string())])
            }
            Step::Match { request } => {
                matched = matching(&guest.router, request);
                Event::Matched(matched.len())
            }
            Step::BuildAction => Event::Status(matched[0].status),
            Step::SetStatus { status } => {
                outcome.status = *status;
                Event::StatusSet
            }
            Step::FilterHeaders { .. } => Event::Filtered(vec![(
                "Location".to_string(),
                matched[0].target.clone(),
            )]),
            Step::WriteHeaders { headers } => {
                outcome.headers = headers.clone();
                Event::HeadersWritten
            }
            Step::Return { next } => {
                outcome.next = *next;
                return outcome;
            }
        };
        step = handle_request(&mut guest.loaded, step, event);
    }
}

#[test]
fn local_rule_short_circuits_with_redirect() {
    let outcome = run("app.example.com", "/old", CONFIG);
    assert_eq!(outcome.next, 0);
    assert_eq!(outcome.status, 301);
    assert_eq!(outcome.header("location"), Some("/new"));
    assert_eq!(
        outcome.steps,
        vec![
            "ReadConfig",
            "LoadRules",
            "ReadHost",
            "ReadMethod",
            "ReadUri",
            "ReadHeaders",
            "Match",
            "BuildAction",
            "SetStatus",
            "FilterHeaders",
            "WriteHeaders",
            "Return",
        ]
    );
}

#[test]
fn non_matching_path_forwards() {
    let outcome = run("app.example.com", "/keep", CONFIG);
    assert_eq!(outcome.next, 1);
    assert!(outcome.header("location").is_none());
    assert_eq!(outcome.status, 0);
}

#[test]
fn empty_ruleset_forwards() {
    let outcome = run("app.example.com", "/old", "{\"rules\":[]}");
    assert_eq!(outcome.next, 1);
    assert!(outcome.header("location").is_none());
    assert_eq!(outcome.steps, vec!["ReadConfig", "LoadRules", "Return"]);
}

#[test]
fn no_config_forwards() {
    let outcome = run("app.example.com", "/old", "{}");
    assert_eq!(outcome.next, 1);
    assert!(outcome.header("location").is_none());
}

#[test]
fn a_rule_without_a_status_forwards() {
    let config = r#"{"rules":[{"source":{"path":"/old"},"target":"/new","status_code":0}]}"#;
    let outcome = run("app.example.com", "/old", config);
    assert_eq!(outcome.next, 1);
    assert!(outcome.headers.is_empty());
    assert_eq!(outcome.status, 0);
}

#[test]
fn an_event_that_does_not_answer_a_step_leaves_it() {
    assert!(matches!(
        handle_request(&mut None, first_step(), Event::Status(301)),
        Step::ReadConfig
    ));
    assert!(matches!(
        handle_request(&mut None, Step::Return { next: 1 }, Event::Loaded(true)),
        Step::Return { next: 1 }
    ));
}

#[test]
fn a_request_without_a_host_header_has_no_host() {
    let step = handle_request(&mut None, Step::ReadHost, Event::HostValues(Vec::new()));
    let step = handle_request(&mut None, step, Event::Method(String::new()));
    let step = handle_request(&mut None, step, Event::Uri("/p".to_string()));
    match handle_request(&mut None, step, Event::Headers(Vec::new())) {
        Step::Match { request } => {
            assert_eq!(request.host, None);
            assert_eq!(request.method, None);
            assert_eq!(request.scheme.as_deref(), Some("https"));
            assert_eq!(request.path_and_query.as_deref(), Some("/p"));
        }
        other => panic!("{:?}", other),
    }
}

#[test]
fn the_first_host_value_counts() {
    let values = vec!["a".to_string(), "b".to_string()];
    match handle_request(&mut None, Step::ReadHost, Event::HostValues(values)) {
        Step::ReadMethod { host } => assert_eq!(host, "a"),
        other => panic!("{:?}", other),
    }
}

#[test]
fn request_built_without_now() {
    let req = build_rio_request("example.com", "https", "GET", "/p?x=1", vec![]);
    assert!(req.created_at.is_none());
    assert_eq!(req.host.as_deref(), Some("example.com"));
}

#[test]
fn request_keeps_its_headers_as_they_are() {
    let headers = vec![
        ("X-A".to_string(), "One".to_string()),
        ("x-a".to_string(), "".to_string()),
    ];
    let req = build_rio_request("", "", "", "", headers.clone());
    assert_eq!(req.headers, headers);
    assert_eq!(req.path_and_query.as_deref(), Some(""));
    assert!(req.host.is_none() && req.scheme.is_none() && req.method.is_none());
    assert!(req.remote_addr.is_none() && req.sampling_override.is_none());
}

#[test]
fn the_router_is_built_once_while_the_config_stays() {
    let mut guest = Guest::default();
    let first = run_on(&mut guest, "h", "/old", CONFIG);
    assert!(first.steps.contains(&"LoadRules".to_string()));
    for (uri, next) in [("/old", 0), ("/keep", 1), ("/old", 0)] {
        let again = run_on(&mut guest, "h", uri, CONFIG);
        assert!(!again.steps.contains(&"LoadRules".to_string()));
        assert_eq!(again.next, next);
    }
    let answered = run_on(&mut guest, "h", "/old", CONFIG);
    assert_eq!(answered.status, 301);
    assert_eq!(answered.header("location"), Some("/new"));
}

#[test]
fn the_router_is_rebuilt_when_the_config_changes() {
    let mut guest = Guest::default();
    run_on(&mut guest, "h", "/old", CONFIG);
    let other = r#"{"rules":[{"source":{"path":"/a"},"target":"/b","status_code":302}]}"#;
    let changed = run_on(&mut guest, "h", "/a", other);
    assert!(changed.steps.contains(&"LoadRules".to_string()));
    assert_eq!(changed.status, 302);
    assert_eq!(run_on(&mut guest, "h", "/old", other).next, 1);
    let emptied = run_on(&mut guest, "h", "/a", "{}");
    assert_eq!(emptied.steps, vec!["ReadConfig", "LoadRules", "Return"]);
    let still_empty = run_on(&mut guest, "h", "/a", "{}");
    assert_eq!(still_empty.next, 1);
    assert_eq!(still_empty.steps, vec!["ReadConfig", "Return"]);
    assert_eq!(run_on(&mut guest, "h", "/old", CONFIG).status, 301);
}

#[test]
fn rules_need_loading_unless_their_config_is_loaded() {
    let config = "{}".to_string();
    assert!(needs_load(&None, &config));
    let loaded = |config: &str| {
        Some(Loaded {
            config: config.to_string(),
            any: false,
        })
    };
    assert!(!needs_load(&loaded("{}"), &config));
    assert!(needs_load(&loaded("{ }"), &config));
}

#[test]
fn status_and_headers_are_written_once() {
    let outcome = run("app.example.com", "/old", CONFIG);
    for step in ["SetStatus", "WriteHeaders"] {
        assert_eq!(outcome.steps.iter().filter(|s| *s == step).count(), 1);
    }
}
