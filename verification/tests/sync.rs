use std::collections::HashMap;

use serde_json::Value;
use sozune_redirectionio::ruleset::parse_ruleset;
use sozune_redirectionio::sync::{
    build_log, build_plugin_config, fetch_rules, parse_u64, print_decimal, rules_request,
    rules_url, run, skip_line, sync_once, temp_path, write_built, BuiltConfig, Config, Reply, SyncEvent, SyncStep,
};
use sozune_redirectionio::translate::{EditorAction, EditorRule, EditorTrigger, Rule, Skip};

fn some(s: &str) -> Option<String> {
    Some(s.to_string())
}

fn config(interval: &str) -> Config {
    Config::from_env(
        some("t"),
        some("p"),
        some("/plugins/rules.json"),
        some(interval),
        some("https://api/"),
    )
    .unwrap()
}

fn reply(status: u16, status_line: &str, body: Option<&str>) -> Reply {
    Reply {
        status,
        status_line: status_line.to_string(),
        body: body.map(|s| s.to_string()),
    }
}

/// Write an engine rule.
fn encode(rule: &Rule) -> Value {
    let mut source = serde_json::Map::new();
    source.insert("path".to_string(), Value::from(rule.source.path.clone()));
    let mut map = serde_json::Map::new();
    map.insert("id".to_string(), Value::from(rule.id.clone()));
    map.insert("source".to_string(), Value::Object(source));
    map.insert("target".to_string(), Value::from(rule.target.clone()));
    Value::Object(map)
}

/// Read editor rules that redirect by their first action.
fn editor_rules(json: &str) -> Result<Vec<EditorRule>, String> {
    let value: Value = serde_json::from_str(json).map_err(|e| e.to_string())?;
    let rules = value.as_array().ok_or("not an array".to_string())?;
    Ok(rules
        .iter()
        .map(|rule| EditorRule {
            id: rule["id"].as_str().unwrap().to_string(),
            trigger: EditorTrigger {
                source: rule["trigger"]["source"].as_str().unwrap().to_string(),
                methods: Vec::new(),
            },
            actions: vec![EditorAction {
                action_type: rule["actions"][0]["type"].as_str().unwrap().to_string(),
                location: rule["actions"][0]["location"].as_str().map(|s| s.to_string()),
                status_code: rule["actions"][0]["statusCode"].as_u64().map(|n| n as u16),
            }],
            priority: 0,
            enabled: rule["enabled"].as_bool().unwrap(),
        })
        .collect())
}

fn redirect(id: &str, enabled: bool) -> EditorRule {
    EditorRule {
        id: id.to_string(),
        trigger: EditorTrigger {
            source: "/old".to_string(),
            methods: Vec::new(),
        },
        actions: vec![EditorAction {
            action_type: "redirection".to_string(),
            location: some("/new"),
            status_code: Some(301),
        }],
        priority: 0,
        enabled,
    }
}

#[test]
fn rules_url_is_well_formed() {
    assert_eq!(
        rules_url("https://api.redirection.io", "abc-123"),
        "https://api.redirection.io/rules?projectId=abc-123"
    );
    assert_eq!(
        rules_url("https://api.redirection.io/", "abc-123"),
        "https://api.redirection.io/rules?projectId=abc-123"
    );
}

#[test]
fn rules_url_drops_every_slash_at_the_end() {
    assert_eq!(rules_url("http://h///", ""), "http://h/rules?projectId=");
    assert_eq!(rules_url("///", "p/"), "/rules?projectId=p/");
    assert_eq!(rules_url("", "p"), "/rules?projectId=p");
}

#[test]
fn build_plugin_config_translates_and_wraps() {
    let editor = r#"[{
        "id":"r1","trigger":{"source":"/old"},
        "actions":[{"location":"/new","statusCode":301,"type":"redirection"}],
        "enabled":true
    }]"#;
    let cfg = build_plugin_config(editor, editor_rules, encode).unwrap().config;
    assert!(cfg.starts_with("{\"rules\":["));
    assert!(cfg.contains("\"/old\""));
    assert!(cfg.contains("\"/new\""));
}

#[test]
fn the_plugin_reads_what_the_sync_builds() {
    let decode = |_: &str| Ok(vec![redirect("a", true), redirect("b", false), redirect("c", true)]);
    let built = build_plugin_config("", decode, encode).unwrap();
    let read = parse_ruleset(&built.config, |value: &Value| {
        let id = value["id"].as_str()?.to_string();
        let path = value["source"]["path"].as_str()?.to_string();
        let target = value["target"].as_str()?.to_string();
        Some((id, path, target))
    });
    let rule = |id: &str| (id.to_string(), "/old".to_string(), "/new".to_string());
    assert_eq!(read, vec![rule("a"), rule("c")]);
}

#[test]
fn a_built_config_reports_what_was_skipped() {
    let decode = |body: &str| {
        assert_eq!(body, "body");
        Ok(vec![redirect("a", true), redirect("b", false), redirect("c", true)])
    };
    let built = build_plugin_config("body", decode, encode).unwrap();
    assert_eq!(built.translated, 2);
    assert_eq!(built.skipped, vec![("b".to_string(), Skip::Disabled)]);
    assert_eq!(
        built.log,
        vec!["skip rule b: Disabled", "translated 2 rule(s), skipped 1"]
    );
    assert_eq!(
        built.config,
        "{\"rules\":[{\"id\":\"a\",\"source\":{\"path\":\"/old\"},\"target\":\"/new\"},\
         {\"id\":\"c\",\"source\":{\"path\":\"/old\"},\"target\":\"/new\"}]}"
    );
    assert_eq!(
        build_plugin_config("", |_| Err("bad".to_string()), encode).err(),
        some("bad")
    );
}

#[test]
fn config_takes_what_the_environment_gives() {
    let cfg = Config::from_env(some("t"), some("p"), some("o"), some("5"), some("b")).unwrap();
    assert_eq!(cfg.token, "t");
    assert_eq!(cfg.project_id, "p");
    assert_eq!(cfg.out_path, "o");
    assert_eq!(cfg.interval_secs, 5);
    assert_eq!(cfg.api_base, "b");
}

#[test]
fn config_has_defaults() {
    let cfg = Config::from_env(some("t"), some("p"), None, None, None).unwrap();
    assert_eq!(cfg.out_path, "rules.json");
    assert_eq!(cfg.interval_secs, 300);
    assert_eq!(cfg.api_base, "https://api.redirection.io");
    for not_a_number in ["", "x", "-1", "5s", " 5", "18446744073709551616"] {
        let cfg = Config::from_env(some("t"), some("p"), None, some(not_a_number), None).unwrap();
        assert_eq!(cfg.interval_secs, 300, "{}", not_a_number);
    }
}

#[test]
fn config_requires_a_token_and_a_project() {
    assert_eq!(
        Config::from_env(None, some("p"), None, None, None).err(),
        some("RIO_API_TOKEN is required")
    );
    assert_eq!(
        Config::from_env(None, None, None, None, None).err(),
        some("RIO_API_TOKEN is required")
    );
    assert_eq!(
        Config::from_env(some("t"), None, None, None, None).err(),
        some("RIO_PROJECT_ID is required")
    );
}

#[test]
fn numbers_read_as_the_standard_library_reads_them() {
    let long = "0".repeat(30) + "7";
    for s in [
        "0", "00", "7", "+7", "++7", "+", "", "-0", "1_0", "1 ", "１", "18446744073709551615",
        "18446744073709551616", "99999999999999999999", "18446744073709551616x", "/", ":",
        long.as_str(),
    ] {
        assert_eq!(parse_u64(s), s.parse::<u64>().ok(), "{}", s);
    }
}

#[test]
fn the_request_names_the_project_and_the_token() {
    let request = rules_request(&config("0"));
    assert_eq!(request.url, "https://api/rules?projectId=p");
    assert_eq!(request.token, "t");
    assert_eq!(request.accept, "application/json");
}

#[test]
fn a_fetch_gives_the_body_of_a_success() {
    assert_eq!(fetch_rules(Ok(reply(200, "200 OK", Some("[]")))), Ok("[]".to_string()));
    assert_eq!(fetch_rules(Ok(reply(299, "299", Some("x")))), Ok("x".to_string()));
    assert_eq!(fetch_rules(Ok(reply(204, "204 No Content", None))), Ok(String::new()));
}

#[test]
fn a_fetch_reports_a_failure() {
    assert_eq!(
        fetch_rules(Err("timed out".to_string())),
        Err("request failed: timed out".to_string())
    );
    assert_eq!(
        fetch_rules(Ok(reply(401, "401 Unauthorized", Some("no")))),
        Err("API returned 401 Unauthorized: no".to_string())
    );
    assert_eq!(
        fetch_rules(Ok(reply(300, "300 Multiple Choices", None))),
        Err("API returned 300 Multiple Choices: ".to_string())
    );
    assert!(fetch_rules(Ok(reply(199, "199", Some("x")))).is_err());
}

/// Which step of a cycle fails.
#[derive(Clone, Copy, PartialEq)]
enum Fault {
    Nowhere,
    Request,
    Build,
    Write,
    Rename,
}

/// Drive one cycle against files in memory.
fn cycle(cfg: &Config, fault: Fault, files: &mut HashMap<String, String>) -> (String, Option<u64>) {
    let mut step = sync_once(cfg);
    loop {
        let event = match &step {
            SyncStep::Fetch { request } => {
                assert_eq!(request.url, "https://api/rules?projectId=p");
                SyncEvent::Replied(if fault == Fault::Request {
                    Err("down".to_string())
                } else {
                    Ok(reply(200, "200 OK", Some("body")))
                })
            }
            SyncStep::WriteTemp { tmp, built } => {
                assert_eq!(built.translated, 2);
                assert_eq!(built.skipped, vec![("b".to_string(), Skip::Disabled)]);
                if fault == Fault::Write {
                    files.insert(tmp.clone(), built.config[..2].to_string());
                    SyncEvent::TempWritten(Err("disk full".to_string()))
                } else {
                    files.insert(tmp.clone(), built.config.clone());
                    SyncEvent::TempWritten(Ok(()))
                }
            }
            SyncStep::Rename { tmp, path } => {
                if fault == Fault::Rename {
                    SyncEvent::Renamed(Err("denied".to_string()))
                } else {
                    let content = files.remove(tmp).unwrap();
                    files.insert(path.clone(), content);
                    SyncEvent::Renamed(Ok(()))
                }
            }
            SyncStep::Rest { report, wait_secs } => return (report.clone(), *wait_secs),
            SyncStep::Stop => panic!("stopped"),
        };
        let decode = |body: &str| {
            assert_eq!(body, "body");
            if fault == Fault::Build {
                Err("not json".to_string())
            } else {
                Ok(vec![redirect("a", true), redirect("b", false), redirect("c", true)])
            }
        };
        step = run(cfg, step, event, decode, encode);
    }
}

#[test]
fn a_successful_cycle_replaces_the_file() {
    let mut files = HashMap::new();
    files.insert("/plugins/rules.json".to_string(), "old".to_string());
    let (report, wait) = cycle(&config("60"), Fault::Nowhere, &mut files);
    assert_eq!(report, "wrote ruleset to /plugins/rules.json");
    assert_eq!(wait, Some(60));
    assert_eq!(
        files["/plugins/rules.json"],
        "{\"rules\":[{\"id\":\"a\",\"source\":{\"path\":\"/old\"},\"target\":\"/new\"},\
         {\"id\":\"c\",\"source\":{\"path\":\"/old\"},\"target\":\"/new\"}]}"
    );
    assert_eq!(files.len(), 1);
    let ids = parse_ruleset(&files["/plugins/rules.json"], |value: &Value| {
        value["id"].as_str().map(|id| id.to_string())
    });
    assert_eq!(ids, vec!["a", "c"]);
}

#[test]
fn a_failed_cycle_leaves_the_file_untouched() {
    for (fault, error) in [
        (Fault::Request, "request failed: down"),
        (Fault::Build, "not json"),
        (Fault::Write, "write /plugins/rules.json.tmp: disk full"),
        (
            Fault::Rename,
            "rename /plugins/rules.json.tmp -> /plugins/rules.json: denied",
        ),
    ] {
        let mut files = HashMap::new();
        files.insert("/plugins/rules.json".to_string(), "old".to_string());
        let (report, wait) = cycle(&config("60"), fault, &mut files);
        assert_eq!(
            report,
            format!("sync failed (keeping previous ruleset): {}", error)
        );
        assert_eq!(wait, Some(60));
        assert_eq!(files["/plugins/rules.json"], "old");
    }
}

#[test]
fn an_interval_of_zero_runs_once() {
    let cfg = config("0");
    let (_, wait) = cycle(&cfg, Fault::Nowhere, &mut HashMap::new());
    assert_eq!(wait, None);
    let rest = |wait_secs| SyncStep::Rest {
        report: String::new(),
        wait_secs,
    };
    let next = |wait_secs| run(&cfg, rest(wait_secs), SyncEvent::Rested, editor_rules, encode);
    assert!(matches!(next(None), SyncStep::Stop));
    assert!(matches!(next(Some(1)), SyncStep::Fetch { .. }));
}

#[test]
fn an_event_that_does_not_answer_leaves_the_step() {
    let cfg = config("0");
    let next = |step, event| run(&cfg, step, event, editor_rules, encode);
    assert!(matches!(
        next(sync_once(&cfg), SyncEvent::Renamed(Ok(()))),
        SyncStep::Fetch { .. }
    ));
    assert!(matches!(
        next(SyncStep::Stop, SyncEvent::Rested),
        SyncStep::Stop
    ));
}

#[test]
fn the_temporary_file_stands_beside_the_file() {
    assert_eq!(temp_path("/a/b.json"), "/a/b.json.tmp");
}

#[test]
fn what_was_built_is_written_beside_the_file() {
    let cfg = config("0");
    let built = BuiltConfig {
        config: "c".to_string(),
        translated: 0,
        skipped: Vec::new(),
        log: Vec::new(),
    };
    match write_built(&cfg, Ok(built)) {
        SyncStep::WriteTemp { tmp, built } => {
            assert_eq!(tmp, "/plugins/rules.json.tmp");
            assert_eq!(built.config, "c");
        }
        _ => panic!("not written"),
    }
    match write_built(&cfg, Err("bad".to_string())) {
        SyncStep::Rest { report, wait_secs } => {
            assert_eq!(report, "sync failed (keeping previous ruleset): bad");
            assert_eq!(wait_secs, None);
        }
        _ => panic!("not reported"),
    }
}

#[test]
fn a_skip_line_shows_the_reason_as_it_is_named() {
    for reason in [Skip::Disabled, Skip::NoRedirectAction, Skip::MissingTarget] {
        assert_eq!(
            skip_line("an id", &reason),
            format!("skip rule an id: {:?}", reason)
        );
    }
}

#[test]
fn the_log_names_each_skipped_rule_then_the_counts() {
    let skipped = vec![
        ("x".to_string(), Skip::MissingTarget),
        ("y".to_string(), Skip::NoRedirectAction),
    ];
    assert_eq!(
        build_log(10, &skipped),
        vec![
            "skip rule x: MissingTarget",
            "skip rule y: NoRedirectAction",
            "translated 10 rule(s), skipped 2",
        ]
    );
    assert_eq!(
        build_log(0, &Vec::new()),
        vec!["translated 0 rule(s), skipped 0"]
    );
}

#[test]
fn a_config_of_skipped_rules_alone_is_empty() {
    let decode = |_: &str| Ok(vec![redirect("a", false), redirect("b", false)]);
    let built = build_plugin_config("", decode, encode).unwrap();
    assert_eq!(built.config, "{\"rules\":[]}");
    assert_eq!(built.log.len(), 3);
}

#[test]
fn numbers_print_as_the_standard_library_prints_them() {
    for n in [0usize, 7, 9, 10, 99, 100, 1234567890, usize::MAX] {
        assert_eq!(print_decimal(n), n.to_string());
        assert_eq!(parse_u64(&print_decimal(n)), Some(n as u64));
    }
}
