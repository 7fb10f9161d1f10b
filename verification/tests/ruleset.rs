use serde_json::Value;
use sozune_redirectionio::ruleset::{
    build_router, decode_entries, keep_decoded, load_router, parse_ruleset, CACHE_LIMIT,
};
use sozune_redirectionio::translate::print_config;

/// A minimal engine-format redirect rule: /old -> /new, 301.
const RULESET: &str = r#"{"rules":[
    {"id":"r1","source":{"path":"/old"},"rank":0,"target":"/new","status_code":301}
]}"#;

#[derive(Debug, Clone, PartialEq)]
struct Source {
    path: String,
}

#[derive(Debug, Clone, PartialEq)]
struct EngineRule {
    id: String,
    source: Source,
    target: Option<String>,
    status_code: Option<u16>,
}

/// Read an engine-format rule.
fn decode(value: &Value) -> Option<EngineRule> {
    value["rank"].as_u64()?;
    Some(EngineRule {
        id: value["id"].as_str()?.to_string(),
        source: Source {
            path: value["source"]["path"].as_str()?.to_string(),
        },
        target: value["target"].as_str().map(|s| s.to_string()),
        status_code: value["status_code"].as_u64().map(|n| n as u16),
    })
}

/// A router that remembers how it was built.
type Log = Vec<String>;

fn build(rules: Vec<EngineRule>) -> Option<Log> {
    build_router(
        rules,
        || vec!["empty".to_string()],
        |mut log: Log, rule: EngineRule| {
            log.push(rule.id);
            log
        },
        |mut log: Log, limit: Option<u64>| {
            log.push(format!("cache {:?}", limit));
            log
        },
    )
}

#[test]
fn parses_ruleset_into_rules() {
    let rules = parse_ruleset(RULESET, decode);
    assert_eq!(rules.len(), 1);
    assert_eq!(rules[0].id, "r1");
    assert_eq!(rules[0].source.path, "/old");
    assert_eq!(rules[0].target.as_deref(), Some("/new"));
    assert_eq!(rules[0].status_code, Some(301));
}

#[test]
fn empty_or_missing_rules_yields_no_router() {
    assert!(parse_ruleset("{}", decode).is_empty());
    assert!(parse_ruleset(r#"{"rules":[]}"#, decode).is_empty());
    assert!(build(parse_ruleset(r#"{"rules":[]}"#, decode)).is_none());
}

#[test]
fn skips_malformed_rule_keeps_valid_one() {
    let cfg = r#"{"rules":[{"bad":true},{"id":"ok","source":{"path":"/x"},"rank":0,"target":"/y","status_code":302}]}"#;
    let rules = parse_ruleset(cfg, decode);
    assert_eq!(rules.len(), 1);
    assert_eq!(rules[0].id, "ok");
}

#[test]
fn a_config_without_a_rules_array_holds_no_rules() {
    for config in ["", "not json", "{} {}", "[]", "3", r#"{"rules":{}}"#, r#"{"rules":null}"#] {
        assert!(parse_ruleset(config, decode).is_empty(), "{}", config);
    }
}

#[test]
fn entries_are_decoded_in_order() {
    let config: Value = serde_json::from_str(r#"{"rules":[3,"x",1],"more":[9]}"#).unwrap();
    assert_eq!(
        decode_entries(&config, |v: &Value| v.as_u64()),
        vec![Some(3), None, Some(1)]
    );
}

#[test]
fn decoded_rules_are_kept_in_order() {
    assert_eq!(keep_decoded(vec![Some(2), None, Some(1), None]), vec![2, 1]);
    assert_eq!(keep_decoded(Vec::<Option<u8>>::new()), Vec::<u8>::new());
}

#[test]
fn a_router_gets_each_rule_in_order_and_is_cached_last() {
    let config = r#"{"rules":[
        {"id":"b","source":{"path":"/b"},"rank":0},
        {"id":"a","source":{"path":"/a"},"rank":1}
    ]}"#;
    let limit = format!("cache Some({})", CACHE_LIMIT);
    assert_eq!(CACHE_LIMIT, 100);
    assert_eq!(
        build(parse_ruleset(config, decode)),
        Some(vec![
            "empty".to_string(),
            "b".to_string(),
            "a".to_string(),
            limit
        ])
    );
}

#[test]
fn loading_is_parsing_then_building() {
    let load = |config: &str| {
        load_router(
            config,
            decode,
            || Vec::new(),
            |mut ids: Log, rule: EngineRule| {
                ids.push(rule.id);
                ids
            },
            |ids: Log, _: Option<u64>| ids,
        )
    };
    assert_eq!(load(RULESET), Some(vec!["r1".to_string()]));
    assert_eq!(load("{}"), None);
    assert_eq!(load(r#"{"rules":[{"bad":true}]}"#), None);
}

#[test]
fn a_printed_config_reads_back() {
    let rules: Value = serde_json::from_str(
        r#"[{"id":"é\n\"","rank":65535,"x":-9223372036854775808,"y":18446744073709551615},
            [true,null,[],{}],"text"]"#,
    )
    .unwrap();
    let rules: Vec<Value> = rules.as_array().unwrap().clone();
    let text = print_config(rules.clone()).unwrap();
    assert_eq!(parse_ruleset(&text, |v: &Value| Some(v.clone())), rules);
}

#[test]
fn the_parser_accepts_the_depth_that_read_back_is_stated_for() {
    // The config adds an object and an array around each rule.
    let mut deep = Value::from(1);
    for _ in 0..125 {
        deep = Value::from(vec![deep]);
    }
    let text = print_config(vec![deep.clone()]).unwrap();
    assert_eq!(parse_ruleset(&text, |v: &Value| Some(v.clone())), vec![deep.clone()]);
    let deeper = print_config(vec![Value::from(vec![deep])]).unwrap();
    assert!(parse_ruleset(&deeper, |v: &Value| Some(v.clone())).is_empty());
}

#[test]
fn a_key_kept_for_raw_values_does_not_read_back() {
    let rules = |text: &str| {
        let value = Value::from(text);
        let object = Value::from_iter([("$serde_json::private::RawValue", value)]);
        let text = print_config(vec![object]).unwrap();
        parse_ruleset(&text, |v: &Value| Some(v.clone()))
    };
    assert_eq!(rules("7"), vec![Value::from(7)]);
    assert_eq!(rules("no json"), Vec::<Value>::new());
}
