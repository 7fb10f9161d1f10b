use serde_json::Value;
use sozune_redirectionio::translate::{
    default_enabled, print_config, split_source, to_plugin_config, translate_rule,
    translate_rules, translate_ruleset, EditorAction, EditorRule, EditorTrigger, Rule, Skip,
};

/// A captured-shape editor rule: /old -> /new, 302.
const EDITOR: &str = r#"[{
    "id":"20fdf49e-85db-461f-bde9-033974870329",
    "trigger":{"source":"/old","methods":[],"requestHeaders":[],"ipAddress":null,"sampling":null},
    "actions":[{"location":"/new","statusCode":302,"type":"redirection"}],
    "markers":[],"variables":[],"priority":10,"enabled":true,"tags":[]
}]"#;

fn text(value: &Value, key: &str) -> Option<String> {
    value.get(key).and_then(|v| v.as_str()).map(|s| s.to_string())
}

fn list<'a>(value: &'a Value, key: &str) -> Vec<&'a Value> {
    value.get(key).and_then(|v| v.as_array()).map(|a| a.iter().collect()).unwrap_or_default()
}

/// Read editor rules.
fn editor_rules(json: &str) -> Result<Vec<EditorRule>, String> {
    let value: Value = serde_json::from_str(json).map_err(|e| e.to_string())?;
    let rules = value.as_array().ok_or("not an array".to_string())?;
    Ok(rules
        .iter()
        .map(|rule| EditorRule {
            id: text(rule, "id").unwrap(),
            trigger: EditorTrigger {
                source: text(&rule["trigger"], "source").unwrap(),
                methods: list(&rule["trigger"], "methods")
                    .iter()
                    .map(|m| m.as_str().unwrap().to_string())
                    .collect(),
            },
            actions: list(rule, "actions")
                .iter()
                .map(|action| EditorAction {
                    action_type: text(action, "type").unwrap(),
                    location: text(action, "location"),
                    status_code: action["statusCode"].as_u64().map(|n| n as u16),
                })
                .collect(),
            priority: rule["priority"].as_u64().unwrap_or(0) as u16,
            enabled: rule["enabled"].as_bool().unwrap_or(default_enabled()),
        })
        .collect())
}

/// Write an engine rule.
fn encode(rule: &Rule) -> Value {
    let mut source = serde_json::Map::new();
    source.insert("path".to_string(), Value::from(rule.source.path.clone()));
    source.insert("host".to_string(), Value::from(rule.source.host.clone()));
    let mut map = serde_json::Map::new();
    map.insert("id".to_string(), Value::from(rule.id.clone()));
    map.insert("source".to_string(), Value::Object(source));
    map.insert("target".to_string(), Value::from(rule.target.clone()));
    map.insert("status_code".to_string(), Value::from(rule.status_code));
    map.insert("rank".to_string(), Value::from(rule.rank));
    Value::Object(map)
}

/// An enabled rule from `source` with these actions.
fn rule(source: &str, actions: Vec<EditorAction>) -> EditorRule {
    EditorRule {
        id: "r".to_string(),
        trigger: EditorTrigger {
            source: source.to_string(),
            methods: Vec::new(),
        },
        actions,
        priority: 0,
        enabled: true,
    }
}

fn action(action_type: &str, location: Option<&str>, status_code: Option<u16>) -> EditorAction {
    EditorAction {
        action_type: action_type.to_string(),
        location: location.map(|s| s.to_string()),
        status_code,
    }
}

#[test]
fn translates_a_simple_redirect() {
    let (rules, skipped) = translate_ruleset(EDITOR, editor_rules).unwrap();
    assert!(skipped.is_empty());
    assert_eq!(rules.len(), 1);
    let r = &rules[0];
    assert_eq!(r.source.path, "/old");
    assert_eq!(r.target.as_deref(), Some("/new"));
    assert_eq!(r.status_code, Some(302));
    assert_eq!(r.rank, 10);
}

#[test]
fn plugin_config_wraps_rules() {
    let (rules, _) = translate_ruleset(EDITOR, editor_rules).unwrap();
    let cfg = to_plugin_config(&rules, encode).unwrap();
    assert!(cfg.starts_with("{\"rules\":["));
    // And it parses back as a value with a rules array.
    let v: Value = serde_json::from_str(&cfg).unwrap();
    assert!(v["rules"].as_array().unwrap().len() == 1);
}

#[test]
fn absolute_source_splits_host_and_path() {
    let (h, p) = split_source("https://app.example.com/old");
    assert_eq!(h.as_deref(), Some("app.example.com"));
    assert_eq!(p, "/old");
    let (h2, p2) = split_source("/bare/path");
    assert!(h2.is_none());
    assert_eq!(p2, "/bare/path");
}

#[test]
fn skips_disabled_rule() {
    let json = r#"[{"id":"d","trigger":{"source":"/x"},"actions":[{"location":"/y","statusCode":301,"type":"redirection"}],"enabled":false}]"#;
    let (rules, skipped) = translate_ruleset(json, editor_rules).unwrap();
    assert!(rules.is_empty());
    assert_eq!(skipped, vec![("d".to_string(), Skip::Disabled)]);
}

#[test]
fn skips_non_redirect_action() {
    let json = r#"[{"id":"h","trigger":{"source":"/x"},"actions":[{"type":"header"}],"enabled":true}]"#;
    let (rules, skipped) = translate_ruleset(json, editor_rules).unwrap();
    assert!(rules.is_empty());
    assert_eq!(skipped, vec![("h".to_string(), Skip::NoRedirectAction)]);
}

#[test]
fn status_code_defaults_to_301() {
    let json = r#"[{"id":"n","trigger":{"source":"/x"},"actions":[{"location":"/y","type":"redirection"}],"enabled":true}]"#;
    let (rules, _) = translate_ruleset(json, editor_rules).unwrap();
    assert_eq!(rules[0].status_code, Some(301));
}

#[test]
fn source_without_a_path_gets_a_slash() {
    assert_eq!(
        split_source("http://h"),
        (Some("h".to_string()), "/".to_string())
    );
    assert_eq!(
        split_source("https://"),
        (Some(String::new()), "/".to_string())
    );
    assert_eq!(
        split_source("http:///p"),
        (Some(String::new()), "/p".to_string())
    );
}

#[test]
fn only_the_two_web_schemes_make_a_url() {
    assert_eq!(split_source("HTTPS://h/p"), (None, "HTTPS://h/p".to_string()));
    assert_eq!(split_source("ftp://h/p"), (None, "ftp://h/p".to_string()));
    assert_eq!(split_source(""), (None, String::new()));
}

#[test]
fn source_parts_rejoin() {
    for source in ["https://ä.example:8080/a/b?c=/d", "http://h//", "https://h/"] {
        let (host, path) = split_source(source);
        let scheme = &source[..source.find("://").unwrap() + 3];
        assert_eq!(format!("{}{}{}", scheme, host.unwrap(), path), source);
    }
}

#[test]
fn a_redirect_without_a_target_is_skipped() {
    let missing = rule("/x", vec![action("redirection", None, Some(301))]);
    assert_eq!(translate_rule(&missing).err(), Some(Skip::MissingTarget));
    let empty = rule("/x", vec![action("redirection", Some(""), Some(301))]);
    assert_eq!(translate_rule(&empty).err(), Some(Skip::MissingTarget));
    let none = rule("/x", Vec::new());
    assert_eq!(translate_rule(&none).err(), Some(Skip::NoRedirectAction));
}

#[test]
fn the_first_redirect_decides() {
    let first_is_empty = rule(
        "/x",
        vec![
            action("header", Some("/no"), None),
            action("redirection", None, None),
            action("redirection", Some("/y"), None),
        ],
    );
    assert_eq!(translate_rule(&first_is_empty).err(), Some(Skip::MissingTarget));
    let first_wins = rule(
        "/x",
        vec![
            action("header", Some("/no"), Some(500)),
            action("redirection", Some("/y"), Some(308)),
            action("redirection", Some("/z"), Some(307)),
        ],
    );
    let translated = translate_rule(&first_wins).unwrap();
    assert_eq!(translated.target.as_deref(), Some("/y"));
    assert_eq!(translated.status_code, Some(308));
}

#[test]
fn a_translated_rule_holds_nothing_else() {
    let mut er = rule(
        "https://h.example/p",
        vec![action("redirection", Some("/y"), Some(0))],
    );
    er.trigger.methods = vec!["GET".to_string(), "HEAD".to_string()];
    er.priority = 7;
    let r = translate_rule(&er).unwrap();
    assert_eq!(r.id, "r");
    assert_eq!(r.rank, 7);
    assert_eq!(r.status_code, Some(0));
    assert_eq!(r.source.host.as_deref(), Some("h.example"));
    assert_eq!(r.source.path, "/p");
    assert_eq!(
        r.source.methods,
        Some(vec!["GET".to_string(), "HEAD".to_string()])
    );
    assert!(r.source.scheme.is_none() && r.source.query.is_none() && r.source.sampling.is_none());
    assert!(r.markers.is_empty() && r.variables.is_empty());
    assert!(r.header_filters.is_none() && r.body_filters.is_none() && r.stop.is_none());
}

#[test]
fn no_methods_constrain_nothing() {
    let er = rule("/x", vec![action("redirection", Some("/y"), None)]);
    assert!(translate_rule(&er).unwrap().source.methods.is_none());
}

#[test]
fn every_rule_is_translated_or_reported_in_order() {
    let mut a = rule("/a", vec![action("redirection", Some("/1"), None)]);
    a.id = "a".to_string();
    let mut b = rule("/b", vec![action("redirection", Some("/2"), None)]);
    b.id = "b".to_string();
    b.enabled = false;
    let mut c = rule("/c", vec![action("redirection", Some("/3"), None)]);
    c.id = "c".to_string();
    let mut d = rule("/d", Vec::new());
    d.id = "d".to_string();
    let (rules, skipped) = translate_rules(vec![a, b, c, d]);
    let ids: Vec<&str> = rules.iter().map(|r| r.id.as_str()).collect();
    assert_eq!(ids, vec!["a", "c"]);
    assert_eq!(
        skipped,
        vec![
            ("b".to_string(), Skip::Disabled),
            ("d".to_string(), Skip::NoRedirectAction)
        ]
    );
}

#[test]
fn a_reply_that_cannot_be_read_is_passed_on() {
    let error = translate_ruleset("nonsense", editor_rules).err();
    assert_eq!(error, editor_rules("nonsense").err());
    assert!(error.unwrap().contains("line 1 column"));
}

#[test]
fn the_config_is_printed_without_spaces() {
    assert_eq!(print_config(Vec::new()).unwrap(), "{\"rules\":[]}");
    assert_eq!(
        print_config(vec![Value::from(1), Value::from("a\"b")]).unwrap(),
        "{\"rules\":[1,\"a\\\"b\"]}"
    );
}

#[test]
fn rules_are_enabled_by_default() {
    assert!(default_enabled());
}
