//! Translate redirection.io **editor** rules (the `GET /rules` Public API
//! shape) into **engine** rules (what the router consumes).
//!
//! The Public API returns `{ id, trigger, actions, priority, enabled, ... }`;
//! the engine wants `{ id, source, target, status_code, rank, ... }`.
//!
//! Scope: **redirects** (`actions[].type == "redirection"`). Anything else is
//! reported, so that the caller can log and skip it rather than drop it in
//! silence.

use serde_json::Value;
use vstd::prelude::*;
use vstd::string::StrSliceExecFns;

use crate::json;
use crate::json::{array_of, object_of, print_json, JsonTree};
use crate::text;
use crate::text::chars_of;

verus! {

/// One rule as returned by `GET /rules`. Only the fields that are translated
/// are modelled.
#[derive(Debug)]
pub struct EditorRule {
    pub id: String,
    pub trigger: EditorTrigger,
    pub actions: Vec<EditorAction>,
    pub priority: u16,
    pub enabled: bool,
}

#[derive(Debug)]
pub struct EditorTrigger {
    /// Source URL: a path (`/old`) or an absolute URL (`https://h/old`).
    pub source: String,
    pub methods: Vec<String>,
}

#[derive(Debug)]
pub struct EditorAction {
    pub action_type: String,
    pub location: Option<String>,
    pub status_code: Option<u16>,
}

/// Why a rule was skipped.
#[derive(Debug, PartialEq, Eq, Structural)]
pub enum Skip {
    Disabled,
    NoRedirectAction,
    MissingTarget,
}

/// The value of `enabled` for a rule that does not say.
pub fn default_enabled() -> (enabled: bool)
    ensures
        enabled,
{
    true
}

/// The part of an engine rule that says which requests it applies to.
///
/// Constraints that have a structure of their own (`ips`, `datetime`, `time`,
/// `headers`) are carried as the JSON text of each.
#[derive(Debug)]
pub struct Source {
    pub scheme: Option<String>,
    pub host: Option<String>,
    pub ips: Option<Vec<String>>,
    pub datetime: Option<Vec<String>>,
    pub time: Option<Vec<String>>,
    pub path: String,
    pub query: Option<String>,
    pub headers: Option<Vec<String>>,
    pub methods: Option<Vec<String>>,
    pub exclude_methods: Option<bool>,
    pub response_status_codes: Option<Vec<u16>>,
    pub exclude_response_status_codes: Option<bool>,
    pub sampling: Option<u32>,
    pub weekdays: Option<Vec<String>>,
}

/// A rule in the engine's form.
///
/// Parts that have a structure of their own (`markers`, `variables`, the
/// filters, `peer_override`, `examples`) are carried as the JSON text of each.
#[derive(Debug)]
pub struct Rule {
    pub id: String,
    pub source: Source,
    pub target: Option<String>,
    pub status_code: Option<u16>,
    pub rank: u16,
    pub markers: Vec<String>,
    pub variables: Vec<String>,
    pub body_filters: Option<Vec<String>>,
    pub header_filters: Option<Vec<String>>,
    pub log_override: Option<bool>,
    pub peer_override: Option<String>,
    pub reset: Option<bool>,
    pub stop: Option<bool>,
    pub examples: Option<Vec<String>>,
    pub redirect_unit_id: Option<String>,
    pub configuration_log_unit_id: Option<String>,
    pub configuration_reset_unit_id: Option<String>,
    pub peer_unit_id: Option<String>,
    pub target_hash: Option<String>,
}

/// What a trigger source is made of: the host of an absolute URL, and the path.
pub open spec fn source_parts(source: Seq<char>) -> (Option<Seq<char>>, Seq<char>) {
    if "https://"@.is_prefix_of(source) {
        url_parts(source.skip("https://"@.len() as int))
    } else if "http://"@.is_prefix_of(source) {
        url_parts(source.skip("http://"@.len() as int))
    } else {
        (None, source)
    }
}

/// What follows the scheme of an absolute URL: a host up to the first slash,
/// then a path, which is `/` where nothing follows the host.
pub open spec fn url_parts(rest: Seq<char>) -> (Option<Seq<char>>, Seq<char>) {
    match rest.index_of_first('/') {
        Some(i) => (Some(rest.take(i)), rest.skip(i)),
        None => (Some(rest), "/"@),
    }
}

/// Does `s` start with `prefix`?
fn starts_with(s: &Vec<char>, prefix: &str) -> (b: bool)
    ensures
        b == prefix@.is_prefix_of(s@),
{
    let p: Vec<char> = chars_of(prefix);
    if p.len() > s.len() {
        return false;
    }
    let mut i: usize = 0;
    while i < p.len()
        invariant
            p@ == prefix@,
            i <= p.len() <= s.len(),
            s@.take(i as int) == p@.take(i as int),
        decreases p.len() - i,
    {
        if s[i] != p[i] {
            assert(s@.subrange(0, p@.len() as int)[i as int] == s@[i as int]);
            return false;
        }
        assert(s@.take(i + 1) == s@.take(i as int).push(s@[i as int]));
        assert(p@.take(i + 1) == p@.take(i as int).push(p@[i as int]));
        i += 1;
    }
    assert(p@.take(p@.len() as int) == p@);
    assert(s@.subrange(0, p@.len() as int) == s@.take(p@.len() as int));
    true
}

/// Split what follows the scheme, which starts at `from`, at its first slash.
fn split_url(source: &str, chars: &Vec<char>, from: usize) -> (parts: (Option<String>, String))
    requires
        chars@ == source@,
        from <= chars.len(),
    ensures
        parts.0 is Some,
        url_parts(source@.skip(from as int)) == (Some(parts.0->0@), parts.1@),
{
    let ghost rest = source@.skip(from as int);
    proof {
        rest.index_of_first_ensures('/');
    }
    let mut i: usize = from;
    while i < chars.len()
        invariant
            chars@ == source@,
            from <= i <= chars.len(),
            rest == source@.skip(from as int),
            forall|j: int| 0 <= j < i - from ==> rest[j] != '/',
            match rest.index_of_first('/') {
                Some(index) => {
                    &&& 0 <= index < rest.len()
                    &&& rest[index] == '/'
                    &&& forall|j: int| 0 <= j < index < rest.len() ==> rest[j] != '/'
                },
                None => !rest.contains('/'),
            },
        decreases chars.len() - i,
    {
        if chars[i] == '/' {
            assert(rest[i - from] == '/');
            assert(rest.contains('/'));
            let host: String = source.substring_char(from, i).to_owned();
            let path: String = source.substring_char(i, chars.len()).to_owned();
            assert(rest.index_of_first('/') == Some(i - from));
            assert(host@ == rest.take(i - from));
            assert(path@ == rest.skip(i - from));
            return (Some(host), path);
        }
        i += 1;
    }
    let host: String = source.substring_char(from, chars.len()).to_owned();
    assert(host@ == rest);
    (Some(host), "/".to_owned())
}

/// Split a trigger source into (host, path). An absolute URL yields both; a
/// bare path yields (None, path).
pub fn split_source(source: &str) -> (parts: (Option<String>, String))
    ensures
        parts.0 is Some == source_parts(source@).0 is Some,
        parts.0 matches Some(host) ==> source_parts(source@).0 == Some(host@),
        parts.1@ == source_parts(source@).1,
{
    proof {
        reveal_strlit("https://");
        reveal_strlit("http://");
    }
    let chars: Vec<char> = chars_of(source);
    if starts_with(&chars, "https://") {
        split_url(source, &chars, 8)
    } else if starts_with(&chars, "http://") {
        split_url(source, &chars, 7)
    } else {
        (None, source.to_owned())
    }
}

/// The status of a redirect whose action does not give one.
pub const DEFAULT_STATUS: u16 = 301;

/// The position of the action that decides: the first of type `redirection`.
pub open spec fn redirect_position(actions: Seq<EditorAction>) -> Option<int> {
    actions.map_values(|action: EditorAction| action.action_type@).index_of_first("redirection"@)
}

/// The action that decides.
pub open spec fn redirect_action(rule: EditorRule) -> Option<EditorAction> {
    match redirect_position(rule.actions@) {
        Some(i) => Some(rule.actions@[i]),
        None => None,
    }
}

/// Why an editor rule is not translated, if it is not: it is disabled, no
/// action of it redirects, or the redirect leads nowhere.
pub open spec fn skip_reason(rule: EditorRule) -> Option<Skip> {
    if !rule.enabled {
        Some(Skip::Disabled)
    } else {
        match redirect_action(rule) {
            None => Some(Skip::NoRedirectAction),
            Some(action) => match action.location {
                Some(target) if target@.len() > 0 => None,
                _ => Some(Skip::MissingTarget),
            },
        }
    }
}

/// What a redirect rule says, as plain data.
pub struct RedirectView {
    pub id: Seq<char>,
    pub host: Option<Seq<char>>,
    pub path: Seq<char>,
    pub methods: Option<Seq<Seq<char>>>,
    pub target: Option<Seq<char>>,
    pub status_code: Option<u16>,
    pub rank: u16,
}

/// The redirect that an engine rule holds.
pub open spec fn redirect_of(rule: Rule) -> RedirectView {
    RedirectView {
        id: rule.id@,
        host: text::option_text(rule.source.host),
        path: rule.source.path@,
        methods: match rule.source.methods {
            Some(methods) => Some(text::texts(methods@)),
            None => None,
        },
        target: text::option_text(rule.target),
        status_code: rule.status_code,
        rank: rule.rank,
    }
}

/// The redirect that an editor rule stands for: its identifier and priority,
/// the host and path of its trigger, its methods where it names any, the
/// location of the action that decides, and its status or the default one.
pub open spec fn redirect_from(rule: EditorRule) -> RedirectView {
    let action = redirect_action(rule)->0;
    let (host, path) = source_parts(rule.trigger.source@);
    RedirectView {
        id: rule.id@,
        host,
        path,
        methods: if rule.trigger.methods@.len() == 0 {
            None
        } else {
            Some(text::texts(rule.trigger.methods@))
        },
        target: Some(action.location->0@),
        status_code: Some(
            match action.status_code {
                Some(code) => code,
                None => DEFAULT_STATUS,
            },
        ),
        rank: rule.priority,
    }
}

/// `rule` is the engine form of the editor rule `from`: the redirect that it
/// stands for, and nothing else.
pub open spec fn is_translation(from: EditorRule, rule: Rule) -> bool {
    &&& redirect_of(rule) == redirect_from(from)
    &&& is_redirect_only(rule)
}

/// A rule that has no other constraint, filter or override than a redirect has.
pub open spec fn is_redirect_only(rule: Rule) -> bool {
    &&& has_no_other_constraint(rule.source)
    &&& has_no_other_part(rule)
}

/// A source that constrains nothing but host, path and methods.
pub open spec fn has_no_other_constraint(source: Source) -> bool {
    &&& source.scheme is None
    &&& source.ips is None
    &&& source.datetime is None
    &&& source.time is None
    &&& source.query is None
    &&& source.headers is None
    &&& source.exclude_methods is None
    &&& source.response_status_codes is None
    &&& source.exclude_response_status_codes is None
    &&& source.sampling is None
    &&& source.weekdays is None
}

/// A rule that does nothing but redirect.
pub open spec fn has_no_other_part(rule: Rule) -> bool {
    &&& rule.markers@.len() == 0
    &&& rule.variables@.len() == 0
    &&& rule.body_filters is None
    &&& rule.header_filters is None
    &&& rule.log_override is None
    &&& rule.peer_override is None
    &&& rule.reset is None
    &&& rule.stop is None
    &&& rule.examples is None
    &&& rule.redirect_unit_id is None
    &&& rule.configuration_log_unit_id is None
    &&& rule.configuration_reset_unit_id is None
    &&& rule.peer_unit_id is None
    &&& rule.target_hash is None
}

/// Find the first action of type `redirection`.
fn find_redirect(actions: &Vec<EditorAction>) -> (found: Option<usize>)
    ensures
        match found {
            Some(i) => i < actions.len() && redirect_position(actions@) == Some(i as int),
            None => redirect_position(actions@) is None,
        },
{
    let wanted: String = "redirection".to_owned();
    let ghost types = actions@.map_values(|action: EditorAction| action.action_type@);
    proof {
        types.index_of_first_ensures(wanted@);
    }
    let mut i: usize = 0;
    while i < actions.len()
        invariant
            i <= actions.len(),
            wanted@ == "redirection"@,
            types == actions@.map_values(|action: EditorAction| action.action_type@),
            forall|j: int| 0 <= j < i ==> types[j] != wanted@,
            match types.index_of_first(wanted@) {
                Some(index) => {
                    &&& 0 <= index < types.len()
                    &&& types[index] == wanted@
                    &&& forall|j: int| 0 <= j < index < types.len() ==> types[j] != wanted@
                },
                None => !types.contains(wanted@),
            },
        decreases actions.len() - i,
    {
        if actions[i].action_type == wanted {
            assert(types[i as int] == wanted@);
            return Some(i);
        }
        assert(types[i as int] == actions@[i as int].action_type@);
        i += 1;
    }
    None
}

/// Copy a list of strings.
fn copy_texts(list: &Vec<String>) -> (copy: Vec<String>)
    ensures
        copy@.len() == list@.len(),
        text::texts(copy@) == text::texts(list@),
        forall|i: int| 0 <= i < copy@.len() ==> (#[trigger] copy@[i])@ == list@[i]@,
{
    let mut copy: Vec<String> = Vec::new();
    let mut i: usize = 0;
    while i < list.len()
        invariant
            i <= list.len(),
            copy@.len() == i,
            text::texts(copy@) == text::texts(list@).take(i as int),
        decreases list.len() - i,
    {
        copy.push(list[i].clone());
        let ghost longer = text::texts(list@).take(i as int).push(list@[i as int]@);
        assert(text::texts(copy@) == longer);
        assert(text::texts(list@).take(i + 1) == longer);
        i += 1;
    }
    assert forall|j: int| 0 <= j < copy@.len() implies (#[trigger] copy@[j])@ == list@[j]@ by {
        assert(text::texts(copy@)[j] == text::texts(list@)[j]);
    }
    copy
}

/// Translate one editor rule into an engine rule, or a reason it was skipped.
///
/// Only enabled rules with a `redirection` action carrying a `location` are
/// translated. `trigger.source` is split into host and path when it is an
/// absolute URL, otherwise treated as a path.
pub fn translate_rule(er: &EditorRule) -> (translated: Result<Rule, Skip>)
    ensures
        match translated {
            Ok(rule) => skip_reason(*er) is None && is_translation(*er, rule),
            Err(reason) => skip_reason(*er) == Some(reason),
        },
        translated matches Ok(rule) ==> {
            &&& rule.id@ == er.id@
            &&& rule.rank == er.priority
            &&& rule.source.methods is None <==> er.trigger.methods@.len() == 0
            &&& rule.source.methods matches Some(methods) ==> {
                &&& methods@.len() == er.trigger.methods@.len()
                &&& forall|i: int|
                    0 <= i < methods@.len() ==> (#[trigger] methods@[i])@
                        == er.trigger.methods@[i]@
            }
        },
        translated is Ok ==> er.enabled,
        translated == Err::<Rule, Skip>(Skip::Disabled) <==> !er.enabled,
{
    if !er.enabled {
        return Err(Skip::Disabled);
    }
    let redirect: &EditorAction = match find_redirect(&er.actions) {
        Some(i) => &er.actions[i],
        None => return Err(Skip::NoRedirectAction),
    };
    let target: String = match &redirect.location {
        Some(location) => location.clone(),
        None => return Err(Skip::MissingTarget),
    };
    if target.as_str().is_empty() {
        return Err(Skip::MissingTarget);
    }

    let (host, path) = split_source(er.trigger.source.as_str());
    let methods: Option<Vec<String>> = if er.trigger.methods.len() == 0 {
        None
    } else {
        Some(copy_texts(&er.trigger.methods))
    };
    let status_code: u16 = match redirect.status_code {
        Some(code) => code,
        None => DEFAULT_STATUS,
    };

    Ok(
        Rule {
            id: er.id.clone(),
            source: Source {
                scheme: None,
                host,
                ips: None,
                datetime: None,
                time: None,
                path,
                query: None,
                headers: None,
                methods,
                exclude_methods: None,
                response_status_codes: None,
                exclude_response_status_codes: None,
                sampling: None,
                weekdays: None,
            },
            target: Some(target),
            status_code: Some(status_code),
            rank: er.priority,
            markers: Vec::new(),
            variables: Vec::new(),
            body_filters: None,
            header_filters: None,
            log_override: None,
            peer_override: None,
            reset: None,
            stop: None,
            examples: None,
            redirect_unit_id: None,
            configuration_log_unit_id: None,
            configuration_reset_unit_id: None,
            peer_unit_id: None,
            target_hash: None,
        },
    )
}

/// Result of translating a ruleset: the engine rules, and the `(id, reason)`
/// pairs for rules that were skipped.
pub type TranslatedRuleset = (Vec<Rule>, Vec<(String, Skip)>);

/// The editor rules that are translated, in their order.
pub open spec fn kept_rules(rules: Seq<EditorRule>) -> Seq<EditorRule> {
    rules.filter(|rule: EditorRule| skip_reason(rule) is None)
}

/// The editor rules that are not, in their order.
pub open spec fn skipped_rules(rules: Seq<EditorRule>) -> Seq<EditorRule> {
    rules.filter(|rule: EditorRule| skip_reason(rule) is Some)
}

/// `translated` holds the engine form of each kept rule, and the identifier and
/// the reason of each skipped one, both in the order of `rules`.
pub open spec fn is_translated_ruleset(
    rules: Seq<EditorRule>,
    translated: TranslatedRuleset,
) -> bool {
    let kept = kept_rules(rules);
    let skipped = skipped_rules(rules);
    &&& translated.0@.len() == kept.len()
    &&& forall|i: int|
        0 <= i < kept.len() ==> is_translation(kept[i], #[trigger] translated.0@[i])
    &&& translated.1@.len() == skipped.len()
    &&& forall|i: int|
        0 <= i < skipped.len() ==> (#[trigger] translated.1@[i]).0@ == skipped[i].id@ && Some(
            translated.1@[i].1,
        ) == skip_reason(skipped[i])
}

/// Translate editor rules into engine rules plus a list of skipped rules and
/// why.
pub fn translate_rules(rules: Vec<EditorRule>) -> (translated: TranslatedRuleset)
    ensures
        is_translated_ruleset(rules@, translated),
{
    let mut engine: Vec<Rule> = Vec::new();
    let mut skipped: Vec<(String, Skip)> = Vec::new();
    let mut i: usize = 0;
    while i < rules.len()
        invariant
            i <= rules.len(),
            is_translated_ruleset(rules@.take(i as int), (engine, skipped)),
        decreases rules.len() - i,
    {
        proof {
            lemma_ruleset_step(rules@, i as int);
        }
        match translate_rule(&rules[i]) {
            Ok(rule) => {
                engine.push(rule);
            },
            Err(reason) => {
                skipped.push((rules[i].id.clone(), reason));
            },
        }
        i += 1;
    }
    assert(rules@.take(rules@.len() as int) == rules@);
    (engine, skipped)
}

/// `translated` is what becomes of rules read as `parsed`: their translation,
/// or the error with which they could not be read.
pub open spec fn is_translated_reply(
    parsed: Result<Vec<EditorRule>, String>,
    translated: Result<TranslatedRuleset, String>,
) -> bool {
    match (parsed, translated) {
        (Ok(rules), Ok(ruleset)) => is_translated_ruleset(rules@, ruleset),
        (Err(error), Err(reported)) => reported@ == error@,
        _ => false,
    }
}

/// Translate a `GET /rules` JSON array into engine rules plus a list of skipped
/// rules and why. `decode` reads the editor rules from the text.
pub fn translate_ruleset<D: Fn(&str) -> Result<Vec<EditorRule>, String>>(
    rules_json: &str,
    decode: D,
) -> (translated: Result<TranslatedRuleset, String>)
    requires
        decode.requires((rules_json,)),
    ensures
        exists|parsed: Result<Vec<EditorRule>, String>| #[trigger]
            decode.ensures((rules_json,), parsed) && is_translated_reply(parsed, translated) && (
            parsed is Ok <==> translated is Ok) && (parsed matches Err(error)
                ==> translated->Err_0@ == error@),
{
    match decode(rules_json) {
        Ok(rules) => Ok(translate_rules(rules)),
        Err(error) => Err(error),
    }
}

/// Reading one rule more adds it to the kept or to the skipped ones.
proof fn lemma_ruleset_step(rules: Seq<EditorRule>, i: int)
    requires
        0 <= i < rules.len(),
    ensures
        skip_reason(rules[i]) is None ==> kept_rules(rules.take(i + 1)) == kept_rules(
            rules.take(i),
        ).push(rules[i]) && skipped_rules(rules.take(i + 1)) == skipped_rules(rules.take(i)),
        skip_reason(rules[i]) is Some ==> kept_rules(rules.take(i + 1)) == kept_rules(
            rules.take(i),
        ) && skipped_rules(rules.take(i + 1)) == skipped_rules(rules.take(i)).push(rules[i]),
{
    reveal(Seq::filter);
    assert(rules.take(i + 1).drop_last() == rules.take(i));
    assert(rules.take(i + 1).last() == rules[i]);
}

/// The plugin's config that carries `rules`: `{"rules":[ ... ]}`.
pub open spec fn config_tree(rules: Seq<JsonTree>) -> JsonTree {
    json::array_under("rules"@, rules)
}

/// The text of the plugin's config that carries `rules`, by the text of each.
pub open spec fn config_text(rules: Seq<JsonTree>) -> Seq<char> {
    "{\"rules\":["@ + json::comma_joined(
        rules.map_values(|rule: JsonTree| json::json_text(rule)),
    ) + "]}"@
}

/// `text` is the plugin's config that carries `rules`. It reads back as that
/// config, where the config is rereadable.
pub open spec fn is_config_text(rules: Seq<JsonTree>, text: Seq<char>) -> bool {
    &&& text == json::json_text(config_tree(rules))
    &&& text == config_text(rules)
    &&& config_tree(rules).is_rereadable(127) ==> json::json_document(text) == Some(
        config_tree(rules),
    )
}

/// Write rules that are JSON values already as the plugin's config.
pub fn print_config(rules: Vec<Value>) -> (config: Result<String, String>)
    ensures
        config is Ok,
        is_config_text(json::json_trees(rules@), config->Ok_0@),
{
    let ghost trees = json::json_trees(rules@);
    let value: Value = object_of("rules", array_of(rules));
    proof {
        reveal_strlit("rules");
        reveal_strlit("{\"");
        reveal_strlit("\":[");
        reveal_strlit("{\"rules\":[");
        assert(json::json_tree(value) == config_tree(trees));
        assert(json::needs_no_escape("rules"@));
        assert("{\""@ + "rules"@ + "\":["@ == "{\"rules\":["@);
    }
    match print_json(&value) {
        Ok(text) => Ok(text),
        Err(error) => Err(error.to_string()),
    }
}

/// `values` are what `encode` made of each of `rules`, in their order.
pub open spec fn are_encoded<E: Fn(&Rule) -> Value>(
    rules: Seq<Rule>,
    encode: E,
    values: Seq<Value>,
) -> bool {
    &&& values.len() == rules.len()
    &&& forall|i: int|
        0 <= i < rules.len() ==> encode.ensures((&rules[i],), #[trigger] values[i])
}

/// Serialize engine rules into the plugin's config ruleset shape:
/// `{"rules":[ <rule>, ... ]}`. `encode` gives the JSON value of one rule.
pub fn to_plugin_config<E: Fn(&Rule) -> Value>(rules: &Vec<Rule>, encode: E) -> (config: Result<
    String,
    String,
>)
    requires
        forall|i: int| 0 <= i < rules@.len() ==> encode.requires((&#[trigger] rules@[i],)),
    ensures
        config is Ok,
        exists|values: Seq<Value>| #[trigger]
            are_encoded(rules@, encode, values) && is_config_text(
                json::json_trees(values),
                config->Ok_0@,
            ),
{
    let mut values: Vec<Value> = Vec::new();
    let mut i: usize = 0;
    while i < rules.len()
        invariant
            i <= rules.len(),
            forall|j: int| 0 <= j < rules@.len() ==> encode.requires((&#[trigger] rules@[j],)),
            are_encoded(rules@.take(i as int), encode, values@),
        decreases rules.len() - i,
    {
        let ghost before = values@;
        values.push(encode(&rules[i]));
        assert forall|j: int| 0 <= j < i + 1 implies encode.ensures(
            (&rules@.take(i + 1)[j],),
            #[trigger] values@[j],
        ) by {
            if j < i {
                assert(values@[j] == before[j]);
                assert(rules@.take(i as int)[j] == rules@[j]);
            }
        }
        i += 1;
    }
    assert(rules@.take(rules@.len() as int) == rules@);
    print_config(values)
}

/// A config starts with its `rules` array and ends with it; without rules it is
/// the empty one.
pub proof fn law_config_shape(rules: Seq<JsonTree>, text: Seq<char>)
    requires
        is_config_text(rules, text),
    ensures
        "{\"rules\":["@.is_prefix_of(text),
        "]}"@.is_suffix_of(text),
        rules.len() == 0 ==> text == "{\"rules\":[]}"@,
{
    reveal_strlit("{\"rules\":[");
    reveal_strlit("]}");
    reveal_strlit("{\"rules\":[]}");
    let head = "{\"rules\":["@;
    let tail = "]}"@;
    assert(text.subrange(0, head.len() as int) == head);
    assert(text.subrange(text.len() - tail.len(), text.len() as int) == tail);
    if rules.len() == 0 {
        assert(text == head + tail);
        assert(head + tail == "{\"rules\":[]}"@);
    }
}

/// No rule is lost in silence: each one is either translated or reported.
pub proof fn law_every_rule_is_accounted_for(rules: Seq<EditorRule>)
    ensures
        kept_rules(rules).len() + skipped_rules(rules).len() == rules.len(),
        forall|i: int|
            0 <= i < rules.len() ==> kept_rules(rules).contains(#[trigger] rules[i])
                || skipped_rules(rules).contains(rules[i]),
    decreases rules.len(),
{
    let n = rules.len() as int;
    assert(rules.take(n) == rules);
    if n > 0 {
        let before = rules.take(n - 1);
        law_every_rule_is_accounted_for(before);
        lemma_ruleset_step(rules, n - 1);
        let kept = kept_rules(before);
        let skipped = skipped_rules(before);
        assert forall|i: int| 0 <= i < n implies kept_rules(rules).contains(#[trigger] rules[i])
            || skipped_rules(rules).contains(rules[i]) by {
            if i < n - 1 {
                assert(before[i] == rules[i]);
                if kept.contains(rules[i]) {
                    let j = choose|j: int| 0 <= j < kept.len() && kept[j] == rules[i];
                    assert(kept_rules(rules)[j] == rules[i]);
                } else {
                    let j = choose|j: int| 0 <= j < skipped.len() && skipped[j] == rules[i];
                    assert(skipped_rules(rules)[j] == rules[i]);
                }
            } else if skip_reason(rules[i]) is None {
                assert(kept_rules(rules)[kept.len() as int] == rules[i]);
            } else {
                assert(skipped_rules(rules)[skipped.len() as int] == rules[i]);
            }
        }
    } else {
        reveal(Seq::filter);
    }
}

/// A translated rule comes from an enabled one, and redirects: it has a target
/// that is not empty, and a status.
pub proof fn law_translated_rule_redirects(from: EditorRule, rule: Rule)
    requires
        skip_reason(from) is None,
        is_translation(from, rule),
    ensures
        from.enabled,
        rule.target matches Some(target) && target@.len() > 0,
        rule.status_code is Some,
{
}

/// The parts of an absolute URL make up the URL again, but for the slash that
/// stands for a path that is not there. Its host holds no slash, and its path
/// starts with one.
pub proof fn law_source_parts_rejoin(source: Seq<char>)
    ensures
        ({
            let (host, path) = source_parts(source);
            match host {
                Some(h) => {
                    &&& !h.contains('/')
                    &&& path.len() > 0 && path[0] == '/'
                    &&& {
                        ||| source == "https://"@ + h + path
                        ||| source == "http://"@ + h + path
                        ||| path == "/"@ && source == "https://"@ + h
                        ||| path == "/"@ && source == "http://"@ + h
                    }
                },
                None => path == source,
            }
        }),
{
    reveal_strlit("https://");
    reveal_strlit("http://");
    reveal_strlit("/");
    if "https://"@.is_prefix_of(source) {
        lemma_url_parts(source.skip(8));
        assert(source == "https://"@ + source.skip(8)) by {
            assert("https://"@ == source.subrange(0, 8));
        }
        lemma_rejoin("https://"@, source.skip(8));
    } else if "http://"@.is_prefix_of(source) {
        lemma_url_parts(source.skip(7));
        assert(source == "http://"@ + source.skip(7)) by {
            assert("http://"@ == source.subrange(0, 7));
        }
        lemma_rejoin("http://"@, source.skip(7));
    }
}

proof fn lemma_url_parts(rest: Seq<char>)
    ensures
        url_parts(rest).0 matches Some(h) && !h.contains('/') && url_parts(rest).1.len() > 0
            && url_parts(rest).1[0] == '/',
{
    reveal_strlit("/");
    rest.index_of_first_ensures('/');
    let (host, path) = url_parts(rest);
    if let Some(i) = rest.index_of_first('/') {
        assert forall|j: int| 0 <= j < rest.take(i).len() implies rest.take(i)[j] != '/' by {
            assert(rest.take(i)[j] == rest[j]);
        }
    }
}

proof fn lemma_rejoin(prefix: Seq<char>, rest: Seq<char>)
    ensures
        ({
            let (host, path) = url_parts(rest);
            ||| prefix + rest == prefix + host->0 + path
            ||| path == "/"@ && prefix + rest == prefix + host->0
        }),
{
    rest.index_of_first_ensures('/');
    if let Some(i) = rest.index_of_first('/') {
        assert(prefix + rest == prefix + rest.take(i) + rest.skip(i));
    }
}

/// An absolute URL of either scheme is taken apart at the first slash after the
/// host; where there is none, the path is `/`. Anything else is a path.
pub proof fn law_source_is_taken_apart(host: Seq<char>, path: Seq<char>)
    requires
        !host.contains('/'),
    ensures
        source_parts("https://"@ + host) == (Some(host), "/"@),
        source_parts("http://"@ + host) == (Some(host), "/"@),
        source_parts("https://"@ + host + ("/"@ + path)) == (Some(host), "/"@ + path),
        source_parts("http://"@ + host + ("/"@ + path)) == (Some(host), "/"@ + path),
        source_parts("/"@ + path) == (None::<Seq<char>>, "/"@ + path),
        !"https://"@.is_prefix_of(path) && !"http://"@.is_prefix_of(path) ==> source_parts(path)
            == (None::<Seq<char>>, path),
{
    reveal_strlit("https://");
    reveal_strlit("http://");
    reveal_strlit("/");
    let tail = "/"@ + path;
    lemma_taken_apart("https://"@, host, Seq::empty());
    lemma_taken_apart("http://"@, host, Seq::empty());
    lemma_taken_apart("https://"@, host, tail);
    lemma_taken_apart("http://"@, host, tail);
    assert("https://"@ + host + Seq::<char>::empty() == "https://"@ + host);
    assert("http://"@ + host + Seq::<char>::empty() == "http://"@ + host);
    lemma_not_https(host);
    lemma_not_https(host + tail);
    assert("http://"@ + (host + tail) == "http://"@ + host + tail);
    assert(tail[0] == '/');
    assert("https://"@[0] == 'h');
    assert("http://"@[0] == 'h');
    if "https://"@.is_prefix_of(tail) {
        assert(tail.subrange(0, 8)[0] == tail[0]);
    }
    if "http://"@.is_prefix_of(tail) {
        assert(tail.subrange(0, 7)[0] == tail[0]);
    }
}

/// What follows the other scheme does not make it this one.
proof fn lemma_not_https(rest: Seq<char>)
    ensures
        !"https://"@.is_prefix_of("http://"@ + rest),
{
    reveal_strlit("https://");
    reveal_strlit("http://");
    let whole = "http://"@ + rest;
    if "https://"@.is_prefix_of(whole) {
        assert(whole.subrange(0, 8)[4] == whole[4]);
        assert(whole[4] == ':');
        assert("https://"@[4] == 's');
    }
}

proof fn lemma_taken_apart(scheme: Seq<char>, host: Seq<char>, path: Seq<char>)
    requires
        !host.contains('/'),
        path.len() == 0 || path[0] == '/',
    ensures
        scheme.is_prefix_of(scheme + host + path),
        (scheme + host + path).skip(scheme.len() as int) == host + path,
        path.len() == 0 ==> url_parts(host + path) == (Some(host), "/"@),
        path.len() > 0 ==> url_parts(host + path) == (Some(host), path),
{
    let whole = scheme + host + path;
    let rest = host + path;
    let n = host.len() as int;
    assert(whole.subrange(0, scheme.len() as int) == scheme);
    assert(whole.skip(scheme.len() as int) == rest);
    rest.index_of_first_ensures('/');
    assert forall|j: int| 0 <= j < n implies rest[j] != '/' by {
        assert(rest[j] == host[j]);
        assert(host.contains(host[j]));
    }
    if path.len() == 0 {
        assert(rest == host);
    } else {
        assert(rest[n] == '/');
        assert(rest.contains('/'));
        assert(rest.index_of_first('/') == Some(n));
        assert(rest.take(n) == host);
        assert(rest.skip(n) == path);
    }
}

/// When a rule is skipped, and why, by the action of type `redirection` that
/// comes first, at `j`: a disabled rule always, one with such an action only
/// where its location is missing or empty, whatever its other actions are.
pub proof fn law_skipped_only_for_a_reason(rule: EditorRule, j: int)
    requires
        0 <= j < rule.actions@.len(),
        rule.actions@[j].action_type@ == "redirection"@,
        forall|i: int|
            0 <= i < j ==> (#[trigger] rule.actions@[i]).action_type@ != "redirection"@,
    ensures
        !rule.enabled ==> skip_reason(rule) == Some(Skip::Disabled),
        rule.enabled && rule.actions@[j].location is None ==> skip_reason(rule) == Some(
            Skip::MissingTarget,
        ),
        rule.enabled && (rule.actions@[j].location matches Some(target) && target@.len() == 0)
            ==> skip_reason(rule) == Some(Skip::MissingTarget),
        rule.enabled && (rule.actions@[j].location matches Some(target) && target@.len() > 0)
            ==> skip_reason(rule) is None,
        redirect_action(rule) == Some(rule.actions@[j]),
{
    lemma_first_redirect(rule, j);
}

/// An enabled rule without an action of type `redirection` is skipped for that.
pub proof fn law_skipped_without_a_redirect(rule: EditorRule)
    requires
        forall|i: int|
            0 <= i < rule.actions@.len() ==> (#[trigger] rule.actions@[i]).action_type@
                != "redirection"@,
    ensures
        rule.enabled ==> skip_reason(rule) == Some(Skip::NoRedirectAction),
        !rule.enabled ==> skip_reason(rule) == Some(Skip::Disabled),
{
    let types = rule.actions@.map_values(|action: EditorAction| action.action_type@);
    types.index_of_first_ensures("redirection"@);
    assert forall|i: int| 0 <= i < types.len() implies types[i] != "redirection"@ by {
        assert(types[i] == rule.actions@[i].action_type@);
    }
}

proof fn lemma_first_redirect(rule: EditorRule, j: int)
    requires
        0 <= j < rule.actions@.len(),
        rule.actions@[j].action_type@ == "redirection"@,
        forall|i: int|
            0 <= i < j ==> (#[trigger] rule.actions@[i]).action_type@ != "redirection"@,
    ensures
        redirect_position(rule.actions@) == Some(j),
{
    let types = rule.actions@.map_values(|action: EditorAction| action.action_type@);
    types.index_of_first_ensures("redirection"@);
    assert(types[j] == "redirection"@);
    assert(types.contains("redirection"@));
    let found = types.index_of_first("redirection"@)->0;
    assert(types[found] == rule.actions@[found].action_type@);
    assert(found == j);
}

/// A translated rule leads where the first action of type `redirection`, at `j`,
/// leads, with the status of that action, or 301 where it has none.
pub proof fn law_translated_rule_leads_where_its_action_does(from: EditorRule, rule: Rule, j: int)
    requires
        skip_reason(from) is None,
        is_translation(from, rule),
        0 <= j < from.actions@.len(),
        from.actions@[j].action_type@ == "redirection"@,
        forall|i: int|
            0 <= i < j ==> (#[trigger] from.actions@[i]).action_type@ != "redirection"@,
    ensures
        from.enabled,
        from.actions@[j].location matches Some(location) && (rule.target matches Some(target)
            && target@ == location@),
        from.actions@[j].status_code matches Some(code) ==> rule.status_code == Some(code),
        from.actions@[j].status_code is None ==> rule.status_code == Some(301u16),
{
    lemma_first_redirect(from, j);
    assert(redirect_of(rule).target == text::option_text(rule.target));
}

/// A translated rule is the rule that it comes from: same identifier, same
/// priority, and methods if and only if the trigger names any, then exactly
/// those, in their order.
pub proof fn law_translated_rule_constrains_as_its_trigger(from: EditorRule, rule: Rule)
    requires
        is_translation(from, rule),
    ensures
        rule.id@ == from.id@,
        rule.rank == from.priority,
        rule.source.methods is None <==> from.trigger.methods@.len() == 0,
        rule.source.methods matches Some(methods) ==> {
            &&& methods@.len() == from.trigger.methods@.len()
            &&& forall|i: int|
                0 <= i < methods@.len() ==> (#[trigger] methods@[i])@ == from.trigger.methods@[i]@
        },
{
    if let Some(methods) = rule.source.methods {
        let copied = text::texts(methods@);
        let named = text::texts(from.trigger.methods@);
        assert(redirect_of(rule).methods == Some(copied));
        assert(copied == named);
        assert(copied.len() == methods@.len() && named.len() == from.trigger.methods@.len());
        assert forall|i: int| 0 <= i < methods@.len() implies (#[trigger] methods@[i])@
            == from.trigger.methods@[i]@ by {
            assert(copied[i] == named[i]);
        }
    } else {
        assert(redirect_of(rule).methods is None);
    }
}

/// A translated rule matches the host and the path of its trigger: `path` on any
/// host where that is the source, and on `host` alone where the source is a URL.
pub proof fn law_translated_rule_matches_its_source(
    from: EditorRule,
    rule: Rule,
    host: Seq<char>,
    path: Seq<char>,
)
    requires
        is_translation(from, rule),
        !host.contains('/'),
    ensures
        from.trigger.source@ == "/"@ + path ==> rule.source.host is None && rule.source.path@
            == "/"@ + path,
        from.trigger.source@ == "https://"@ + host + ("/"@ + path) || from.trigger.source@
            == "http://"@ + host + ("/"@ + path) ==> (rule.source.host matches Some(h) && h@
            == host) && rule.source.path@ == "/"@ + path,
        from.trigger.source@ == "https://"@ + host || from.trigger.source@ == "http://"@ + host
            ==> (rule.source.host matches Some(h) && h@ == host) && rule.source.path@ == "/"@,
        !"https://"@.is_prefix_of(from.trigger.source@) && !"http://"@.is_prefix_of(
            from.trigger.source@,
        ) ==> rule.source.host is None && rule.source.path@ == from.trigger.source@,
{
    law_source_is_taken_apart(host, path);
    assert(redirect_of(rule).host == text::option_text(rule.source.host));
}

/// A translated rule does nothing but redirect: no other constraint, no filter,
/// no override.
pub proof fn law_translated_rule_does_nothing_else(from: EditorRule, rule: Rule)
    requires
        is_translation(from, rule),
    ensures
        rule.source.scheme is None && rule.source.ips is None && rule.source.datetime is None,
        rule.source.time is None && rule.source.query is None && rule.source.headers is None,
        rule.source.exclude_methods is None && rule.source.response_status_codes is None,
        rule.source.exclude_response_status_codes is None && rule.source.sampling is None,
        rule.source.weekdays is None,
        rule.markers@.len() == 0 && rule.variables@.len() == 0,
        rule.body_filters is None && rule.header_filters is None && rule.log_override is None,
        rule.peer_override is None && rule.reset is None && rule.stop is None,
        rule.examples is None && rule.redirect_unit_id is None && rule.peer_unit_id is None,
        rule.configuration_log_unit_id is None && rule.configuration_reset_unit_id is None,
        rule.target_hash is None,
{
}

/// The redirect of a rule is read field by field.
pub proof fn law_redirect_of(rule: Rule)
    ensures
        redirect_of(rule).id == rule.id@,
        redirect_of(rule).path == rule.source.path@,
        redirect_of(rule).status_code == rule.status_code,
        redirect_of(rule).rank == rule.rank,
        rule.source.host is None <==> redirect_of(rule).host is None,
        rule.source.host matches Some(host) ==> redirect_of(rule).host == Some(host@),
        rule.target is None <==> redirect_of(rule).target is None,
        rule.target matches Some(target) ==> redirect_of(rule).target == Some(target@),
        rule.source.methods is None <==> redirect_of(rule).methods is None,
        rule.source.methods matches Some(methods) ==> {
            &&& redirect_of(rule).methods->0.len() == methods@.len()
            &&& forall|i: int|
                0 <= i < methods@.len() ==> #[trigger] redirect_of(rule).methods->0[i]
                    == methods@[i]@
        },
{
}

/// Rules are kept or skipped one by one, whatever stands around them, and stay
/// in order.
pub proof fn law_each_rule_by_itself(rules: Seq<EditorRule>, rule: EditorRule)
    ensures
        kept_rules(Seq::empty()).len() == 0,
        skipped_rules(Seq::empty()).len() == 0,
        skip_reason(rule) is None ==> kept_rules(rules.push(rule)) == kept_rules(rules).push(rule)
            && skipped_rules(rules.push(rule)) == skipped_rules(rules),
        skip_reason(rule) is Some ==> kept_rules(rules.push(rule)) == kept_rules(rules)
            && skipped_rules(rules.push(rule)) == skipped_rules(rules).push(rule),
{
    reveal(Seq::filter);
    assert(rules.push(rule).drop_last() == rules);
    let none = Seq::<EditorRule>::empty();
    assert(kept_rules(none).len() == 0);
    assert(skipped_rules(none).len() == 0);
}

/// A translated ruleset has one engine rule for each rule that is kept, and one
/// report, of its identifier and its reason, for each that is skipped.
pub proof fn law_translated_ruleset(rules: Seq<EditorRule>, translated: TranslatedRuleset)
    requires
        is_translated_ruleset(rules, translated),
    ensures
        translated.0@.len() == kept_rules(rules).len(),
        translated.1@.len() == skipped_rules(rules).len(),
        translated.0@.len() + translated.1@.len() == rules.len(),
        forall|i: int|
            0 <= i < translated.0@.len() ==> is_translation(
                kept_rules(rules)[i],
                #[trigger] translated.0@[i],
            ),
        forall|i: int|
            0 <= i < translated.1@.len() ==> (#[trigger] translated.1@[i]).0@ == skipped_rules(
                rules,
            )[i].id@ && skip_reason(skipped_rules(rules)[i]) == Some(translated.1@[i].1),
{
    law_every_rule_is_accounted_for(rules);
}

/// Each rule is encoded, in order, none left out and none added.
pub proof fn law_each_rule_is_encoded<E: Fn(&Rule) -> Value>(
    rules: Seq<Rule>,
    encode: E,
    values: Seq<Value>,
)
    requires
        are_encoded(rules, encode, values),
    ensures
        values.len() == rules.len(),
        forall|i: int|
            0 <= i < rules.len() ==> encode.ensures((&rules[i],), #[trigger] values[i]),
{
}

/// A config lists the text of each rule, in order: one rule more is written after
/// the others, behind a comma where there are any, and changes nothing else.
pub proof fn law_config_lists_each_rule(
    rules: Seq<JsonTree>,
    rule: JsonTree,
    shorter: Seq<char>,
    text: Seq<char>,
)
    requires
        is_config_text(rules, shorter),
        is_config_text(rules.push(rule), text),
    ensures
        rules.len() == 0 ==> text == shorter.take(shorter.len() - 2) + json::json_text(rule)
            + "]}"@,
        rules.len() > 0 ==> text == shorter.take(shorter.len() - 2) + ","@ + json::json_text(rule)
            + "]}"@,
{
    reveal_strlit("]}");
    let texts = rules.map_values(|r: JsonTree| json::json_text(r));
    let all = rules.push(rule).map_values(|r: JsonTree| json::json_text(r));
    assert(all.drop_last() == texts);
    assert(all.last() == json::json_text(rule));
    let head = "{\"rules\":["@;
    let before = json::comma_joined(texts);
    assert(shorter == head + before + "]}"@);
    assert(shorter.take(shorter.len() - 2) == head + before);
    if rules.len() == 0 {
        assert(head + before == head);
    } else {
        assert(text == head + (before + ","@ + json::json_text(rule)) + "]}"@);
        assert(text == head + before + ","@ + json::json_text(rule) + "]}"@);
    }
}

} // verus!
