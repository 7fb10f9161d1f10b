//! Rule sync: pull the project's rules from the redirection.io Public API,
//! translate them into the engine's form, and write them to the file that the
//! plugin reads. This module decides; the sync binary performs each step and
//! hands back what came of it.

use serde_json::Value;
use vstd::prelude::*;
use vstd::string::{StrSliceExecFns, StringExecFns};

use crate::json;
use crate::ruleset;
use crate::text;
use crate::text::chars_of;
use crate::translate;
use crate::translate::{to_plugin_config, translate_ruleset, EditorRule, Rule, Skip};

verus! {

/// Seconds between syncs where nothing else is configured.
pub const DEFAULT_INTERVAL_SECS: u64 = 300;

/// What the sync is configured with.
pub struct Config {
    pub token: String,
    pub project_id: String,
    pub out_path: String,
    pub interval_secs: u64,
    pub api_base: String,
}

/// The value of a string of decimal digits.
pub open spec fn decimal_value(digits: Seq<char>) -> nat
    decreases digits.len(),
{
    if digits.len() == 0 {
        0
    } else {
        decimal_value(digits.drop_last()) * 10 + (digits.last() as nat - '0' as nat) as nat
    }
}

pub open spec fn is_digit(c: char) -> bool {
    '0' <= c <= '9'
}

/// Is this one or more decimal digits?
pub open spec fn are_digits(s: Seq<char>) -> bool {
    &&& s.len() > 0
    &&& forall|i: int| 0 <= i < s.len() ==> is_digit(#[trigger] s[i])
}

/// A text without the plus sign that it may start with.
pub open spec fn without_plus(s: Seq<char>) -> Seq<char> {
    if s.len() > 0 && s[0] == '+' {
        s.skip(1)
    } else {
        s
    }
}

/// The number that a text is: decimal digits, after a plus sign or not, of a
/// value that fits 64 bits.
pub open spec fn u64_of(s: Seq<char>) -> Option<nat> {
    let digits = without_plus(s);
    if are_digits(digits) && decimal_value(digits) <= u64::MAX {
        Some(decimal_value(digits))
    } else {
        None
    }
}

/// A number has no smaller value than what it starts with.
proof fn lemma_decimal_prefix(digits: Seq<char>, n: int)
    requires
        are_digits(digits),
        0 <= n <= digits.len(),
    ensures
        decimal_value(digits.take(n)) <= decimal_value(digits),
    decreases digits.len() - n,
{
    if n == digits.len() {
        assert(digits.take(n) == digits);
    } else {
        assert(digits.take(n + 1).drop_last() == digits.take(n));
        lemma_decimal_prefix(digits, n + 1);
    }
}

/// Read a number of 64 bits.
pub fn parse_u64(s: &str) -> (number: Option<u64>)
    ensures
        match number {
            Some(n) => u64_of(s@) == Some(n as nat),
            None => u64_of(s@) is None,
        },
{
    let chars: Vec<char> = chars_of(s);
    let start: usize = if chars.len() > 0 && chars[0] == '+' {
        1
    } else {
        0
    };
    let ghost digits = without_plus(s@);
    assert(digits == s@.skip(start as int));
    if start == chars.len() {
        return None;
    }
    let mut value: u64 = 0;
    let mut i: usize = start;
    assert(digits.take(0) == Seq::<char>::empty());
    while i < chars.len()
        invariant
            chars@ == s@,
            start <= i <= chars.len(),
            start < chars.len(),
            digits == without_plus(s@),
            digits == s@.skip(start as int),
            forall|j: int| 0 <= j < i - start ==> is_digit(#[trigger] digits[j]),
            value == decimal_value(digits.take(i - start)),
        decreases chars.len() - i,
    {
        let c: char = chars[i];
        assert(digits[i - start] == c);
        if !('0' <= c && c <= '9') {
            assert(!is_digit(digits[i - start]));
            return None;
        }
        let digit: u64 = (c as u32 - '0' as u32) as u64;
        assert(digits.take(i - start + 1).drop_last() == digits.take(i - start));
        assert(decimal_value(digits.take(i - start + 1)) == value * 10 + digit);
        if value > (u64::MAX - digit) / 10 {
            proof {
                if are_digits(digits) {
                    lemma_decimal_prefix(digits, i - start + 1);
                }
            }
            return None;
        }
        value = value * 10 + digit;
        i += 1;
    }
    assert(digits.take(digits.len() as int) == digits);
    Some(value)
}

/// The digit of a number below ten.
pub open spec fn digit_of(d: nat) -> char {
    ('0' as nat + d) as char
}

/// A number in decimal digits.
pub open spec fn decimal_text(n: nat) -> Seq<char>
    decreases n,
{
    if n < 10 {
        seq![digit_of(n)]
    } else {
        decimal_text(n / 10).push(digit_of(n % 10))
    }
}

fn digit_text(d: usize) -> (text: &'static str)
    requires
        d < 10,
    ensures
        text@ == seq![digit_of(d as nat)],
{
    proof {
        reveal_strlit("0");
        reveal_strlit("1");
        reveal_strlit("2");
        reveal_strlit("3");
        reveal_strlit("4");
        reveal_strlit("5");
        reveal_strlit("6");
        reveal_strlit("7");
        reveal_strlit("8");
        reveal_strlit("9");
    }
    match d {
        0 => "0",
        1 => "1",
        2 => "2",
        3 => "3",
        4 => "4",
        5 => "5",
        6 => "6",
        7 => "7",
        8 => "8",
        _ => "9",
    }
}

/// Write a number in decimal digits.
pub fn print_decimal(n: usize) -> (text: String)
    ensures
        text@ == decimal_text(n as nat),
    decreases n,
{
    let mut text: String = if n < 10 {
        String::new()
    } else {
        print_decimal(n / 10)
    };
    text.append(digit_text(n % 10));
    text
}

/// A number that is written in decimal digits reads back.
pub proof fn law_decimal_reads_back(n: nat)
    ensures
        are_digits(decimal_text(n)),
        decimal_value(decimal_text(n)) == n,
        n <= u64::MAX ==> u64_of(decimal_text(n)) == Some(n),
    decreases n,
{
    let text = decimal_text(n);
    if n < 10 {
        assert(text.drop_last() == Seq::<char>::empty());
        assert(decimal_value(text.drop_last()) == 0);
    } else {
        law_decimal_reads_back(n / 10);
        assert(text.drop_last() == decimal_text(n / 10));
    }
    assert(is_digit(text[0]));
}

/// A variable of the environment, or what stands for it where it is not set.
pub open spec fn or_default(variable: Option<String>, default: Seq<char>) -> Seq<char> {
    match variable {
        Some(value) => value@,
        None => default,
    }
}

/// The configured interval; a value that is not a number counts as not set.
pub open spec fn interval_of(variable: Option<String>) -> nat {
    match variable {
        Some(value) => match u64_of(value@) {
            Some(n) => n,
            None => DEFAULT_INTERVAL_SECS as nat,
        },
        None => DEFAULT_INTERVAL_SECS as nat,
    }
}

impl Config {
    /// The config that the environment gives, by the values of `RIO_API_TOKEN`,
    /// `RIO_PROJECT_ID`, `RIO_OUT`, `RIO_INTERVAL` and `RIO_API_BASE`, each None
    /// where the variable is not set. The first two are required.
    pub fn from_env(
        token: Option<String>,
        project_id: Option<String>,
        out_path: Option<String>,
        interval: Option<String>,
        api_base: Option<String>,
    ) -> (config: Result<Config, String>)
        ensures
            match config {
                Ok(cfg) => {
                    &&& token matches Some(t) && cfg.token@ == t@
                    &&& project_id matches Some(p) && cfg.project_id@ == p@
                    &&& cfg.out_path@ == or_default(out_path, "rules.json"@)
                    &&& cfg.interval_secs == interval_of(interval)
                    &&& cfg.api_base@ == or_default(api_base, "https://api.redirection.io"@)
                },
                Err(message) => if token is None {
                    message@ == "RIO_API_TOKEN is required"@
                } else {
                    project_id is None && message@ == "RIO_PROJECT_ID is required"@
                },
            },
            config is Ok <==> token is Some && project_id is Some,
            config matches Ok(cfg) ==> {
                &&& out_path matches Some(path) ==> cfg.out_path@ == path@
                &&& out_path is None ==> cfg.out_path@ == "rules.json"@
                &&& api_base matches Some(base) ==> cfg.api_base@ == base@
                &&& api_base is None ==> cfg.api_base@ == "https://api.redirection.io"@
                &&& interval is None ==> cfg.interval_secs == 300
                &&& interval matches Some(value) ==> forall|n: nat|
                    n <= u64::MAX && value@ == #[trigger] decimal_text(n) ==> cfg.interval_secs == n
            },
    {
        let token: String = match token {
            Some(token) => token,
            None => return Err("RIO_API_TOKEN is required".to_owned()),
        };
        let project_id: String = match project_id {
            Some(project_id) => project_id,
            None => return Err("RIO_PROJECT_ID is required".to_owned()),
        };
        proof {
            assert forall|n: nat| n <= u64::MAX implies u64_of(#[trigger] decimal_text(n)) == Some(
                n,
            ) by {
                law_decimal_reads_back(n);
            }
        }
        let interval_secs: u64 = match interval {
            Some(value) => match parse_u64(value.as_str()) {
                Some(n) => n,
                None => DEFAULT_INTERVAL_SECS,
            },
            None => DEFAULT_INTERVAL_SECS,
        };
        Ok(
            Config {
                token,
                project_id,
                out_path: match out_path {
                    Some(path) => path,
                    None => "rules.json".to_owned(),
                },
                interval_secs,
                api_base: match api_base {
                    Some(base) => base,
                    None => "https://api.redirection.io".to_owned(),
                },
            },
        )
    }
}

/// A text without the slashes at its end.
pub open spec fn trim_slashes(s: Seq<char>) -> Seq<char>
    decreases s.len(),
{
    if s.len() > 0 && s.last() == '/' {
        trim_slashes(s.drop_last())
    } else {
        s
    }
}

/// The URL of a project's rules.
pub open spec fn url_of(api_base: Seq<char>, project_id: Seq<char>) -> Seq<char> {
    trim_slashes(api_base) + "/rules?projectId="@ + project_id
}

/// Build the `GET /rules` URL for a project.
pub fn rules_url(api_base: &str, project_id: &str) -> (url: String)
    ensures
        url@ == url_of(api_base@, project_id@),
{
    let chars: Vec<char> = chars_of(api_base);
    let mut end: usize = chars.len();
    assert(api_base@.take(end as int) == api_base@);
    while end > 0 && chars[end - 1] == '/'
        invariant
            chars@ == api_base@,
            end <= chars.len(),
            trim_slashes(api_base@.take(end as int)) == trim_slashes(api_base@),
        decreases end,
    {
        assert(api_base@.take(end as int).drop_last() == api_base@.take(end - 1));
        end -= 1;
    }
    assert(trim_slashes(api_base@.take(end as int)) == api_base@.take(end as int));
    let mut url: String = api_base.substring_char(0, end).to_owned();
    url.append("/rules?projectId=");
    url.append(project_id);
    url
}

/// A `GET` request to the Public API.
pub struct RulesRequest {
    pub url: String,
    /// Sent as a bearer token.
    pub token: String,
    /// Sent as the `Accept` header.
    pub accept: String,
}

/// A reply of the Public API.
#[derive(Debug)]
pub struct Reply {
    pub status: u16,
    /// The status as it is shown, with its reason.
    pub status_line: String,
    /// The body, None where it could not be read.
    pub body: Option<String>,
}

pub struct RulesRequestView {
    pub url: Seq<char>,
    pub token: Seq<char>,
    pub accept: Seq<char>,
}

pub struct ReplyView {
    pub status: int,
    pub status_line: Seq<char>,
    pub body: Option<Seq<char>>,
}

pub struct ConfigView {
    pub token: Seq<char>,
    pub project_id: Seq<char>,
    pub out_path: Seq<char>,
    pub interval_secs: nat,
    pub api_base: Seq<char>,
}

impl View for RulesRequest {
    type V = RulesRequestView;

    open spec fn view(&self) -> RulesRequestView {
        RulesRequestView { url: self.url@, token: self.token@, accept: self.accept@ }
    }
}

impl View for Reply {
    type V = ReplyView;

    open spec fn view(&self) -> ReplyView {
        ReplyView {
            status: self.status as int,
            status_line: self.status_line@,
            body: text::option_text(self.body),
        }
    }
}

impl View for Config {
    type V = ConfigView;

    open spec fn view(&self) -> ConfigView {
        ConfigView {
            token: self.token@,
            project_id: self.project_id@,
            out_path: self.out_path@,
            interval_secs: self.interval_secs as nat,
            api_base: self.api_base@,
        }
    }
}

/// The request for the rules of the configured project.
pub open spec fn request_for(cfg: ConfigView) -> RulesRequestView {
    RulesRequestView {
        url: url_of(cfg.api_base, cfg.project_id),
        token: cfg.token,
        accept: "application/json"@,
    }
}

/// The request for the rules of the configured project.
pub fn rules_request(cfg: &Config) -> (request: RulesRequest)
    ensures
        request@ == request_for(cfg@),
        request.url@ == url_of(cfg.api_base@, cfg.project_id@),
        request.token@ == cfg.token@,
        request.accept@ == "application/json"@,
{
    RulesRequest {
        url: rules_url(cfg.api_base.as_str(), cfg.project_id.as_str()),
        token: cfg.token.clone(),
        accept: "application/json".to_owned(),
    }
}

/// The body of a reply, empty where it could not be read.
pub open spec fn body_of(reply: ReplyView) -> Seq<char> {
    match reply.body {
        Some(body) => body,
        None => Seq::empty(),
    }
}

/// What a fetch gives: the body of a reply of success (a status of 200 to 299);
/// else a message with the error, or with the status and the body.
pub open spec fn fetched(reply: Result<ReplyView, Seq<char>>) -> Result<Seq<char>, Seq<char>> {
    match reply {
        Ok(reply) => if 200 <= reply.status < 300 {
            Ok(body_of(reply))
        } else {
            Err("API returned "@ + reply.status_line + ": "@ + body_of(reply))
        },
        Err(error) => Err("request failed: "@ + error),
    }
}

/// The texts of a result of strings.
pub open spec fn result_text(result: Result<String, String>) -> Result<Seq<char>, Seq<char>> {
    match result {
        Ok(text) => Ok(text@),
        Err(error) => Err(error@),
    }
}

/// The texts of a reply, or of the error that came in its place.
pub open spec fn reply_text(reply: Result<Reply, String>) -> Result<ReplyView, Seq<char>> {
    match reply {
        Ok(reply) => Ok(reply@),
        Err(error) => Err(error@),
    }
}

/// Take the raw `GET /rules` JSON from what the API replied.
pub fn fetch_rules(reply: Result<Reply, String>) -> (body: Result<String, String>)
    ensures
        result_text(body) == fetched(reply_text(reply)),
        reply matches Err(error) ==> (body matches Err(message) && message@ == "request failed: "@
            + error@),
        reply matches Ok(r) ==> {
            let text = match r.body {
                Some(t) => t@,
                None => Seq::empty(),
            };
            &&& 200 <= r.status <= 299 ==> (body matches Ok(b) && b@ == text)
            &&& r.status < 200 || r.status > 299 ==> (body matches Err(message) && message@
                == "API returned "@ + r.status_line@ + ": "@ + text)
        },
{
    let reply: Reply = match reply {
        Ok(reply) => reply,
        Err(error) => {
            let mut message: String = "request failed: ".to_owned();
            message.append(error.as_str());
            return Err(message);
        },
    };
    let body: String = match reply.body {
        Some(body) => body,
        None => String::new(),
    };
    if reply.status < 200 || reply.status >= 300 {
        let mut message: String = "API returned ".to_owned();
        message.append(reply.status_line.as_str());
        message.append(": ");
        message.append(body.as_str());
        return Err(message);
    }
    Ok(body)
}

/// A plugin config built from a reply, and what there is to report of it.
#[derive(Debug)]
pub struct BuiltConfig {
    pub config: String,
    /// How many rules were translated.
    pub translated: usize,
    /// The rules that were skipped, and why.
    pub skipped: Vec<(String, Skip)>,
    /// What is logged of it, line by line.
    pub log: Vec<String>,
}

pub struct BuiltConfigView {
    pub config: Seq<char>,
    pub translated: nat,
    pub skipped: Seq<(Seq<char>, Skip)>,
    pub log: Seq<Seq<char>>,
}

impl View for BuiltConfig {
    type V = BuiltConfigView;

    open spec fn view(&self) -> BuiltConfigView {
        BuiltConfigView {
            config: self.config@,
            translated: self.translated as nat,
            skipped: skipped_texts(self.skipped@),
            log: text::texts(self.log@),
        }
    }
}

/// The rules that were skipped, by the text of their identifiers.
pub open spec fn skipped_texts(skipped: Seq<(String, Skip)>) -> Seq<(Seq<char>, Skip)> {
    skipped.map_values(|entry: (String, Skip)| (entry.0@, entry.1))
}

/// The name of a reason.
pub open spec fn reason_name(reason: Skip) -> Seq<char> {
    match reason {
        Skip::Disabled => "Disabled"@,
        Skip::NoRedirectAction => "NoRedirectAction"@,
        Skip::MissingTarget => "MissingTarget"@,
    }
}

/// The line for a rule that was skipped.
pub open spec fn skip_line_of(id: Seq<char>, reason: Skip) -> Seq<char> {
    "skip rule "@ + id + ": "@ + reason_name(reason)
}

/// What is logged of a config that was built: a line for each rule that was
/// skipped, in order, then how many were translated and how many skipped.
pub open spec fn log_of(translated: nat, skipped: Seq<(Seq<char>, Skip)>) -> Seq<Seq<char>> {
    skipped.map_values(|entry: (Seq<char>, Skip)| skip_line_of(entry.0, entry.1)).push(
        "translated "@ + decimal_text(translated) + " rule(s), skipped "@ + decimal_text(
            skipped.len(),
        ),
    )
}

/// The line for a rule that was skipped.
pub fn skip_line(id: &str, reason: &Skip) -> (line: String)
    ensures
        line@ == skip_line_of(id@, *reason),
        *reason is Disabled ==> line@ == "skip rule "@ + id@ + ": "@ + "Disabled"@,
        *reason is NoRedirectAction ==> line@ == "skip rule "@ + id@ + ": "@ + "NoRedirectAction"@,
        *reason is MissingTarget ==> line@ == "skip rule "@ + id@ + ": "@ + "MissingTarget"@,
{
    let mut line: String = "skip rule ".to_owned();
    line.append(id);
    line.append(": ");
    line.append(
        match reason {
            Skip::Disabled => "Disabled",
            Skip::NoRedirectAction => "NoRedirectAction",
            Skip::MissingTarget => "MissingTarget",
        },
    );
    line
}

/// What is logged of a config that was built.
pub fn build_log(translated: usize, skipped: &Vec<(String, Skip)>) -> (log: Vec<String>)
    ensures
        text::texts(log@) == log_of(translated as nat, skipped_texts(skipped@)),
{
    let ghost entries = skipped_texts(skipped@);
    let ghost lines = entries.map_values(
        |entry: (Seq<char>, Skip)| skip_line_of(entry.0, entry.1),
    );
    let mut log: Vec<String> = Vec::new();
    let mut i: usize = 0;
    while i < skipped.len()
        invariant
            i <= skipped.len(),
            entries == skipped_texts(skipped@),
            lines == entries.map_values(
                |entry: (Seq<char>, Skip)| skip_line_of(entry.0, entry.1),
            ),
            text::texts(log@) == lines.take(i as int),
        decreases skipped.len() - i,
    {
        let ghost before = text::texts(log@);
        log.push(skip_line(skipped[i].0.as_str(), &skipped[i].1));
        assert(text::texts(log@) == before.push(lines[i as int]));
        assert(lines.take(i + 1) == lines.take(i as int).push(lines[i as int]));
        i += 1;
    }
    let mut line: String = "translated ".to_owned();
    line.append(print_decimal(translated).as_str());
    line.append(" rule(s), skipped ");
    line.append(print_decimal(skipped.len()).as_str());
    let ghost summary = line@;
    log.push(line);
    assert(lines.take(lines.len() as int) == lines);
    assert(text::texts(log@) == lines.push(summary));
    log
}

/// `built` carries the translation of `rules`, each engine rule as `encode`
/// writes it, reports each rule that was skipped, and says what is logged.
pub open spec fn is_built_from<E: Fn(&Rule) -> Value>(
    rules: Seq<EditorRule>,
    encode: E,
    built: BuiltConfig,
) -> bool {
    exists|engine: Vec<Rule>, values: Seq<Value>| #[trigger]
        translate::are_encoded(engine@, encode, values) && translate::is_translated_ruleset(
            rules,
            (engine, built.skipped),
        ) && built.translated == engine@.len() && translate::is_config_text(
            json::json_trees(values),
            built.config@,
        ) && built@.log == log_of(engine@.len(), built@.skipped)
}

/// `built` is what becomes of rules read as `parsed`: a config that is built
/// from them, or the error with which they could not be read.
pub open spec fn is_built_reply<E: Fn(&Rule) -> Value>(
    parsed: Result<Vec<EditorRule>, String>,
    encode: E,
    built: Result<BuiltConfig, String>,
) -> bool {
    match (parsed, built) {
        (Ok(rules), Ok(config)) => is_built_from(rules@, encode, config),
        (Err(error), Err(reported)) => reported@ == error@,
        _ => false,
    }
}

/// Turn a raw `GET /rules` body into the plugin config, and report what was
/// skipped. `decode` reads the editor rules from the body, and `encode` gives
/// the JSON value of one engine rule that does nothing but redirect.
pub fn build_plugin_config<
    D: Fn(&str) -> Result<Vec<EditorRule>, String>,
    E: Fn(&Rule) -> Value,
>(rules_json: &str, decode: D, encode: E) -> (built: Result<BuiltConfig, String>)
    requires
        decode.requires((rules_json,)),
        forall|rule: Rule|
            translate::is_redirect_only(rule) ==> #[trigger] encode.requires((&rule,)),
    ensures
        exists|parsed: Result<Vec<EditorRule>, String>| #[trigger]
            decode.ensures((rules_json,), parsed) && is_built_reply(parsed, encode, built) && (
            parsed is Ok <==> built is Ok) && (parsed matches Err(error) ==> built->Err_0@
                == error@),
{
    let (rules, skipped) = match translate_ruleset(rules_json, decode) {
        Ok(translated) => translated,
        Err(error) => return Err(error),
    };
    assert forall|i: int| 0 <= i < rules@.len() implies encode.requires(
        (&#[trigger] rules@[i],),
    ) by {
        assert(translate::is_redirect_only(rules@[i]));
    }
    match to_plugin_config(&rules, encode) {
        Ok(config) => {
            let log: Vec<String> = build_log(rules.len(), &skipped);
            Ok(BuiltConfig { config, translated: rules.len(), skipped, log })
        },
        Err(error) => Err(error),
    }
}

/// `encode` writes every rule that does nothing but redirect so that the config
/// that carries it reads back, and `decode` reads it as the same redirect.
pub open spec fn is_read_by<R, E: Fn(&Rule) -> Value, P: Fn(&Value) -> Option<R>>(
    encode: E,
    decode: P,
    redirect: spec_fn(R) -> translate::RedirectView,
) -> bool {
    forall|rule: Rule| #[trigger]
        translate::is_redirect_only(rule) ==> ruleset::is_written_rereadably(encode, rule)
            && ruleset::is_read_as_written(encode, decode, redirect, rule)
}

/// The redirects that editor rules stand for, those that are skipped left out.
pub open spec fn redirects_from(rules: Seq<EditorRule>) -> Seq<translate::RedirectView> {
    translate::kept_rules(rules).map_values(|rule: EditorRule| translate::redirect_from(rule))
}

/// What the sync builds, the plugin reads, whole and in order: from the config
/// it gets one rule for each editor rule that is translated, with the
/// identifier, host, path, methods, target, status and rank of that rule.
pub proof fn law_plugin_reads_what_sync_builds<
    R,
    E: Fn(&Rule) -> Value,
    P: Fn(&Value) -> Option<R>,
>(
    rules: Seq<EditorRule>,
    encode: E,
    built: BuiltConfig,
    decode: P,
    outcomes: Seq<Option<R>>,
    redirect: spec_fn(R) -> translate::RedirectView,
)
    requires
        is_built_from(rules, encode, built),
        is_read_by(encode, decode, redirect),
        ruleset::are_decoded(decode, ruleset::config_entries(built.config@), outcomes),
    ensures
        ruleset::present(outcomes).len() == built.translated,
        ruleset::present(outcomes).map_values(redirect) == redirects_from(rules),
{
    let (engine, values) = choose|engine: Vec<Rule>, values: Seq<Value>| #[trigger]
        translate::are_encoded(engine@, encode, values) && translate::is_translated_ruleset(
            rules,
            (engine, built.skipped),
        ) && built.translated == engine@.len() && translate::is_config_text(
            json::json_trees(values),
            built.config@,
        );
    let kept = translate::kept_rules(rules);
    assert forall|i: int| 0 <= i < engine@.len() implies ruleset::is_written_rereadably(
        encode,
        #[trigger] engine@[i],
    ) && ruleset::is_read_as_written(encode, decode, redirect, engine@[i]) by {
        assert(translate::is_translation(kept[i], engine@[i]));
        assert(translate::is_redirect_only(engine@[i]));
    }
    ruleset::law_rules_read_back(
        engine@,
        encode,
        values,
        built.config@,
        decode,
        outcomes,
        redirect,
    );
    let written = engine@.map_values(|rule: Rule| translate::redirect_of(rule));
    assert(written == redirects_from(rules)) by {
        assert forall|i: int| 0 <= i < engine@.len() implies #[trigger] written[i]
            == redirects_from(rules)[i] by {
            assert(translate::is_translation(kept[i], engine@[i]));
        }
    }
}

/// However many rules are skipped, the others are written, and each one that is
/// skipped is logged; where all are, the config is the empty one.
pub proof fn law_skipped_rules_are_logged<E: Fn(&Rule) -> Value>(
    rules: Seq<EditorRule>,
    encode: E,
    built: BuiltConfig,
)
    requires
        is_built_from(rules, encode, built),
    ensures
        ({
            let skipped = translate::skipped_rules(rules);
            let kept = translate::kept_rules(rules);
            &&& built.translated == kept.len()
            &&& built.log@.len() == skipped.len() + 1
            &&& forall|i: int|
                0 <= i < skipped.len() ==> (#[trigger] built.log@[i])@ == skip_line_of(
                    skipped[i].id@,
                    translate::skip_reason(skipped[i])->0,
                )
            &&& built.log@.last()@ == "translated "@ + decimal_text(kept.len())
                + " rule(s), skipped "@ + decimal_text(skipped.len())
            &&& kept.len() == 0 ==> built.config@ == "{\"rules\":[]}"@
        }),
{
    let (engine, values) = choose|engine: Vec<Rule>, values: Seq<Value>| #[trigger]
        translate::are_encoded(engine@, encode, values) && translate::is_translated_ruleset(
            rules,
            (engine, built.skipped),
        ) && built.translated == engine@.len() && translate::is_config_text(
            json::json_trees(values),
            built.config@,
        ) && built@.log == log_of(engine@.len(), built@.skipped);
    translate::law_config_shape(json::json_trees(values), built.config@);
    let skipped = translate::skipped_rules(rules);
    assert(built@.log.len() == built.log@.len());
    assert(built@.log.last() == built.log@.last()@);
    assert forall|i: int| 0 <= i < skipped.len() implies (#[trigger] built.log@[i])@
        == skip_line_of(skipped[i].id@, translate::skip_reason(skipped[i])->0) by {
        assert(built@.log[i] == built.log@[i]@);
        assert(built.skipped@[i].0@ == skipped[i].id@);
    }
}

/// What the sync is to do next.
pub enum SyncStep {
    /// Ask the API for the rules.
    Fetch { request: RulesRequest },
    /// Log what was built, line by line, then write the config to the temporary
    /// file.
    WriteTemp { tmp: String, built: BuiltConfig },
    /// Move the temporary file to its place.
    Rename { tmp: String, path: String },
    /// Report how the cycle went, then wait for the next one, or end where
    /// there is none.
    Rest { report: String, wait_secs: Option<u64> },
    /// The sync is over.
    Stop,
}

/// What came of a step of the sync.
#[derive(Debug)]
pub enum SyncEvent {
    Replied(Result<Reply, String>),
    TempWritten(Result<(), String>),
    Renamed(Result<(), String>),
    Rested,
}

pub enum SyncStepView {
    Fetch { request: RulesRequestView },
    WriteTemp { tmp: Seq<char>, built: BuiltConfigView },
    Rename { tmp: Seq<char>, path: Seq<char> },
    Rest { report: Seq<char>, wait_secs: Option<nat> },
    Stop,
}

pub enum SyncEventView {
    Replied(Result<ReplyView, Seq<char>>),
    TempWritten(Result<(), Seq<char>>),
    Renamed(Result<(), Seq<char>>),
    Rested,
}

/// The text of the error of a result that holds nothing else.
pub open spec fn error_text(result: Result<(), String>) -> Result<(), Seq<char>> {
    match result {
        Ok(_) => Ok(()),
        Err(error) => Err(error@),
    }
}

impl View for SyncStep {
    type V = SyncStepView;

    open spec fn view(&self) -> SyncStepView {
        match *self {
            SyncStep::Fetch { request } => SyncStepView::Fetch { request: request@ },
            SyncStep::WriteTemp { tmp, built } => SyncStepView::WriteTemp {
                tmp: tmp@,
                built: built@,
            },
            SyncStep::Rename { tmp, path } => SyncStepView::Rename { tmp: tmp@, path: path@ },
            SyncStep::Rest { report, wait_secs } => SyncStepView::Rest {
                report: report@,
                wait_secs: match wait_secs {
                    Some(secs) => Some(secs as nat),
                    None => None,
                },
            },
            SyncStep::Stop => SyncStepView::Stop,
        }
    }
}

impl View for SyncEvent {
    type V = SyncEventView;

    open spec fn view(&self) -> SyncEventView {
        match *self {
            SyncEvent::Replied(reply) => SyncEventView::Replied(reply_text(reply)),
            SyncEvent::TempWritten(written) => SyncEventView::TempWritten(error_text(written)),
            SyncEvent::Renamed(renamed) => SyncEventView::Renamed(error_text(renamed)),
            SyncEvent::Rested => SyncEventView::Rested,
        }
    }
}

/// The temporary file beside a file.
pub open spec fn temp_of(path: Seq<char>) -> Seq<char> {
    path + ".tmp"@
}

/// The wait between two cycles, none where the sync runs once.
pub open spec fn wait_of(cfg: ConfigView) -> Option<nat> {
    if cfg.interval_secs == 0 {
        None
    } else {
        Some(cfg.interval_secs)
    }
}

/// A cycle ends with an error: the previous ruleset is kept.
pub open spec fn failed(cfg: ConfigView, error: Seq<char>) -> SyncStepView {
    SyncStepView::Rest {
        report: "sync failed (keeping previous ruleset): "@ + error,
        wait_secs: wait_of(cfg),
    }
}

/// A cycle ends with the ruleset written.
pub open spec fn succeeded(cfg: ConfigView) -> SyncStepView {
    SyncStepView::Rest { report: "wrote ruleset to "@ + cfg.out_path, wait_secs: wait_of(cfg) }
}

/// The step that follows the build of a config: to write it, or to report the
/// error in its place.
pub open spec fn step_after_build(
    cfg: ConfigView,
    built: Result<BuiltConfig, String>,
) -> SyncStepView {
    match built {
        Ok(config) => SyncStepView::WriteTemp { tmp: temp_of(cfg.out_path), built: config@ },
        Err(error) => failed(cfg, error@),
    }
}

/// `built` is what becomes of the body of a reply, whose rules `decode` reads.
pub open spec fn is_build_of<
    D: Fn(&str) -> Result<Vec<EditorRule>, String>,
    E: Fn(&Rule) -> Value,
>(decode: D, encode: E, body: Seq<char>, built: Result<BuiltConfig, String>) -> bool {
    exists|text: &str, parsed: Result<Vec<EditorRule>, String>| #[trigger]
        decode.ensures((text,), parsed) && text@ == body && is_built_reply(parsed, encode, built)
}

/// `next` follows a reply of success with this body: to write what is built from
/// it, or to report why nothing is.
pub open spec fn is_next_to_body<
    D: Fn(&str) -> Result<Vec<EditorRule>, String>,
    E: Fn(&Rule) -> Value,
>(cfg: ConfigView, decode: D, encode: E, body: Seq<char>, next: SyncStepView) -> bool {
    exists|built: Result<BuiltConfig, String>| #[trigger]
        is_build_of(decode, encode, body, built) && next == step_after_build(cfg, built)
}

/// `next` follows `step` once `event` came of it. An event that does not answer
/// the step leaves it to be done.
pub open spec fn is_next_sync<
    D: Fn(&str) -> Result<Vec<EditorRule>, String>,
    E: Fn(&Rule) -> Value,
>(
    cfg: ConfigView,
    decode: D,
    encode: E,
    step: SyncStepView,
    event: SyncEventView,
    next: SyncStepView,
) -> bool {
    match (step, event) {
        (SyncStepView::Fetch { request }, SyncEventView::Replied(reply)) => match fetched(reply) {
            Ok(body) => is_next_to_body(cfg, decode, encode, body, next),
            Err(error) => next == failed(cfg, error),
        },
        (
            SyncStepView::WriteTemp { tmp, built },
            SyncEventView::TempWritten(written),
        ) => match written {
            Ok(_) => next == (SyncStepView::Rename { tmp, path: cfg.out_path }),
            Err(error) => next == failed(cfg, "write "@ + tmp + ": "@ + error),
        },
        (SyncStepView::Rename { tmp, path }, SyncEventView::Renamed(renamed)) => match renamed {
            Ok(_) => next == succeeded(cfg),
            Err(error) => next == failed(cfg, "rename "@ + tmp + " -> "@ + path + ": "@ + error),
        },
        (SyncStepView::Rest { report, wait_secs }, SyncEventView::Rested) => match wait_secs {
            Some(_) => next == first_sync(cfg),
            None => next is Stop,
        },
        _ => next == step,
    }
}

/// The step that every cycle starts with.
pub open spec fn first_sync(cfg: ConfigView) -> SyncStepView {
    SyncStepView::Fetch { request: request_for(cfg) }
}

/// The first step of a sync cycle.
pub fn sync_once(cfg: &Config) -> (step: SyncStep)
    ensures
        step@ == first_sync(cfg@),
        step matches SyncStep::Fetch { request } && request.token@ == cfg.token@ && request.accept@
            == "application/json"@ && request.url@ == url_of(cfg.api_base@, cfg.project_id@),
{
    SyncStep::Fetch { request: rules_request(cfg) }
}

/// The temporary file beside a file.
pub fn temp_path(path: &str) -> (tmp: String)
    ensures
        tmp@ == temp_of(path@),
        tmp@ == path@ + ".tmp"@,
{
    let mut tmp: String = path.to_owned();
    tmp.append(".tmp");
    tmp
}

fn wait_between(cfg: &Config) -> (wait_secs: Option<u64>)
    ensures
        wait_of(cfg@) == match wait_secs {
            Some(secs) => Some(secs as nat),
            None => None,
        },
{
    if cfg.interval_secs == 0 {
        None
    } else {
        Some(cfg.interval_secs)
    }
}

fn fail(cfg: &Config, error: String) -> (step: SyncStep)
    ensures
        step@ == failed(cfg@, error@),
{
    let mut report: String = "sync failed (keeping previous ruleset): ".to_owned();
    report.append(error.as_str());
    SyncStep::Rest { report, wait_secs: wait_between(cfg) }
}

fn succeed(cfg: &Config) -> (step: SyncStep)
    ensures
        step@ == succeeded(cfg@),
{
    let mut report: String = "wrote ruleset to ".to_owned();
    report.append(cfg.out_path.as_str());
    SyncStep::Rest { report, wait_secs: wait_between(cfg) }
}

/// What is said where the temporary file could not be written.
fn write_error(tmp: &str, error: &str) -> (message: String)
    ensures
        message@ == "write "@ + tmp@ + ": "@ + error@,
{
    let mut message: String = "write ".to_owned();
    message.append(tmp);
    message.append(": ");
    message.append(error);
    message
}

/// What is said where the temporary file could not be moved to its place.
fn rename_error(tmp: &str, path: &str, error: &str) -> (message: String)
    ensures
        message@ == "rename "@ + tmp@ + " -> "@ + path@ + ": "@ + error@,
{
    let mut message: String = "rename ".to_owned();
    message.append(tmp);
    message.append(" -> ");
    message.append(path);
    message.append(": ");
    message.append(error);
    message
}

/// Decide what the sync does with what was built.
pub fn write_built(cfg: &Config, built: Result<BuiltConfig, String>) -> (next: SyncStep)
    ensures
        next@ == step_after_build(cfg@, built),
        built matches Ok(made) ==> (next matches SyncStep::WriteTemp { tmp, built: written } && tmp@
            == cfg.out_path@ + ".tmp"@ && written == made),
        built matches Err(error) ==> (next matches SyncStep::Rest { report, wait_secs } && report@
            == "sync failed (keeping previous ruleset): "@ + error@ && (wait_secs is None
            <==> cfg.interval_secs == 0) && (wait_secs matches Some(secs) ==> secs
            == cfg.interval_secs)),
{
    match built {
        Ok(built) => SyncStep::WriteTemp { tmp: temp_path(cfg.out_path.as_str()), built },
        Err(error) => fail(cfg, error),
    }
}

/// Decide what the sync does next. The plugin config is built from the reply
/// here: `decode` reads the editor rules from its body, and `encode` gives the
/// JSON value of one engine rule that does nothing but redirect.
pub fn run<D: Fn(&str) -> Result<Vec<EditorRule>, String>, E: Fn(&Rule) -> Value>(
    cfg: &Config,
    step: SyncStep,
    event: SyncEvent,
    decode: D,
    encode: E,
) -> (next: SyncStep)
    requires
        forall|text: &str| #[trigger] decode.requires((text,)),
        forall|rule: Rule|
            translate::is_redirect_only(rule) ==> #[trigger] encode.requires((&rule,)),
    ensures
        is_next_sync(cfg@, decode, encode, step@, event@, next@),
{
    match (step, event) {
        (SyncStep::Fetch { request: _ }, SyncEvent::Replied(reply)) => match fetch_rules(reply) {
            Ok(body) => {
                let built: Result<BuiltConfig, String> = build_plugin_config(
                    body.as_str(),
                    decode,
                    encode,
                );
                assert(is_build_of(decode, encode, body@, built));
                write_built(cfg, built)
            },
            Err(error) => fail(cfg, error),
        },
        (
            SyncStep::WriteTemp { tmp, built: _ },
            SyncEvent::TempWritten(written),
        ) => match written {
            Ok(_) => SyncStep::Rename { tmp, path: cfg.out_path.clone() },
            Err(error) => fail(cfg, write_error(tmp.as_str(), error.as_str())),
        },
        (SyncStep::Rename { tmp, path }, SyncEvent::Renamed(renamed)) => match renamed {
            Ok(_) => succeed(cfg),
            Err(error) => fail(cfg, rename_error(tmp.as_str(), path.as_str(), error.as_str())),
        },
        (SyncStep::Rest { report: _, wait_secs }, SyncEvent::Rested) => match wait_secs {
            Some(_) => sync_once(cfg),
            None => SyncStep::Stop,
        },
        (step, _) => step,
    }
}

/// What a step does to the files, each by its path, once `event` came of it:
/// writing the temporary file may fail halfway and leave anything in it, and
/// moving it replaces the file at its place.
pub open spec fn disk_effect(
    step: SyncStepView,
    event: SyncEventView,
    before: Map<Seq<char>, Seq<char>>,
    after: Map<Seq<char>, Seq<char>>,
) -> bool {
    match (step, event) {
        (SyncStepView::WriteTemp { tmp, built }, SyncEventView::TempWritten(Ok(_))) => after
            == before.insert(tmp, built.config),
        (SyncStepView::WriteTemp { tmp, built }, SyncEventView::TempWritten(Err(_))) =>
            after.remove(tmp) == before.remove(tmp),
        (SyncStepView::Rename { tmp, path }, SyncEventView::Renamed(Ok(_))) => after
            == before.remove(tmp).insert(path, before[tmp]),
        _ => after == before,
    }
}

/// What happened in a sync: the steps before and after each of `events`, and
/// the files, each by its path, at the same times.
pub struct History {
    pub events: Seq<SyncEventView>,
    pub steps: Seq<SyncStepView>,
    pub disks: Seq<Map<Seq<char>, Seq<char>>>,
}

/// A sync may have this history.
pub open spec fn is_history<
    D: Fn(&str) -> Result<Vec<EditorRule>, String>,
    E: Fn(&Rule) -> Value,
>(cfg: ConfigView, decode: D, encode: E, history: History) -> bool {
    let History { events, steps, disks } = history;
    &&& steps.len() == events.len() + 1
    &&& disks.len() == events.len() + 1
    &&& steps[0] == first_sync(cfg)
    &&& forall|i: int|
        0 <= i < events.len() ==> is_next_sync(
            cfg,
            decode,
            encode,
            #[trigger] steps[i],
            events[i],
            steps[i + 1],
        )
    &&& forall|i: int|
        0 <= i < events.len() ==> disk_effect(
            steps[i],
            events[i],
            #[trigger] disks[i],
            disks[i + 1],
        )
}

/// The file at `path` is the same on both disks.
pub open spec fn same_file(
    a: Map<Seq<char>, Seq<char>>,
    b: Map<Seq<char>, Seq<char>>,
    path: Seq<char>,
) -> bool {
    &&& a.contains_key(path) == b.contains_key(path)
    &&& a.contains_key(path) ==> a[path] == b[path]
}

/// `event` is a reply of success, from whose body `content` is built.
pub open spec fn is_source_of<
    D: Fn(&str) -> Result<Vec<EditorRule>, String>,
    E: Fn(&Rule) -> Value,
>(decode: D, encode: E, event: SyncEventView, content: Seq<char>) -> bool {
    event matches SyncEventView::Replied(reply) && fetched(reply) matches Ok(body) && exists|
        built: BuiltConfig,
    | #[trigger] is_build_of(decode, encode, body, Ok(built)) && built.config@ == content
}

/// One of the first `n` events is a reply from which `content` is built.
pub open spec fn was_built<
    D: Fn(&str) -> Result<Vec<EditorRule>, String>,
    E: Fn(&Rule) -> Value,
>(decode: D, encode: E, events: Seq<SyncEventView>, n: int, content: Seq<char>) -> bool {
    exists|k: int| 0 <= k < n && is_source_of(decode, encode, #[trigger] events[k], content)
}

/// What the file names and contents of a step are, after `n` events.
spec fn is_sound<D: Fn(&str) -> Result<Vec<EditorRule>, String>, E: Fn(&Rule) -> Value>(
    cfg: ConfigView,
    decode: D,
    encode: E,
    history: History,
    n: int,
) -> bool {
    match history.steps[n] {
        SyncStepView::WriteTemp { tmp, built } => {
            &&& tmp == temp_of(cfg.out_path)
            &&& was_built(decode, encode, history.events, n, built.config)
        },
        SyncStepView::Rename { tmp, path } => {
            &&& tmp == temp_of(cfg.out_path)
            &&& path == cfg.out_path
            &&& history.disks[n].contains_key(tmp)
            &&& was_built(decode, encode, history.events, n, history.disks[n][tmp])
        },
        _ => true,
    }
}

/// What was built stays built.
proof fn lemma_was_built_stays<
    D: Fn(&str) -> Result<Vec<EditorRule>, String>,
    E: Fn(&Rule) -> Value,
>(decode: D, encode: E, events: Seq<SyncEventView>, n: int, content: Seq<char>)
    requires
        was_built(decode, encode, events, n - 1, content),
    ensures
        was_built(decode, encode, events, n, content),
{
    let k = choose|k: int|
        0 <= k < n - 1 && is_source_of(decode, encode, #[trigger] events[k], content);
    assert(is_source_of(decode, encode, events[k], content));
}

proof fn lemma_sound<D: Fn(&str) -> Result<Vec<EditorRule>, String>, E: Fn(&Rule) -> Value>(
    cfg: ConfigView,
    decode: D,
    encode: E,
    history: History,
    n: int,
)
    requires
        is_history(cfg, decode, encode, history),
        0 <= n <= history.events.len(),
    ensures
        is_sound(cfg, decode, encode, history, n),
    decreases n,
{
    let History { events, steps, disks } = history;
    if n > 0 {
        lemma_sound(cfg, decode, encode, history, n - 1);
        let step = steps[n - 1];
        let event = events[n - 1];
        assert(is_next_sync(cfg, decode, encode, step, event, steps[n]));
        assert(disk_effect(step, event, disks[n - 1], disks[n]));
        match steps[n] {
            SyncStepView::WriteTemp { tmp, built } => {
                if step is WriteTemp {
                    lemma_was_built_stays(decode, encode, events, n, built.config);
                } else {
                    assert(is_source_of(decode, encode, events[n - 1], built.config));
                }
            },
            SyncStepView::Rename { tmp, path } => {
                if step is Rename {
                    assert(disks[n] == disks[n - 1]);
                }
                lemma_was_built_stays(decode, encode, events, n, disks[n][tmp]);
            },
            _ => {},
        }
    }
}

/// The ruleset file changes only where the new one was moved to its place,
/// with which the cycle succeeds. So it is left as it was by every failure: of
/// the request, of the reply, of the translation, of the write, of the move.
pub proof fn law_file_changes_only_on_success<
    D: Fn(&str) -> Result<Vec<EditorRule>, String>,
    E: Fn(&Rule) -> Value,
>(cfg: ConfigView, decode: D, encode: E, history: History, i: int)
    requires
        is_history(cfg, decode, encode, history),
        0 <= i < history.events.len(),
        !same_file(history.disks[i], history.disks[i + 1], cfg.out_path),
    ensures
        history.events[i] matches SyncEventView::Renamed(renamed) && renamed is Ok,
        history.steps[i + 1] == succeeded(cfg),
{
    let History { events, steps, disks } = history;
    lemma_sound(cfg, decode, encode, history, i);
    lemma_temp_differs(cfg.out_path);
    assert(is_next_sync(cfg, decode, encode, steps[i], events[i], steps[i + 1]));
    assert(disk_effect(steps[i], events[i], disks[i], disks[i + 1]));
    if let SyncStepView::WriteTemp { tmp, built } = steps[i] {
        if let SyncEventView::TempWritten(Err(_)) = events[i] {
            let a = disks[i].remove(tmp);
            let b = disks[i + 1].remove(tmp);
            assert(a.contains_key(cfg.out_path) == disks[i].contains_key(cfg.out_path));
            assert(b.contains_key(cfg.out_path) == disks[i + 1].contains_key(cfg.out_path));
            assert(a[cfg.out_path] == b[cfg.out_path]);
        }
    }
}

/// At any time the ruleset file is the one that was there before the sync, or
/// one complete config that was built from a reply: never one written halfway.
pub proof fn law_file_is_old_or_complete<
    D: Fn(&str) -> Result<Vec<EditorRule>, String>,
    E: Fn(&Rule) -> Value,
>(cfg: ConfigView, decode: D, encode: E, history: History, n: int)
    requires
        is_history(cfg, decode, encode, history),
        0 <= n <= history.events.len(),
    ensures
        same_file(history.disks[0], history.disks[n], cfg.out_path) || (
        history.disks[n].contains_key(cfg.out_path) && was_built(
            decode,
            encode,
            history.events,
            n,
            history.disks[n][cfg.out_path],
        )),
    decreases n,
{
    let History { events, steps, disks } = history;
    if n > 0 {
        law_file_is_old_or_complete(cfg, decode, encode, history, n - 1);
        lemma_sound(cfg, decode, encode, history, n - 1);
        assert(disk_effect(steps[n - 1], events[n - 1], disks[n - 1], disks[n]));
        if same_file(disks[n - 1], disks[n], cfg.out_path) {
            if !same_file(disks[0], disks[n], cfg.out_path) {
                lemma_was_built_stays(decode, encode, events, n, disks[n][cfg.out_path]);
            }
        } else {
            law_file_changes_only_on_success(cfg, decode, encode, history, n - 1);
            assert(is_next_sync(cfg, decode, encode, steps[n - 1], events[n - 1], steps[n]));
            assert(steps[n - 1] is Rename);
            lemma_was_built_stays(decode, encode, events, n, disks[n][cfg.out_path]);
        }
    }
}

/// The events of a cycle in which everything works out.
pub open spec fn cycle_events(reply: ReplyView) -> Seq<SyncEventView> {
    seq![
        SyncEventView::Replied(Ok(reply)),
        SyncEventView::TempWritten(Ok(())),
        SyncEventView::Renamed(Ok(())),
    ]
}

/// A cycle in which everything works out, the build included, ends with the
/// config that is built from the reply in the ruleset file.
pub proof fn law_successful_cycle<
    D: Fn(&str) -> Result<Vec<EditorRule>, String>,
    E: Fn(&Rule) -> Value,
>(cfg: ConfigView, decode: D, encode: E, reply: ReplyView, history: History) -> (built: BuiltConfig)
    requires
        200 <= reply.status < 300,
        is_history(cfg, decode, encode, history),
        history.events == cycle_events(reply),
        history.steps[1] is WriteTemp,
    ensures
        is_build_of(decode, encode, body_of(reply), Ok(built)),
        history.steps[3] == succeeded(cfg),
        history.disks[3].contains_key(cfg.out_path),
        history.disks[3][cfg.out_path] == built.config@,
{
    let History { events, steps, disks } = history;
    lemma_temp_differs(cfg.out_path);
    assert(is_next_sync(cfg, decode, encode, steps[0], events[0], steps[1]));
    assert(is_next_sync(cfg, decode, encode, steps[1], events[1], steps[2]));
    assert(is_next_sync(cfg, decode, encode, steps[2], events[2], steps[3]));
    assert(disk_effect(steps[1], events[1], disks[1], disks[2]));
    assert(disk_effect(steps[2], events[2], disks[2], disks[3]));
    let built = choose|built: Result<BuiltConfig, String>| #[trigger]
        is_build_of(decode, encode, body_of(reply), built) && steps[1] == step_after_build(
            cfg,
            built,
        );
    built->Ok_0
}

/// After a cycle in which everything works out, the plugin reads from the
/// ruleset file, whole and in order, the redirects that the rules of the reply
/// stand for.
pub proof fn law_plugin_reads_what_sync_writes<
    R,
    D: Fn(&str) -> Result<Vec<EditorRule>, String>,
    E: Fn(&Rule) -> Value,
    P: Fn(&Value) -> Option<R>,
>(
    cfg: ConfigView,
    decode: D,
    encode: E,
    reply: ReplyView,
    history: History,
    read: P,
    outcomes: Seq<Option<R>>,
    redirect: spec_fn(R) -> translate::RedirectView,
)
    requires
        200 <= reply.status < 300,
        is_history(cfg, decode, encode, history),
        history.events == cycle_events(reply),
        history.steps[1] is WriteTemp,
        is_read_by(encode, read, redirect),
        ruleset::are_decoded(
            read,
            ruleset::config_entries(history.disks[3][cfg.out_path]),
            outcomes,
        ),
    ensures
        exists|text: &str, rules: Vec<EditorRule>| #[trigger]
            decode.ensures((text,), Ok(rules)) && text@ == body_of(reply) && ruleset::present(
                outcomes,
            ).map_values(redirect) == redirects_from(rules@),
{
    let built = law_successful_cycle(cfg, decode, encode, reply, history);
    let (text, parsed) = choose|text: &str, parsed: Result<Vec<EditorRule>, String>| #[trigger]
        decode.ensures((text,), parsed) && text@ == body_of(reply) && is_built_reply(
            parsed,
            encode,
            Ok(built),
        );
    let rules = parsed->Ok_0;
    assert(decode.ensures((text,), Ok(rules)));
    law_plugin_reads_what_sync_builds(rules@, encode, built, read, outcomes, redirect);
}

proof fn lemma_temp_differs(path: Seq<char>)
    ensures
        temp_of(path) != path,
{
    reveal_strlit(".tmp");
    assert(temp_of(path).len() == path.len() + 4);
}

/// The end of a cycle, by success or failure.
pub open spec fn is_end_of_cycle(cfg: ConfigView, step: SyncStepView) -> bool {
    step == succeeded(cfg) || exists|error: Seq<char>| step == #[trigger] failed(cfg, error)
}

/// An interval of zero runs one cycle and stops; any other waits for that long
/// and starts over.
pub proof fn law_one_shot<
    D: Fn(&str) -> Result<Vec<EditorRule>, String>,
    E: Fn(&Rule) -> Value,
>(cfg: ConfigView, decode: D, encode: E, step: SyncStepView, next: SyncStepView)
    requires
        is_end_of_cycle(cfg, step),
        is_next_sync(cfg, decode, encode, step, SyncEventView::Rested, next),
    ensures
        step matches SyncStepView::Rest { wait_secs, .. } && wait_secs == wait_of(cfg),
        cfg.interval_secs == 0 ==> next is Stop,
        cfg.interval_secs != 0 ==> next == first_sync(cfg),
{
}

/// Slashes at the end of the API base make no difference to the URL.
pub proof fn law_url_ignores_trailing_slash(api_base: Seq<char>, project_id: Seq<char>)
    ensures
        url_of(api_base.push('/'), project_id) == url_of(api_base, project_id),
{
    assert(api_base.push('/').drop_last() == api_base);
}

/// A trimmed text does not end with a slash, and is what the text starts with.
pub proof fn law_trimmed(s: Seq<char>)
    ensures
        trim_slashes(s).len() > 0 ==> trim_slashes(s).last() != '/',
        trim_slashes(s).is_prefix_of(s),
        forall|i: int| trim_slashes(s).len() <= i < s.len() ==> s[i] == '/',
    decreases s.len(),
{
    if s.len() > 0 && s.last() == '/' {
        law_trimmed(s.drop_last());
        let t = trim_slashes(s.drop_last());
        assert(t == s.subrange(0, t.len() as int)) by {
            assert(t == s.drop_last().subrange(0, t.len() as int));
        }
        assert forall|i: int| t.len() <= i < s.len() implies s[i] == '/' by {
            if i < s.len() - 1 {
                assert(s.drop_last()[i] == s[i]);
            }
        }
    } else {
        assert(s == s.subrange(0, s.len() as int));
    }
}

/// A number is written digit by digit, the last one last.
pub proof fn law_decimal_digits(n: nat, d: nat)
    requires
        d < 10,
    ensures
        decimal_text(d).len() == 1,
        decimal_text(d)[0] as nat == '0' as nat + d,
        n > 0 ==> {
            let text = decimal_text(n * 10 + d);
            &&& text.drop_last() == decimal_text(n)
            &&& text.last() as nat == '0' as nat + d
        },
{
    if n > 0 {
        assert((n * 10 + d) / 10 == n);
        assert((n * 10 + d) % 10 == d);
        assert(decimal_text(n * 10 + d).drop_last() == decimal_text(n));
    }
}

/// A number is read digit by digit: each digit more makes it ten times as large
/// and adds the digit, until it no longer fits 64 bits. A plus sign before it
/// makes no difference.
pub proof fn law_number_is_read_digit_by_digit(s: Seq<char>, c: char)
    requires
        forall|i: int| 0 <= i < s.len() ==> '0' <= #[trigger] s[i] <= '9',
        '0' <= c <= '9',
    ensures
        ({
            let d = c as nat - '0' as nat;
            &&& s.len() == 0 ==> u64_of(s.push(c)) == Some(d as nat)
            &&& s.len() > 0 ==> match u64_of(s) {
                Some(n) => if n * 10 + d <= u64::MAX {
                    u64_of(s.push(c)) == Some((n * 10 + d) as nat)
                } else {
                    u64_of(s.push(c)) is None
                },
                None => u64_of(s.push(c)) is None,
            }
            &&& u64_of(seq!['+'] + s.push(c)) == u64_of(s.push(c))
        }),
{
    let longer = s.push(c);
    assert(longer.drop_last() == s);
    assert forall|i: int| 0 <= i < longer.len() implies is_digit(#[trigger] longer[i]) by {
        if i < s.len() {
            assert(longer[i] == s[i]);
        }
    }
    assert(longer[0] != '+');
    if s.len() > 0 {
        assert(s[0] != '+');
        assert(are_digits(s));
    } else {
        assert(decimal_value(s) == 0);
    }
    let signed = seq!['+'] + longer;
    assert(signed[0] == '+');
    assert(signed.skip(1) == longer);
}

/// What is not digits, after a plus sign or not, is no number: nothing at all, a
/// plus sign alone, or any other character at its place.
pub proof fn law_no_number(s: Seq<char>, i: int)
    ensures
        s.len() == 0 ==> u64_of(s) is None,
        s == seq!['+'] ==> u64_of(s) is None,
        0 <= i < s.len() && !('0' <= s[i] <= '9') && (i > 0 || s[i] != '+') ==> u64_of(s) is None,
{
    let digits = without_plus(s);
    if s == seq!['+'] {
        assert(digits.len() == 0);
    }
    if 0 <= i < s.len() && !('0' <= s[i] <= '9') && (i > 0 || s[i] != '+') {
        let k = if s[0] == '+' {
            i - 1
        } else {
            i
        };
        assert(digits[k] == s[i]);
        assert(!is_digit(digits[k]));
    }
}

/// The interval that is set is the one that is used, however short or long, with
/// a plus sign or without; what is not set, or no number, counts as 300 seconds.
pub proof fn law_interval_is_used(variable: Option<String>, n: nat)
    requires
        n <= u64::MAX,
    ensures
        variable is None ==> interval_of(variable) == 300,
        variable matches Some(value) ==> {
            &&& value@ == decimal_text(n) ==> interval_of(variable) == n
            &&& value@ == seq!['+'] + decimal_text(n) ==> interval_of(variable) == n
            &&& u64_of(value@) is None ==> interval_of(variable) == 300
        },
{
    law_decimal_reads_back(n);
    let digits = decimal_text(n);
    if variable matches Some(value) && value@ == seq!['+'] + digits {
        assert((seq!['+'] + digits)[0] == '+');
        assert((seq!['+'] + digits).skip(1) == digits);
        assert(without_plus(digits) == digits) by {
            assert(is_digit(digits[0]));
        }
    }
}

/// A variable that is set is used as it is, and only one that is not is replaced.
pub proof fn law_set_variable_is_used(variable: Option<String>, default: Seq<char>)
    ensures
        variable matches Some(value) ==> or_default(variable, default) == value@,
        variable is None ==> or_default(variable, default) == default,
{
}

/// The config is read field by field.
pub proof fn law_config_view(cfg: Config)
    ensures
        cfg@.token == cfg.token@,
        cfg@.project_id == cfg.project_id@,
        cfg@.out_path == cfg.out_path@,
        cfg@.interval_secs == cfg.interval_secs,
        cfg@.api_base == cfg.api_base@,
{
}

/// The URL is the API base, whatever slashes it ends with, the path of the rules
/// and the project, the base and the project otherwise as they are.
pub proof fn law_url_of_a_project(base: Seq<char>, slashes: nat, project_id: Seq<char>)
    requires
        base.len() > 0 ==> base.last() != '/',
    ensures
        url_of(base + Seq::new(slashes, |i: int| '/'), project_id) == base + "/rules?projectId="@
            + project_id,
    decreases slashes,
{
    let padded = base + Seq::new(slashes, |i: int| '/');
    if slashes == 0 {
        assert(padded == base);
    } else {
        law_url_of_a_project(base, (slashes - 1) as nat, project_id);
        assert(padded.drop_last() == base + Seq::new((slashes - 1) as nat, |i: int| '/'));
        assert(padded.last() == '/');
    }
}

/// What is asked of the API: the rules of the configured project, with the
/// configured token, as JSON.
pub proof fn law_request_for(cfg: ConfigView)
    ensures
        request_for(cfg).token == cfg.token,
        request_for(cfg).accept == "application/json"@,
        request_for(cfg).url == url_of(cfg.api_base, cfg.project_id),
        first_sync(cfg) == (SyncStepView::Fetch { request: request_for(cfg) }),
{
}

/// A reply of 200 to 299 gives its body, whole, or none where it could not be
/// read; any other is an error that shows its status and body; no reply is one
/// that shows why.
pub proof fn law_fetched(reply: ReplyView, error: Seq<char>)
    ensures
        200 <= reply.status <= 299 ==> {
            &&& reply.body matches Some(body) ==> fetched(Ok(reply)) == Ok::<Seq<char>, Seq<char>>(
                body,
            )
            &&& reply.body is None ==> fetched(Ok(reply)) == Ok::<Seq<char>, Seq<char>>(
                Seq::empty(),
            )
        },
        reply.status < 200 || reply.status > 299 ==> {
            &&& reply.body matches Some(body) ==> fetched(Ok(reply)) == Err::<Seq<char>, Seq<char>>(
                "API returned "@ + reply.status_line + ": "@ + body,
            )
            &&& reply.body is None ==> fetched(Ok(reply)) == Err::<Seq<char>, Seq<char>>(
                "API returned "@ + reply.status_line + ": "@,
            )
        },
        fetched(Err(error)) == Err::<Seq<char>, Seq<char>>("request failed: "@ + error),
{
    let shown = "API returned "@ + reply.status_line + ": "@;
    assert(shown + Seq::<char>::empty() == shown);
}

/// A reply is read field by field.
pub proof fn law_reply_view(reply: Reply)
    ensures
        reply@.status == reply.status,
        reply@.status_line == reply.status_line@,
        reply.body is None <==> reply@.body is None,
        reply.body matches Some(body) ==> reply@.body == Some(body@),
        reply_text(Ok(reply)) == Ok::<ReplyView, Seq<char>>(reply@),
{
}

/// What is logged: a line that names each skipped rule and its reason, in order,
/// then one that counts.
pub proof fn law_log_lines(translated: nat, skipped: Seq<(Seq<char>, Skip)>, i: int)
    ensures
        log_of(translated, skipped).len() == skipped.len() + 1,
        log_of(translated, skipped).last() == "translated "@ + decimal_text(translated)
            + " rule(s), skipped "@ + decimal_text(skipped.len()),
        0 <= i < skipped.len() ==> {
            let line = log_of(translated, skipped)[i];
            &&& skipped[i].1 is Disabled ==> line == "skip rule "@ + skipped[i].0 + ": "@
                + "Disabled"@
            &&& skipped[i].1 is NoRedirectAction ==> line == "skip rule "@ + skipped[i].0 + ": "@
                + "NoRedirectAction"@
            &&& skipped[i].1 is MissingTarget ==> line == "skip rule "@ + skipped[i].0 + ": "@
                + "MissingTarget"@
        },
{
}

/// What was built is read field by field.
pub proof fn law_built_view(built: BuiltConfig)
    ensures
        built@.config == built.config@,
        built@.translated == built.translated,
        built@.skipped.len() == built.skipped@.len(),
        forall|i: int|
            0 <= i < built.skipped@.len() ==> #[trigger] built@.skipped[i] == (
                built.skipped@[i].0@,
                built.skipped@[i].1,
            ),
        built@.log.len() == built.log@.len(),
        forall|i: int| 0 <= i < built.log@.len() ==> #[trigger] built@.log[i] == built.log@[i]@,
{
}

/// The redirects of editor rules are those of the rules that are kept, one by
/// one.
pub proof fn law_redirects_from(rules: Seq<EditorRule>)
    ensures
        redirects_from(rules).len() == translate::kept_rules(rules).len(),
        forall|i: int|
            0 <= i < redirects_from(rules).len() ==> #[trigger] redirects_from(rules)[i]
                == translate::redirect_from(translate::kept_rules(rules)[i]),
{
}

/// What is built is built from the body that was fetched: its rules, where it
/// decodes, however many are skipped; else the error of decoding, as it is.
pub proof fn law_body_that_decodes_is_built<
    D: Fn(&str) -> Result<Vec<EditorRule>, String>,
    E: Fn(&Rule) -> Value,
>(decode: D, encode: E, body: Seq<char>, built: Result<BuiltConfig, String>)
    requires
        is_build_of(decode, encode, body, built),
    ensures
        exists|text: &str, parsed: Result<Vec<EditorRule>, String>|
            {
                &&& #[trigger] decode.ensures((text,), parsed)
                &&& text@ == body
                &&& parsed is Ok <==> built is Ok
                &&& parsed matches Err(error) ==> built->Err_0@ == error@
                &&& parsed matches Ok(rules) ==> {
                    &&& built->Ok_0.translated == translate::kept_rules(rules@).len()
                    &&& built->Ok_0.skipped@.len() == translate::skipped_rules(rules@).len()
                    &&& is_built_from(rules@, encode, built->Ok_0)
                }
            },
{
    let (text, parsed) = choose|text: &str, parsed: Result<Vec<EditorRule>, String>| #[trigger]
        decode.ensures((text,), parsed) && text@ == body && is_built_reply(parsed, encode, built);
    if let Ok(rules) = parsed {
        law_skipped_rules_are_logged(rules@, encode, built->Ok_0);
    }
    assert(decode.ensures((text,), parsed));
}

/// A reply of success whose body decodes is always written, however many of its
/// rules are skipped: what follows is to write the config that is built from it
/// beside the ruleset file.
pub proof fn law_reply_that_decodes_is_written<
    D: Fn(&str) -> Result<Vec<EditorRule>, String>,
    E: Fn(&Rule) -> Value,
>(
    cfg: ConfigView,
    decode: D,
    encode: E,
    request: RulesRequestView,
    reply: ReplyView,
    body: Seq<char>,
    next: SyncStepView,
) -> (built: BuiltConfig)
    requires
        200 <= reply.status <= 299,
        reply.body == Some(body) || (reply.body is None && body.len() == 0),
        forall|text: &str, parsed: Result<Vec<EditorRule>, String>| #[trigger]
            decode.ensures((text,), parsed) && text@ == body ==> parsed is Ok,
        is_next_sync(
            cfg,
            decode,
            encode,
            SyncStepView::Fetch { request },
            SyncEventView::Replied(Ok(reply)),
            next,
        ),
    ensures
        is_build_of(decode, encode, body, Ok(built)),
        next == (SyncStepView::WriteTemp { tmp: cfg.out_path + ".tmp"@, built: built@ }),
{
    assert(body_of(reply) == body);
    let made = choose|made: Result<BuiltConfig, String>| #[trigger]
        is_build_of(decode, encode, body, made) && next == step_after_build(cfg, made);
    made->Ok_0
}

/// A cycle fails, with the error and the wait that it reports, where the reply
/// is none, is no success or does not decode, and where a file operation fails.
pub proof fn law_failures_are_reported<
    D: Fn(&str) -> Result<Vec<EditorRule>, String>,
    E: Fn(&Rule) -> Value,
>(
    cfg: ConfigView,
    decode: D,
    encode: E,
    step: SyncStepView,
    event: SyncEventView,
    next: SyncStepView,
    error: Seq<char>,
    shown: Seq<char>,
)
    requires
        is_next_sync(cfg, decode, encode, step, event, next),
        ({
            ||| {
                &&& step is Fetch
                &&& event == SyncEventView::Replied(Err(error))
                &&& shown == "request failed: "@ + error
            }
            ||| {
                &&& step is Fetch
                &&& event matches SyncEventView::Replied(Ok(reply)) && (reply.status < 200
                    || reply.status > 299) && reply.body == Some(error) && shown == "API returned "@
                    + reply.status_line + ": "@ + error
            }
            ||| {
                &&& step matches SyncStepView::WriteTemp { tmp, built } && shown == "write "@ + tmp
                    + ": "@ + error
                &&& event == SyncEventView::TempWritten(Err(error))
            }
            ||| {
                &&& step matches SyncStepView::Rename { tmp, path } && shown == "rename "@ + tmp
                    + " -> "@ + path + ": "@ + error
                &&& event == SyncEventView::Renamed(Err(error))
            }
            ||| {
                &&& step is Fetch
                &&& event matches SyncEventView::Replied(Ok(reply)) && 200 <= reply.status <= 299
                    && reply.body is Some && (forall|
                    text: &str,
                    parsed: Result<Vec<EditorRule>, String>,
                | #[trigger]
                    decode.ensures((text,), parsed) && text@ == reply.body->0 ==> (
                    parsed matches Err(e) && e@ == error))
                &&& shown == error
            }
        }),
    ensures
        next matches SyncStepView::Rest { report, wait_secs } && {
            &&& report == "sync failed (keeping previous ruleset): "@ + shown
            &&& cfg.interval_secs == 0 ==> wait_secs is None
            &&& cfg.interval_secs > 0 ==> wait_secs == Some(cfg.interval_secs)
        },
{
}

/// A file that was written beside its place is moved there, and with that the
/// cycle has succeeded, and says so.
pub proof fn law_written_file_is_moved<
    D: Fn(&str) -> Result<Vec<EditorRule>, String>,
    E: Fn(&Rule) -> Value,
>(
    cfg: ConfigView,
    decode: D,
    encode: E,
    tmp: Seq<char>,
    built: BuiltConfigView,
    moved: SyncStepView,
    rested: SyncStepView,
)
    requires
        is_next_sync(
            cfg,
            decode,
            encode,
            SyncStepView::WriteTemp { tmp, built },
            SyncEventView::TempWritten(Ok(())),
            moved,
        ),
        is_next_sync(cfg, decode, encode, moved, SyncEventView::Renamed(Ok(())), rested),
    ensures
        moved == (SyncStepView::Rename { tmp, path: cfg.out_path }),
        rested matches SyncStepView::Rest { report, wait_secs } && {
            &&& report == "wrote ruleset to "@ + cfg.out_path
            &&& cfg.interval_secs == 0 ==> wait_secs is None
            &&& cfg.interval_secs > 0 ==> wait_secs == Some(cfg.interval_secs)
        },
{
}

/// After a wait the next cycle asks for the rules anew; without one the sync is
/// over, and stays so. An event that is not what a step asks for changes nothing.
pub proof fn law_sync_goes_on_or_stops<
    D: Fn(&str) -> Result<Vec<EditorRule>, String>,
    E: Fn(&Rule) -> Value,
>(
    cfg: ConfigView,
    decode: D,
    encode: E,
    step: SyncStepView,
    event: SyncEventView,
    next: SyncStepView,
)
    requires
        is_next_sync(cfg, decode, encode, step, event, next),
    ensures
        step is Rest && event is Rested && step->wait_secs is Some ==> (
        next matches SyncStepView::Fetch { request } && request.token == cfg.token && request.accept
            == "application/json"@ && request.url == url_of(cfg.api_base, cfg.project_id)),
        step is Rest && event is Rested && step->wait_secs is None ==> next is Stop,
        step is Stop ==> next is Stop,
        !(step is Fetch && event is Replied) && !(step is WriteTemp && event is TempWritten) && !(
        step is Rename && event is Renamed) && !(step is Rest && event is Rested) ==> next == step,
{
}

/// A cycle whose reply is a success that decodes, and whose file operations work
/// out, ends with what is built from that reply in the ruleset file, however many
/// of its rules are skipped.
pub proof fn law_cycle_writes_what_decodes<
    D: Fn(&str) -> Result<Vec<EditorRule>, String>,
    E: Fn(&Rule) -> Value,
>(
    cfg: ConfigView,
    decode: D,
    encode: E,
    reply: ReplyView,
    body: Seq<char>,
    history: History,
) -> (built: BuiltConfig)
    requires
        200 <= reply.status <= 299,
        reply.body == Some(body) || (reply.body is None && body.len() == 0),
        forall|text: &str, parsed: Result<Vec<EditorRule>, String>| #[trigger]
            decode.ensures((text,), parsed) && text@ == body ==> parsed is Ok,
        is_history(cfg, decode, encode, history),
        history.events == seq![
            SyncEventView::Replied(Ok(reply)),
            SyncEventView::TempWritten(Ok(())),
            SyncEventView::Renamed(Ok(())),
        ],
    ensures
        is_build_of(decode, encode, body, Ok(built)),
        history.disks[3].contains_key(cfg.out_path),
        history.disks[3][cfg.out_path] == built.config@,
        history.steps[3] matches SyncStepView::Rest { report, .. } && report
            == "wrote ruleset to "@ + cfg.out_path,
{
    let History { events, steps, disks } = history;
    assert(is_next_sync(cfg, decode, encode, steps[0], events[0], steps[1]));
    let _ = law_reply_that_decodes_is_written(
        cfg,
        decode,
        encode,
        request_for(cfg),
        reply,
        body,
        steps[1],
    );
    assert(body_of(reply) == body);
    assert(history.events == cycle_events(reply));
    law_successful_cycle(cfg, decode, encode, reply, history)
}

/// A step of the sync is read as it is: each kind as itself, with all that it
/// carries.
pub proof fn law_sync_step_view(step: SyncStep)
    ensures
        step is Stop <==> step@ is Stop,
        step is Fetch <==> step@ is Fetch,
        step is WriteTemp <==> step@ is WriteTemp,
        step is Rename <==> step@ is Rename,
        step is Rest <==> step@ is Rest,
        step matches SyncStep::Fetch { request } ==> step@ == (SyncStepView::Fetch {
            request: RulesRequestView {
                url: request.url@,
                token: request.token@,
                accept: request.accept@,
            },
        }),
        step matches SyncStep::WriteTemp { tmp, built } ==> step@ == (SyncStepView::WriteTemp {
            tmp: tmp@,
            built: built@,
        }),
        step matches SyncStep::Rename { tmp, path } ==> step@ == (SyncStepView::Rename {
            tmp: tmp@,
            path: path@,
        }),
        step matches SyncStep::Rest { report, wait_secs } ==> {
            &&& step@->report == report@
            &&& wait_secs is None ==> step@->wait_secs is None
            &&& wait_secs matches Some(secs) ==> step@->wait_secs == Some(secs as nat)
        },
{
}

/// An event of the sync is read as it is: each kind as itself, with all that it
/// carries.
pub proof fn law_sync_event_view(event: SyncEvent)
    ensures
        event is Rested <==> event@ is Rested,
        event matches SyncEvent::Replied(Ok(reply)) ==> event@ == SyncEventView::Replied(
            Ok(reply@),
        ),
        event matches SyncEvent::Replied(Err(error)) ==> event@ == SyncEventView::Replied(
            Err(error@),
        ),
        event matches SyncEvent::TempWritten(Ok(_)) ==> (event@ matches SyncEventView::TempWritten(
            written,
        ) && written is Ok),
        event matches SyncEvent::TempWritten(Err(error)) ==> event@ == SyncEventView::TempWritten(
            Err(error@),
        ),
        event matches SyncEvent::Renamed(Ok(_)) ==> (event@ matches SyncEventView::Renamed(
            renamed,
        ) && renamed is Ok),
        event matches SyncEvent::Renamed(Err(error)) ==> event@ == SyncEventView::Renamed(
            Err(error@),
        ),
{
}

} // verus!
