//! What the plugin does with a request, as a sequence of steps. The guest's
//! entry point performs each step (a call into the host or the engine) and
//! hands back what came of it; the decisions are made here.

use serde_json::Value;
use vstd::prelude::*;

use crate::host;
use crate::host::scheme;
use crate::request;
use crate::request::{build_rio_request, Request};
use crate::ruleset;
use crate::text;

verus! {

/// What is to be done next.
#[derive(Debug)]
pub enum Step {
    /// Read the plugin config from the host.
    ReadConfig,
    /// Parse the ruleset of the config, build a router from it, and keep that in
    /// place of the one kept so far.
    LoadRules { config: String },
    /// Read the values of the header that holds the host.
    ReadHost,
    /// Read the request method.
    ReadMethod { host: String },
    /// Read the request URI.
    ReadUri { host: String, method: String },
    /// Read all request headers.
    ReadHeaders { host: String, method: String, uri: String },
    /// Match the request against the router that is kept.
    Match { request: Request },
    /// Build the action of the matched rules, and ask it for its status.
    BuildAction,
    /// Set the status of the response.
    SetStatus { status: u16 },
    /// Ask the action for the headers of a response of this status.
    FilterHeaders { status: u16 },
    /// Write the headers of the response.
    WriteHeaders { headers: Vec<(String, String)> },
    /// Return to the host: 1 lets the request through to the backend, 0 answers
    /// it with the response that was written.
    Return { next: i64 },
}

/// What came of a step.
#[derive(Debug)]
pub enum Event {
    Config(String),
    /// Is there a router, that is, was there any rule?
    Loaded(bool),
    HostValues(Vec<String>),
    Method(String),
    Uri(String),
    Headers(Vec<(String, String)>),
    /// How many rules matched.
    Matched(usize),
    Status(u16),
    StatusSet,
    Filtered(Vec<(String, String)>),
    HeadersWritten,
}

/// The config that the router at hand was built from. It outlives a request.
#[derive(Debug)]
pub struct Loaded {
    pub config: String,
    /// Did it give a router, that is, was there any rule?
    pub any: bool,
}

/// A loaded config as plain data.
pub struct LoadedView {
    pub config: Seq<char>,
    pub any: bool,
}

impl View for Loaded {
    type V = LoadedView;

    open spec fn view(&self) -> LoadedView {
        LoadedView { config: self.config@, any: self.any }
    }
}

/// What is loaded, as plain data.
pub open spec fn loaded_view(loaded: Option<Loaded>) -> Option<LoadedView> {
    match loaded {
        Some(loaded) => Some(loaded@),
        None => None,
    }
}

/// A step as plain data.
pub enum StepView {
    ReadConfig,
    LoadRules { config: Seq<char> },
    ReadHost,
    ReadMethod { host: Seq<char> },
    ReadUri { host: Seq<char>, method: Seq<char> },
    ReadHeaders { host: Seq<char>, method: Seq<char>, uri: Seq<char> },
    Match { request: request::RequestView },
    BuildAction,
    SetStatus { status: int },
    FilterHeaders { status: int },
    WriteHeaders { headers: Seq<(Seq<char>, Seq<char>)> },
    Return { next: int },
}

/// An event as plain data.
pub enum EventView {
    Config(Seq<char>),
    Loaded(bool),
    HostValues(Seq<Seq<char>>),
    Method(Seq<char>),
    Uri(Seq<char>),
    Headers(Seq<(Seq<char>, Seq<char>)>),
    Matched(nat),
    Status(nat),
    StatusSet,
    Filtered(Seq<(Seq<char>, Seq<char>)>),
    HeadersWritten,
}

impl View for Step {
    type V = StepView;

    open spec fn view(&self) -> StepView {
        match *self {
            Step::ReadConfig => StepView::ReadConfig,
            Step::LoadRules { config } => StepView::LoadRules { config: config@ },
            Step::ReadHost => StepView::ReadHost,
            Step::ReadMethod { host } => StepView::ReadMethod { host: host@ },
            Step::ReadUri { host, method } => StepView::ReadUri { host: host@, method: method@ },
            Step::ReadHeaders { host, method, uri } => StepView::ReadHeaders {
                host: host@,
                method: method@,
                uri: uri@,
            },
            Step::Match { request } => StepView::Match { request: request@ },
            Step::BuildAction => StepView::BuildAction,
            Step::SetStatus { status } => StepView::SetStatus { status: status as int },
            Step::FilterHeaders { status } => StepView::FilterHeaders { status: status as int },
            Step::WriteHeaders { headers } => StepView::WriteHeaders {
                headers: host::header_texts(headers@),
            },
            Step::Return { next } => StepView::Return { next: next as int },
        }
    }
}

impl View for Event {
    type V = EventView;

    open spec fn view(&self) -> EventView {
        match *self {
            Event::Config(config) => EventView::Config(config@),
            Event::Loaded(any) => EventView::Loaded(any),
            Event::HostValues(values) => EventView::HostValues(text::texts(values@)),
            Event::Method(method) => EventView::Method(method@),
            Event::Uri(uri) => EventView::Uri(uri@),
            Event::Headers(headers) => EventView::Headers(host::header_texts(headers@)),
            Event::Matched(count) => EventView::Matched(count as nat),
            Event::Status(status) => EventView::Status(status as nat),
            Event::StatusSet => EventView::StatusSet,
            Event::Filtered(headers) => EventView::Filtered(host::header_texts(headers@)),
            Event::HeadersWritten => EventView::HeadersWritten,
        }
    }
}

/// The request goes on to the backend, the response untouched.
pub open spec fn forward() -> StepView {
    StepView::Return { next: 1 }
}

/// The host of a request: the first value of its `host` header, empty where
/// there is none.
pub open spec fn host_of(values: Seq<Seq<char>>) -> Seq<char> {
    if values.len() > 0 {
        values[0]
    } else {
        Seq::empty()
    }
}

/// Is `config` other than the one that is loaded?
pub open spec fn is_new_config(loaded: Option<LoadedView>, config: Seq<char>) -> bool {
    match loaded {
        Some(loaded) => loaded.config != config,
        None => true,
    }
}

/// The step that follows once the rules are at hand: a request is let through
/// where there are none.
pub open spec fn step_with(any: bool) -> StepView {
    if any {
        StepView::ReadHost
    } else {
        forward()
    }
}

/// The step that follows `step` once `event` came of it. Rules are loaded only
/// where the config is another than the one that is loaded. An event that does
/// not answer the step leaves it to be done.
pub open spec fn next_step(
    loaded: Option<LoadedView>,
    step: StepView,
    event: EventView,
) -> StepView {
    match (step, event) {
        (StepView::ReadConfig, EventView::Config(config)) => if is_new_config(loaded, config) {
            StepView::LoadRules { config }
        } else {
            step_with(loaded->0.any)
        },
        (StepView::LoadRules { config }, EventView::Loaded(any)) => step_with(any),
        (StepView::ReadHost, EventView::HostValues(values)) => StepView::ReadMethod {
            host: host_of(values),
        },
        (StepView::ReadMethod { host }, EventView::Method(method)) => StepView::ReadUri {
            host,
            method,
        },
        (
            StepView::ReadUri { host, method },
            EventView::Uri(uri),
        ) => StepView::ReadHeaders { host, method, uri },
        (
            StepView::ReadHeaders { host, method, uri },
            EventView::Headers(headers),
        ) => StepView::Match {
            request: request::request_of(host, "https"@, method, uri, headers),
        },
        (StepView::Match { request }, EventView::Matched(count)) => if count > 0 {
            StepView::BuildAction
        } else {
            forward()
        },
        (StepView::BuildAction, EventView::Status(status)) => if status != 0 {
            StepView::SetStatus { status: status as int }
        } else {
            forward()
        },
        (StepView::SetStatus { status }, EventView::StatusSet) => StepView::FilterHeaders {
            status,
        },
        (
            StepView::FilterHeaders { status },
            EventView::Filtered(headers),
        ) => StepView::WriteHeaders { headers },
        (StepView::WriteHeaders { headers }, EventView::HeadersWritten) => StepView::Return {
            next: 0,
        },
        _ => step,
    }
}

/// What is loaded once `event` came of `step`.
pub open spec fn next_loaded(
    loaded: Option<LoadedView>,
    step: StepView,
    event: EventView,
) -> Option<LoadedView> {
    match (step, event) {
        (StepView::LoadRules { config }, EventView::Loaded(any)) => Some(
            LoadedView { config, any },
        ),
        _ => loaded,
    }
}

/// The step that every request starts with.
pub fn first_step() -> (step: Step)
    ensures
        step@ == StepView::ReadConfig,
{
    Step::ReadConfig
}

/// Must the rules of `config` be loaded? Not where they are already.
pub fn needs_load(loaded: &Option<Loaded>, config: &String) -> (needed: bool)
    ensures
        needed == is_new_config(loaded_view(*loaded), config@),
{
    match loaded {
        Some(loaded) => loaded.config != *config,
        None => true,
    }
}

fn begin(any: bool) -> (step: Step)
    ensures
        step@ == step_with(any),
{
    if any {
        Step::ReadHost
    } else {
        Step::Return { next: 1 }  // no rules: let the request through
    }
}

/// Decide what to do next with a request. `loaded` is kept from one request to
/// the next, as is the router.
pub fn handle_request(loaded: &mut Option<Loaded>, step: Step, event: Event) -> (next: Step)
    ensures
        next@ == next_step(loaded_view(*old(loaded)), step@, event@),
        loaded_view(*final(loaded)) == next_loaded(loaded_view(*old(loaded)), step@, event@),
{
    match (step, event) {
        (Step::ReadConfig, Event::Config(config)) => {
            if needs_load(&*loaded, &config) {
                return Step::LoadRules { config };
            }
            match &*loaded {
                Some(loaded) => begin(loaded.any),
                None => begin(false),
            }
        },
        (Step::LoadRules { config }, Event::Loaded(any)) => {
            *loaded = Some(Loaded { config, any });
            begin(any)
        },
        (Step::ReadHost, Event::HostValues(values)) => {
            let host: String = if values.len() > 0 {
                values[0].clone()
            } else {
                String::new()
            };
            Step::ReadMethod { host }
        },
        (Step::ReadMethod { host }, Event::Method(method)) => Step::ReadUri { host, method },
        (Step::ReadUri { host, method }, Event::Uri(uri)) => Step::ReadHeaders {
            host,
            method,
            uri,
        },
        (Step::ReadHeaders { host, method, uri }, Event::Headers(headers)) => {
            let request: Request = build_rio_request(
                host.as_str(),
                scheme(),
                method.as_str(),
                uri.as_str(),
                headers,
            );
            Step::Match { request }
        },
        (Step::Match { request: _ }, Event::Matched(count)) => if count > 0 {
            Step::BuildAction
        } else {
            Step::Return { next: 1 }  // no rule matched: forward untouched
        },
        (Step::BuildAction, Event::Status(status)) => if status != 0 {
            Step::SetStatus { status }
        } else {
            Step::Return { next: 1 }  // the action changes no status: forward
        },
        (Step::SetStatus { status }, Event::StatusSet) => Step::FilterHeaders { status },
        (Step::FilterHeaders { status: _ }, Event::Filtered(headers)) => Step::WriteHeaders {
            headers,
        },
        (Step::WriteHeaders { headers: _ }, Event::HeadersWritten) => Step::Return {
            next: 0,
        },  // short-circuit: the host returns the response just written
        (step, _) => step,
    }
}

/// The guest between two events: what is loaded, and the step to be done.
pub struct GuestView {
    pub loaded: Option<LoadedView>,
    pub step: StepView,
}

/// The guest that is reached from the start of a request by a sequence of
/// events.
pub open spec fn guest_after(loaded: Option<LoadedView>, events: Seq<EventView>) -> GuestView
    decreases events.len(),
{
    if events.len() == 0 {
        GuestView { loaded, step: StepView::ReadConfig }
    } else {
        let before = guest_after(loaded, events.drop_last());
        GuestView {
            loaded: next_loaded(before.loaded, before.step, events.last()),
            step: next_step(before.loaded, before.step, events.last()),
        }
    }
}

/// The step that is reached from the start of a request by a sequence of events.
pub open spec fn step_after(loaded: Option<LoadedView>, events: Seq<EventView>) -> StepView {
    guest_after(loaded, events).step
}

/// What is loaded after a sequence of requests, each with its events.
pub open spec fn loaded_after(
    loaded: Option<LoadedView>,
    requests: Seq<Seq<EventView>>,
) -> Option<LoadedView>
    decreases requests.len(),
{
    if requests.len() == 0 {
        loaded
    } else {
        guest_after(loaded_after(loaded, requests.drop_last()), requests.last()).loaded
    }
}

/// Every config that is read on the way is this one.
pub open spec fn reads_only(events: Seq<EventView>, config: Seq<char>) -> bool {
    forall|i: int|
        0 <= i < events.len() ==> ((#[trigger] events[i]) matches EventView::Config(read)
            ==> read == config)
}

/// The router is built once: while the config stays as it is loaded, no step of
/// any request loads rules, and what is loaded stays.
pub proof fn law_router_is_built_once(
    kept: LoadedView,
    requests: Seq<Seq<EventView>>,
    r: int,
    k: int,
)
    requires
        forall|i: int|
            0 <= i < requests.len() ==> reads_only(#[trigger] requests[i], kept.config),
        0 <= r < requests.len(),
        0 <= k <= requests[r].len(),
    ensures
        loaded_after(Some(kept), requests.take(r)) == Some(kept),
        guest_after(Some(kept), requests[r].take(k)).loaded == Some(kept),
        !(step_after(Some(kept), requests[r].take(k)) is LoadRules),
    decreases r,
{
    if r > 0 {
        let last = requests[r - 1];
        law_router_is_built_once(kept, requests, r - 1, last.len() as int);
        assert(last.take(last.len() as int) == last);
        assert(requests.take(r).drop_last() == requests.take(r - 1));
    }
    lemma_nothing_is_loaded(kept, requests[r], k);
}

proof fn lemma_nothing_is_loaded(kept: LoadedView, events: Seq<EventView>, k: int)
    requires
        reads_only(events, kept.config),
        0 <= k <= events.len(),
    ensures
        guest_after(Some(kept), events.take(k)).loaded == Some(kept),
        !(step_after(Some(kept), events.take(k)) is LoadRules),
    decreases k,
{
    if k > 0 {
        lemma_nothing_is_loaded(kept, events, k - 1);
        assert(events.take(k).drop_last() == events.take(k - 1));
        assert(events.take(k).last() == events[k - 1]);
    }
}

/// A changed config is loaded before any rule is matched, and is then the one
/// that is loaded, with which the next request begins as this one goes on.
pub proof fn law_changed_config_is_loaded(
    loaded: Option<LoadedView>,
    config: Seq<char>,
    any: bool,
)
    requires
        is_new_config(loaded, config),
    ensures
        step_after(loaded, seq![EventView::Config(config)]) == (StepView::LoadRules { config }),
        guest_after(loaded, seq![EventView::Config(config), EventView::Loaded(any)]) == (
        GuestView { loaded: Some(LoadedView { config, any }), step: step_with(any) }),
        step_after(Some(LoadedView { config, any }), seq![EventView::Config(config)]) == step_with(
            any,
        ),
{
    lemma_opening(loaded, config, any);
    lemma_opening(Some(LoadedView { config, any }), config, any);
}

/// How a request begins: with the config, and where that is new, with its rules.
pub open spec fn opening(
    loaded: Option<LoadedView>,
    config: Seq<char>,
    any: bool,
) -> Seq<EventView> {
    if is_new_config(loaded, config) {
        seq![EventView::Config(config), EventView::Loaded(any)]
    } else {
        seq![EventView::Config(config)]
    }
}

/// The config of the request holds rules, or none: as it was loaded with, where
/// it is loaded.
pub open spec fn is_opening_for(
    loaded: Option<LoadedView>,
    config: Seq<char>,
    any: bool,
) -> bool {
    is_new_config(loaded, config) || loaded->0.any == any
}

proof fn lemma_opening(loaded: Option<LoadedView>, config: Seq<char>, any: bool)
    requires
        is_opening_for(loaded, config, any),
    ensures
        guest_after(loaded, opening(loaded, config, any)) == (GuestView {
            loaded: Some(LoadedView { config, any }),
            step: step_with(any),
        }),
        is_new_config(loaded, config) ==> step_after(loaded, seq![EventView::Config(config)]) == (
        StepView::LoadRules { config }),
{
    let start = Seq::<EventView>::empty();
    let read = start.push(EventView::Config(config));
    lemma_guest_push(loaded, start, EventView::Config(config));
    lemma_guest_push(loaded, read, EventView::Loaded(any));
    assert(read == seq![EventView::Config(config)]);
    assert(read.push(EventView::Loaded(any)) == seq![
        EventView::Config(config),
        EventView::Loaded(any),
    ]);
}

/// A step of answering the request here, rather than letting it through.
pub open spec fn is_answering(step: StepView) -> bool {
    match step {
        StepView::SetStatus { .. } => true,
        StepView::FilterHeaders { .. } => true,
        StepView::WriteHeaders { .. } => true,
        StepView::Return { next } => next == 0,
        _ => false,
    }
}

/// A request that is let through has had nothing written to its response: no
/// step on the way set a status or wrote headers.
pub proof fn law_forwarded_untouched(
    loaded: Option<LoadedView>,
    events: Seq<EventView>,
    k: int,
)
    requires
        step_after(loaded, events) == forward(),
        0 <= k <= events.len(),
    ensures
        !is_answering(step_after(loaded, events.take(k))),
{
    if is_answering(step_after(loaded, events.take(k))) {
        lemma_answering_stays(loaded, events, k);
    }
}

/// Once the guest answers a request, it does so to the end.
proof fn lemma_answering_stays(loaded: Option<LoadedView>, events: Seq<EventView>, k: int)
    requires
        0 <= k <= events.len(),
        is_answering(step_after(loaded, events.take(k))),
    ensures
        is_answering(step_after(loaded, events)),
    decreases events.len() - k,
{
    if k == events.len() {
        assert(events.take(k) == events);
    } else {
        assert(events.take(k + 1).drop_last() == events.take(k));
        lemma_answering_stays(loaded, events, k + 1);
    }
}

/// Where the rules of a request come from: the event at `k` loads some, or reads
/// a config that is loaded with some.
pub open spec fn has_rules_from(
    loaded: Option<LoadedView>,
    events: Seq<EventView>,
    k: int,
) -> bool {
    ||| {
        &&& step_after(loaded, events.take(k)) is LoadRules
        &&& events[k] == EventView::Loaded(true)
    }
    ||| {
        &&& step_after(loaded, events.take(k)) is ReadConfig
        &&& loaded matches Some(kept) && kept.any && events[k] == EventView::Config(kept.config)
    }
}

/// The event at `k` answers the step of setting the status: it is set.
pub open spec fn is_status_set_at(
    loaded: Option<LoadedView>,
    events: Seq<EventView>,
    k: int,
) -> bool {
    &&& 0 <= k < events.len()
    &&& step_after(loaded, events.take(k)) is SetStatus
    &&& events[k] is StatusSet
}

/// The event at `k` answers the step of writing the headers: they are written.
pub open spec fn are_headers_written_at(
    loaded: Option<LoadedView>,
    events: Seq<EventView>,
    k: int,
) -> bool {
    &&& 0 <= k < events.len()
    &&& step_after(loaded, events.take(k)) is WriteHeaders
    &&& events[k] is HeadersWritten
}

/// How a request comes to be answered, by the positions of six events: there
/// are rules, at least one of them matched, the action gave a status other than
/// zero, that status was set, the action gave the headers of a response of that
/// status, and these were written.
pub open spec fn is_answered_by(
    loaded: Option<LoadedView>,
    events: Seq<EventView>,
    rules: int,
    matched: int,
    status: int,
    set: int,
    filtered: int,
    written: int,
) -> bool {
    &&& 0 <= rules < matched < status < set < filtered < written < events.len()
    &&& has_rules_from(loaded, events, rules)
    &&& step_after(loaded, events.take(matched)) is Match
    &&& events[matched] matches EventView::Matched(count) && count > 0
    &&& step_after(loaded, events.take(status)) is BuildAction
    &&& events[status] matches EventView::Status(code) && code != 0 && step_after(
        loaded,
        events.take(set),
    ) == (StepView::SetStatus { status: code as int }) && step_after(loaded, events.take(filtered))
        == (StepView::FilterHeaders { status: code as int })
    &&& events[set] is StatusSet
    &&& events[filtered] matches EventView::Filtered(headers) && step_after(
        loaded,
        events.take(written),
    ) == (StepView::WriteHeaders { headers })
    &&& events[written] is HeadersWritten
}

/// A request is answered here only by a matching rule whose action carries a
/// status: the response has that status, and the headers of that action. Both
/// are written exactly once.
pub proof fn law_answered_by_a_matching_rule(loaded: Option<LoadedView>, events: Seq<EventView>)
    requires
        step_after(loaded, events) == (StepView::Return { next: 0 }),
    ensures
        exists|rules: int, matched: int, status: int, set: int, filtered: int, written: int|
            {
                &&& #[trigger] is_answered_by(
                    loaded,
                    events,
                    rules,
                    matched,
                    status,
                    set,
                    filtered,
                    written,
                )
                &&& forall|k: int| #[trigger] is_status_set_at(loaded, events, k) <==> k == set
                &&& forall|k: int| #[trigger]
                    are_headers_written_at(loaded, events, k) <==> k == written
            },
{
    let n = events.len() as int;
    assert(events.take(n) == events);
    let written = lemma_entry(
        loaded,
        events,
        n,
        |s: StepView| s == (StepView::Return { next: 0 }),
    );
    let (status, set, filtered) = lemma_headers_entry(loaded, events, written);
    let matched = lemma_entry(loaded, events, status, |s: StepView| s is BuildAction);
    assert(step_after(loaded, events.take(matched)) is Match);
    let rules = lemma_match_entry(loaded, events, matched);
    assert forall|k: int| #[trigger] is_status_set_at(loaded, events, k) implies k == set by {
        lemma_done_once(loaded, events, k, set);
        lemma_done_once(loaded, events, set, k);
    }
    assert forall|k: int| #[trigger] are_headers_written_at(loaded, events, k) implies k
        == written by {
        lemma_done_once(loaded, events, k, written);
        lemma_done_once(loaded, events, written, k);
    }
    assert(is_answered_by(loaded, events, rules, matched, status, set, filtered, written));
}

/// How far a request has come.
spec fn progress(step: StepView) -> int {
    match step {
        StepView::ReadConfig => 0,
        StepView::LoadRules { .. } => 1,
        StepView::ReadHost => 2,
        StepView::ReadMethod { .. } => 3,
        StepView::ReadUri { .. } => 4,
        StepView::ReadHeaders { .. } => 5,
        StepView::Match { .. } => 6,
        StepView::BuildAction => 7,
        StepView::SetStatus { .. } => 8,
        StepView::FilterHeaders { .. } => 9,
        StepView::WriteHeaders { .. } => 10,
        StepView::Return { .. } => 11,
    }
}

/// A request never goes back.
proof fn lemma_progress(loaded: Option<LoadedView>, events: Seq<EventView>, a: int, b: int)
    requires
        0 <= a <= b <= events.len(),
    ensures
        progress(step_after(loaded, events.take(a))) <= progress(
            step_after(loaded, events.take(b)),
        ),
    decreases b - a,
{
    if a < b {
        lemma_progress(loaded, events, a, b - 1);
        assert(events.take(b).drop_last() == events.take(b - 1));
    }
}

/// A step that is left at one position is not there to be done later.
proof fn lemma_done_once(loaded: Option<LoadedView>, events: Seq<EventView>, a: int, b: int)
    requires
        0 <= a < events.len(),
        0 <= b < events.len(),
        is_status_set_at(loaded, events, a) || are_headers_written_at(loaded, events, a),
        progress(step_after(loaded, events.take(a))) == progress(
            step_after(loaded, events.take(b)),
        ),
    ensures
        b <= a,
{
    assert(events.take(a + 1).drop_last() == events.take(a));
    if a < b {
        lemma_progress(loaded, events, a + 1, b);
    }
}

/// Headers are written after the status was decided on and set.
proof fn lemma_headers_entry(
    loaded: Option<LoadedView>,
    events: Seq<EventView>,
    n: int,
) -> (positions: (int, int, int))
    requires
        0 <= n <= events.len(),
        step_after(loaded, events.take(n)) is WriteHeaders,
    ensures
        ({
            let (status, set, filtered) = positions;
            &&& 0 <= status < set < filtered < n
            &&& step_after(loaded, events.take(status)) is BuildAction
            &&& events[status] matches EventView::Status(code) && code != 0 && step_after(
                loaded,
                events.take(set),
            ) == (StepView::SetStatus { status: code as int }) && step_after(
                loaded,
                events.take(filtered),
            ) == (StepView::FilterHeaders { status: code as int })
            &&& events[set] is StatusSet
            &&& events[filtered] matches EventView::Filtered(headers) && step_after(
                loaded,
                events.take(n),
            ) == (StepView::WriteHeaders { headers })
        }),
{
    let written = step_after(loaded, events.take(n));
    let filtered = lemma_entry(loaded, events, n, |s: StepView| s == written);
    let filtering = step_after(loaded, events.take(filtered));
    assert(filtering is FilterHeaders);
    let set = lemma_entry(loaded, events, filtered, |s: StepView| s == filtering);
    let setting = step_after(loaded, events.take(set));
    assert(setting is SetStatus);
    let status = lemma_entry(loaded, events, set, |s: StepView| s == setting);
    assert(step_after(loaded, events.take(status)) is BuildAction);
    (status, set, filtered)
}

/// A request is matched only where there are rules.
proof fn lemma_match_entry(loaded: Option<LoadedView>, events: Seq<EventView>, n: int) -> (rules:
    int)
    requires
        0 <= n <= events.len(),
        step_after(loaded, events.take(n)) is Match,
    ensures
        0 <= rules < n,
        has_rules_from(loaded, events, rules),
{
    let headers = lemma_entry(loaded, events, n, |s: StepView| s is Match);
    assert(step_after(loaded, events.take(headers)) is ReadHeaders);
    let uri = lemma_entry(loaded, events, headers, |s: StepView| s is ReadHeaders);
    assert(step_after(loaded, events.take(uri)) is ReadUri);
    let method = lemma_entry(loaded, events, uri, |s: StepView| s is ReadUri);
    assert(step_after(loaded, events.take(method)) is ReadMethod);
    let host = lemma_entry(loaded, events, method, |s: StepView| s is ReadMethod);
    assert(step_after(loaded, events.take(host)) is ReadHost);
    let rules = lemma_entry(loaded, events, host, |s: StepView| s is ReadHost);
    lemma_loaded_at_start(loaded, events, rules);
    rules
}

/// Until the config is read, what was loaded before the request is.
proof fn lemma_loaded_at_start(loaded: Option<LoadedView>, events: Seq<EventView>, n: int)
    requires
        0 <= n <= events.len(),
    ensures
        step_after(loaded, events.take(n)) is ReadConfig ==> guest_after(
            loaded,
            events.take(n),
        ).loaded == loaded,
    decreases n,
{
    if n > 0 {
        lemma_loaded_at_start(loaded, events, n - 1);
        assert(events.take(n).drop_last() == events.take(n - 1));
    }
}

/// A step that satisfies `p`, which the first step does not, was entered: by
/// the event at the position given, from a step that does not satisfy it.
proof fn lemma_entry(
    loaded: Option<LoadedView>,
    events: Seq<EventView>,
    n: int,
    p: spec_fn(StepView) -> bool,
) -> (k: int)
    requires
        0 <= n <= events.len(),
        p(step_after(loaded, events.take(n))),
        !p(StepView::ReadConfig),
    ensures
        0 <= k < n,
        !p(step_after(loaded, events.take(k))),
        p(step_after(loaded, events.take(k + 1))),
        step_after(loaded, events.take(k + 1)) == next_step(
            guest_after(loaded, events.take(k)).loaded,
            step_after(loaded, events.take(k)),
            events[k],
        ),
    decreases n,
{
    assert(events.take(n).drop_last() == events.take(n - 1));
    if p(step_after(loaded, events.take(n - 1))) {
        lemma_entry(loaded, events, n - 1, p)
    } else {
        n - 1
    }
}

/// A request whose steps are answered one after the other, with rules at hand,
/// a match and a status other than zero: it is matched as the request that its
/// parts make, its response gets that status and the headers that the action
/// gave, and it is answered here.
pub proof fn law_redirect(
    loaded: Option<LoadedView>,
    config: Seq<char>,
    host_values: Seq<Seq<char>>,
    method: Seq<char>,
    uri: Seq<char>,
    headers: Seq<(Seq<char>, Seq<char>)>,
    count: nat,
    status: nat,
    response: Seq<(Seq<char>, Seq<char>)>,
)
    requires
        is_opening_for(loaded, config, true),
        count > 0,
        status > 0,
    ensures
        ({
            let asked = request_events(loaded, config, host_values, method, uri, headers);
            let decided = asked.push(EventView::Matched(count)).push(EventView::Status(status));
            let filtered = decided.push(EventView::StatusSet).push(EventView::Filtered(response));
            &&& step_after(loaded, asked) == (StepView::Match {
                request: request::request_of(
                    host_of(host_values),
                    "https"@,
                    method,
                    uri,
                    headers,
                ),
            })
            &&& step_after(loaded, decided) == (StepView::SetStatus { status: status as int })
            &&& step_after(loaded, filtered) == (StepView::WriteHeaders { headers: response })
            &&& step_after(loaded, filtered.push(EventView::HeadersWritten)) == (
            StepView::Return { next: 0 })
        }),
{
    let asked = request_events(loaded, config, host_values, method, uri, headers);
    lemma_request_events(loaded, config, host_values, method, uri, headers);
    let a = asked.push(EventView::Matched(count));
    lemma_guest_push(loaded, asked, EventView::Matched(count));
    lemma_guest_push(loaded, a, EventView::Status(status));
    let decided = a.push(EventView::Status(status));
    lemma_guest_push(loaded, decided, EventView::StatusSet);
    let b = decided.push(EventView::StatusSet);
    lemma_guest_push(loaded, b, EventView::Filtered(response));
    lemma_guest_push(loaded, b.push(EventView::Filtered(response)), EventView::HeadersWritten);
}

/// A request for which there are no rules, or which no rule matches, or whose
/// action carries no status, goes on to the backend.
pub proof fn law_forward(
    loaded: Option<LoadedView>,
    config: Seq<char>,
    host_values: Seq<Seq<char>>,
    method: Seq<char>,
    uri: Seq<char>,
    headers: Seq<(Seq<char>, Seq<char>)>,
    count: nat,
)
    requires
        count > 0,
    ensures
        is_opening_for(loaded, config, false) ==> step_after(loaded, opening(loaded, config, false))
            == forward(),
        is_opening_for(loaded, config, true) ==> {
            let asked = request_events(loaded, config, host_values, method, uri, headers);
            &&& step_after(loaded, asked.push(EventView::Matched(0))) == forward()
            &&& step_after(
                loaded,
                asked.push(EventView::Matched(count)).push(EventView::Status(0)),
            ) == forward()
        },
{
    if is_opening_for(loaded, config, false) {
        lemma_opening(loaded, config, false);
    }
    if is_opening_for(loaded, config, true) {
        let asked = request_events(loaded, config, host_values, method, uri, headers);
        lemma_request_events(loaded, config, host_values, method, uri, headers);
        lemma_guest_push(loaded, asked, EventView::Matched(0));
        lemma_guest_push(loaded, asked, EventView::Matched(count));
        lemma_guest_push(loaded, asked.push(EventView::Matched(count)), EventView::Status(0));
    }
}

/// A config from which no rule is read lets every request through, the one for
/// which it is loaded and those that find it loaded; one with rules does not by
/// itself.
pub proof fn law_no_rules_forwards<
    R,
    T,
    D: Fn(&Value) -> Option<R>,
    N: Fn() -> T,
    I: Fn(T, R) -> T,
    C: Fn(T, Option<u64>) -> T,
>(
    loaded: Option<LoadedView>,
    config: Seq<char>,
    decode: D,
    empty: N,
    insert: I,
    cache: C,
    outcomes: Seq<Option<R>>,
    router: Option<T>,
)
    requires
        is_new_config(loaded, config),
        ruleset::are_decoded(decode, ruleset::config_entries(config), outcomes),
        ruleset::is_router_of(ruleset::present(outcomes), empty, insert, cache, router),
    ensures
        ({
            let first = guest_after(
                loaded,
                seq![EventView::Config(config), EventView::Loaded(router is Some)],
            );
            let any = ruleset::present(outcomes).len() > 0;
            &&& first.step == step_with(any)
            &&& step_after(first.loaded, seq![EventView::Config(config)]) == step_with(any)
        }),
{
    law_changed_config_is_loaded(loaded, config, router is Some);
}

/// The events of a request with rules at hand, up to the match.
pub open spec fn request_events(
    loaded: Option<LoadedView>,
    config: Seq<char>,
    host_values: Seq<Seq<char>>,
    method: Seq<char>,
    uri: Seq<char>,
    headers: Seq<(Seq<char>, Seq<char>)>,
) -> Seq<EventView> {
    opening(loaded, config, true).push(EventView::HostValues(host_values)).push(
        EventView::Method(method),
    ).push(EventView::Uri(uri)).push(EventView::Headers(headers))
}

proof fn lemma_request_events(
    loaded: Option<LoadedView>,
    config: Seq<char>,
    host_values: Seq<Seq<char>>,
    method: Seq<char>,
    uri: Seq<char>,
    headers: Seq<(Seq<char>, Seq<char>)>,
)
    requires
        is_opening_for(loaded, config, true),
    ensures
        step_after(loaded, request_events(loaded, config, host_values, method, uri, headers)) == (
        StepView::Match {
            request: request::request_of(host_of(host_values), "https"@, method, uri, headers),
        }),
{
    lemma_opening(loaded, config, true);
    let e1 = opening(loaded, config, true);
    let e2 = e1.push(EventView::HostValues(host_values));
    let e3 = e2.push(EventView::Method(method));
    let e4 = e3.push(EventView::Uri(uri));
    lemma_guest_push(loaded, e1, EventView::HostValues(host_values));
    lemma_guest_push(loaded, e2, EventView::Method(method));
    lemma_guest_push(loaded, e3, EventView::Uri(uri));
    lemma_guest_push(loaded, e4, EventView::Headers(headers));
}

proof fn lemma_guest_push(loaded: Option<LoadedView>, events: Seq<EventView>, event: EventView)
    ensures
        ({
            let before = guest_after(loaded, events);
            guest_after(loaded, events.push(event)) == (GuestView {
                loaded: next_loaded(before.loaded, before.step, event),
                step: next_step(before.loaded, before.step, event),
            })
        }),
{
    assert(events.push(event).drop_last() == events);
}

/// What a config that is read leads to: one that is not loaded is loaded, one
/// that is loaded is not, and then its rules decide, as they were loaded.
pub proof fn law_config_is_loaded_unless_it_is(
    loaded: Option<LoadedView>,
    config: Seq<char>,
)
    ensures
        ({
            let next = next_step(loaded, StepView::ReadConfig, EventView::Config(config));
            &&& loaded is None ==> next == (StepView::LoadRules { config })
            &&& loaded matches Some(kept) ==> {
                &&& kept.config != config ==> next == (StepView::LoadRules { config })
                &&& kept.config == config && kept.any ==> next is ReadHost
                &&& kept.config == config && !kept.any ==> next == (StepView::Return { next: 1 })
            }
            &&& next_loaded(loaded, StepView::ReadConfig, EventView::Config(config)) == loaded
        }),
{
}

/// Loading keeps the config that was loaded, and whether it has rules; without
/// rules the request goes on to the backend at once.
pub proof fn law_loading_is_kept(loaded: Option<LoadedView>, config: Seq<char>, any: bool)
    ensures
        ({
            let step = StepView::LoadRules { config };
            let event = EventView::Loaded(any);
            &&& next_loaded(loaded, step, event) == Some(LoadedView { config, any })
            &&& any ==> next_step(loaded, step, event) is ReadHost
            &&& !any ==> next_step(loaded, step, event) == (StepView::Return { next: 1 })
        }),
{
}

/// The request that is matched is the one that came: the first value of its host
/// header, its method and URI as they were read, https, and its headers.
pub proof fn law_matched_as_it_came(
    loaded: Option<LoadedView>,
    host_values: Seq<Seq<char>>,
    method: Seq<char>,
    uri: Seq<char>,
    headers: Seq<(Seq<char>, Seq<char>)>,
)
    ensures
        ({
            let s1 = next_step(loaded, StepView::ReadHost, EventView::HostValues(host_values));
            let s2 = next_step(loaded, s1, EventView::Method(method));
            let s3 = next_step(loaded, s2, EventView::Uri(uri));
            let s4 = next_step(loaded, s3, EventView::Headers(headers));
            s4 matches StepView::Match { request } && {
                &&& request.path_and_query == Some(uri)
                &&& request.headers == headers
                &&& request.scheme == Some("https"@)
                &&& method.len() > 0 ==> request.method == Some(method)
                &&& method.len() == 0 ==> request.method is None
                &&& host_values.len() > 0 && host_values[0].len() > 0 ==> request.host == Some(
                    host_values[0],
                )
                &&& host_values.len() == 0 || host_values[0].len() == 0 ==> request.host is None
                &&& request.remote_addr is None
                &&& request.created_at is None
                &&& request.sampling_override is None
            }
        }),
{
    reveal_strlit("https");
}

/// However many rules match, their action is built; none matching forwards.
/// Whatever status the action gives, that status is set, asked the headers for,
/// and answered with, all headers written; none forwards.
pub proof fn law_action_decides(
    loaded: Option<LoadedView>,
    request: request::RequestView,
    count: nat,
    code: nat,
    headers: Seq<(Seq<char>, Seq<char>)>,
)
    ensures
        ({
            let matched = next_step(loaded, StepView::Match { request }, EventView::Matched(count));
            let decided = next_step(loaded, StepView::BuildAction, EventView::Status(code));
            let set = next_step(loaded, decided, EventView::StatusSet);
            let filtered = next_step(loaded, set, EventView::Filtered(headers));
            let written = next_step(loaded, filtered, EventView::HeadersWritten);
            &&& count > 0 ==> matched is BuildAction
            &&& count == 0 ==> matched == (StepView::Return { next: 1 })
            &&& code == 0 ==> decided == (StepView::Return { next: 1 })
            &&& code > 0 ==> {
                &&& decided == (StepView::SetStatus { status: code as int })
                &&& set == (StepView::FilterHeaders { status: code as int })
                &&& filtered == (StepView::WriteHeaders { headers })
                &&& written == (StepView::Return { next: 0 })
            }
        }),
{
}

/// An event that is not what a step asks for changes nothing.
pub proof fn law_stray_event_changes_nothing(
    loaded: Option<LoadedView>,
    step: StepView,
    event: EventView,
)
    requires
        !(step is ReadConfig && event is Config),
        !(step is LoadRules && event is Loaded),
        !(step is ReadHost && event is HostValues),
        !(step is ReadMethod && event is Method),
        !(step is ReadUri && event is Uri),
        !(step is ReadHeaders && event is Headers),
        !(step is Match && event is Matched),
        !(step is BuildAction && event is Status),
        !(step is SetStatus && event is StatusSet),
        !(step is FilterHeaders && event is Filtered),
        !(step is WriteHeaders && event is HeadersWritten),
    ensures
        next_step(loaded, step, event) == step,
        next_loaded(loaded, step, event) == loaded,
{
}

/// Only loading changes what is loaded.
pub proof fn law_only_loading_changes_what_is_loaded(
    loaded: Option<LoadedView>,
    step: StepView,
    event: EventView,
)
    ensures
        !(step is LoadRules) ==> next_loaded(loaded, step, event) == loaded,
        !(event is Loaded) ==> next_loaded(loaded, step, event) == loaded,
{
}

/// A step is read as it is: each kind as itself, with all that it carries.
pub proof fn law_step_view(step: Step)
    ensures
        step is ReadConfig <==> step@ is ReadConfig,
        step is ReadHost <==> step@ is ReadHost,
        step is BuildAction <==> step@ is BuildAction,
        step is LoadRules <==> step@ is LoadRules,
        step is ReadMethod <==> step@ is ReadMethod,
        step is ReadUri <==> step@ is ReadUri,
        step is ReadHeaders <==> step@ is ReadHeaders,
        step is Match <==> step@ is Match,
        step is SetStatus <==> step@ is SetStatus,
        step is FilterHeaders <==> step@ is FilterHeaders,
        step is WriteHeaders <==> step@ is WriteHeaders,
        step is Return <==> step@ is Return,
        step matches Step::LoadRules { config } ==> step@ == (StepView::LoadRules {
            config: config@,
        }),
        step matches Step::ReadMethod { host } ==> step@ == (StepView::ReadMethod { host: host@ }),
        step matches Step::ReadUri { host, method } ==> step@ == (StepView::ReadUri {
            host: host@,
            method: method@,
        }),
        step matches Step::ReadHeaders { host, method, uri } ==> step@ == (StepView::ReadHeaders {
            host: host@,
            method: method@,
            uri: uri@,
        }),
        step matches Step::Match { request } ==> step@ == (StepView::Match { request: request@ }),
        step matches Step::SetStatus { status } ==> step@ == (StepView::SetStatus {
            status: status as int,
        }),
        step matches Step::FilterHeaders { status } ==> step@ == (StepView::FilterHeaders {
            status: status as int,
        }),
        step matches Step::Return { next } ==> step@ == (StepView::Return { next: next as int }),
        step matches Step::WriteHeaders { headers } ==> {
            &&& step@->headers.len() == headers@.len()
            &&& forall|i: int|
                0 <= i < headers@.len() ==> #[trigger] step@->headers[i] == (
                    headers@[i].0@,
                    headers@[i].1@,
                )
        },
{
}

/// An event is read as it is: each kind as itself, with all that it carries.
pub proof fn law_event_view(event: Event)
    ensures
        event is StatusSet <==> event@ is StatusSet,
        event is HeadersWritten <==> event@ is HeadersWritten,
        event matches Event::Config(config) ==> event@ == EventView::Config(config@),
        event matches Event::Loaded(any) ==> event@ == EventView::Loaded(any),
        event matches Event::Method(method) ==> event@ == EventView::Method(method@),
        event matches Event::Uri(uri) ==> event@ == EventView::Uri(uri@),
        event matches Event::Matched(count) ==> event@ == EventView::Matched(count as nat),
        event matches Event::Status(status) ==> event@ == EventView::Status(status as nat),
        event matches Event::HostValues(values) ==> {
            &&& event@ is HostValues
            &&& event@->HostValues_0.len() == values@.len()
            &&& forall|i: int|
                0 <= i < values@.len() ==> #[trigger] event@->HostValues_0[i] == values@[i]@
        },
        event matches Event::Headers(headers) ==> {
            &&& event@ is Headers
            &&& event@->Headers_0.len() == headers@.len()
            &&& forall|i: int|
                0 <= i < headers@.len() ==> #[trigger] event@->Headers_0[i] == (
                    headers@[i].0@,
                    headers@[i].1@,
                )
        },
        event matches Event::Filtered(headers) ==> {
            &&& event@ is Filtered
            &&& event@->Filtered_0.len() == headers@.len()
            &&& forall|i: int|
                0 <= i < headers@.len() ==> #[trigger] event@->Filtered_0[i] == (
                    headers@[i].0@,
                    headers@[i].1@,
                )
        },
{
}

/// What is loaded is read as it is.
pub proof fn law_loaded_view(loaded: Option<Loaded>)
    ensures
        loaded is None <==> loaded_view(loaded) is None,
        loaded matches Some(kept) ==> loaded_view(loaded) == Some(
            LoadedView { config: kept.config@, any: kept.any },
        ),
{
}

} // verus!
