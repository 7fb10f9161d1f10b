//! The ruleset that the plugin config carries, and the router built from it.

use serde_json::Value;
use vstd::prelude::*;

use crate::json;
use crate::json::{get_member, parse_json, JsonTree};
use crate::translate;
use crate::translate::Rule;

verus! {

/// The entries of the `rules` array of a config; none where there is no such
/// array.
pub open spec fn rule_entries(config: JsonTree) -> Seq<JsonTree> {
    match config.member("rules"@) {
        Some(rules) => match rules.elements() {
            Some(entries) => entries,
            None => Seq::empty(),
        },
        None => Seq::empty(),
    }
}

/// The rule entries of a config text; none where it is not JSON.
pub open spec fn config_entries(config_text: Seq<char>) -> Seq<JsonTree> {
    match json::json_document(config_text) {
        Some(config) => rule_entries(config),
        None => Seq::empty(),
    }
}

/// The values among `outcomes`, in their order.
pub open spec fn present<R>(outcomes: Seq<Option<R>>) -> Seq<R>
    decreases outcomes.len(),
{
    if outcomes.len() == 0 {
        Seq::empty()
    } else {
        match outcomes.last() {
            Some(rule) => present(outcomes.drop_last()).push(rule),
            None => present(outcomes.drop_last()),
        }
    }
}

/// Is `outcome` what `decode` makes of some value that holds `entry`?
pub open spec fn is_decoded<R, D: Fn(&Value) -> Option<R>>(
    decode: D,
    entry: JsonTree,
    outcome: Option<R>,
) -> bool {
    exists|value: Value| #[trigger]
        json::json_tree(value) == entry && decode.ensures((&value,), outcome)
}

/// `outcomes` are what `decode` made of each of `entries`, in their order.
pub open spec fn are_decoded<R, D: Fn(&Value) -> Option<R>>(
    decode: D,
    entries: Seq<JsonTree>,
    outcomes: Seq<Option<R>>,
) -> bool {
    &&& outcomes.len() == entries.len()
    &&& forall|i: int|
        0 <= i < entries.len() ==> is_decoded(decode, entries[i], #[trigger] outcomes[i])
}

/// Decode the rule entries of a config document, one outcome for each.
pub fn decode_entries<R, D: Fn(&Value) -> Option<R>>(config: &Value, decode: D) -> (outcomes: Vec<
    Option<R>,
>)
    requires
        forall|value: Value| #[trigger] decode.requires((&value,)),
    ensures
        are_decoded(decode, rule_entries(json::json_tree(*config)), outcomes@),
{
    let mut outcomes: Vec<Option<R>> = Vec::new();
    let rules: &Value = match get_member(config, "rules") {
        Some(rules) => rules,
        None => return outcomes,
    };
    let entries: &Vec<Value> = match rules.as_array() {
        Some(entries) => entries,
        None => return outcomes,
    };
    let ghost trees = json::json_trees(entries@);
    let mut i: usize = 0;
    while i < entries.len()
        invariant
            i <= entries.len(),
            trees == json::json_trees(entries@),
            forall|value: Value| #[trigger] decode.requires((&value,)),
            are_decoded(decode, trees.take(i as int), outcomes@),
        decreases entries.len() - i,
    {
        let ghost before = outcomes@;
        let outcome: Option<R> = decode(&entries[i]);
        outcomes.push(outcome);
        assert forall|j: int| 0 <= j < i + 1 implies is_decoded(
            decode,
            trees.take(i + 1)[j],
            #[trigger] outcomes@[j],
        ) by {
            if j < i {
                assert(outcomes@[j] == before[j]);
                assert(trees.take(i as int)[j] == trees[j]);
            } else {
                assert(json::json_tree(entries@[i as int]) == trees[j]);
            }
        }
        i += 1;
    }
    assert(trees.take(trees.len() as int) == trees);
    outcomes
}

/// Keep the rules that could be decoded, in their order, so that one malformed
/// rule does not sink the whole ruleset.
pub fn keep_decoded<R>(outcomes: Vec<Option<R>>) -> (rules: Vec<R>)
    ensures
        rules@ == present(outcomes@),
{
    let ghost all = outcomes@;
    let mut rules: Vec<R> = Vec::new();
    for outcome in it: outcomes
        invariant
            it.seq() == all,
            rules@ == present(all.take(it.index() as int)),
    {
        let ghost i = it.index() as int;
        assert(all.take(i + 1).drop_last() == all.take(i));
        assert(all.take(i + 1).last() == outcome);
        match outcome {
            Some(rule) => {
                rules.push(rule);
            },
            None => {},
        }
    }
    assert(all.take(all.len() as int) == all);
    rules
}

/// Parse the config's `rules` array into rules. Entries that `decode` does not
/// accept are skipped; a config that is not JSON, or has no such array, holds
/// no rules.
pub fn parse_ruleset<R, D: Fn(&Value) -> Option<R>>(config_json: &str, decode: D) -> (rules: Vec<R>)
    requires
        forall|value: Value| #[trigger] decode.requires((&value,)),
    ensures
        exists|outcomes: Seq<Option<R>>| #[trigger]
            are_decoded(decode, config_entries(config_json@), outcomes) && rules@ == present(
                outcomes,
            ),
{
    match parse_json(config_json) {
        Ok(config) => {
            let outcomes: Vec<Option<R>> = decode_entries(&config, decode);
            let ghost seen = outcomes@;
            let rules: Vec<R> = keep_decoded(outcomes);
            assert(are_decoded(decode, config_entries(config_json@), seen));
            rules
        },
        Err(_) => {
            let rules: Vec<R> = Vec::new();
            assert(are_decoded(decode, config_entries(config_json@), Seq::<Option<R>>::empty()));
            rules
        },
    }
}

/// How many regular expressions the router may compile ahead of requests.
pub const CACHE_LIMIT: u64 = 100;

/// `routers` are the routers that arise from inserting `rules` one after the
/// other, in their order, from the first of `routers` on.
pub open spec fn are_insertions<R, T, I: Fn(T, R) -> T>(
    insert: I,
    rules: Seq<R>,
    routers: Seq<T>,
) -> bool {
    &&& routers.len() == rules.len() + 1
    &&& forall|i: int|
        0 <= i < rules.len() ==> insert.ensures(
            (#[trigger] routers[i], rules[i]),
            routers[i + 1],
        )
}

/// `router` is the router of `rules`: none where there are none, else an empty
/// one, into which each rule is inserted in order, and whose cache is then
/// filled.
pub open spec fn is_router_of<R, T, N: Fn() -> T, I: Fn(T, R) -> T, C: Fn(T, Option<u64>) -> T>(
    rules: Seq<R>,
    empty: N,
    insert: I,
    cache: C,
    router: Option<T>,
) -> bool {
    match router {
        Some(built) => rules.len() > 0 && exists|routers: Seq<T>| #[trigger]
            are_insertions(insert, rules, routers) && empty.ensures((), routers.first())
                && cache.ensures((routers.last(), Some(CACHE_LIMIT)), built),
        None => rules.len() == 0,
    }
}

/// Build a router from a ruleset: an empty one, then each rule inserted in
/// order, then its cache filled. Returns None if the ruleset is empty (nothing
/// to match).
pub fn build_router<R, T, N: Fn() -> T, I: Fn(T, R) -> T, C: Fn(T, Option<u64>) -> T>(
    rules: Vec<R>,
    empty: N,
    insert: I,
    cache: C,
) -> (router: Option<T>)
    requires
        empty.requires(()),
        forall|t: T, rule: R| #[trigger] insert.requires((t, rule)),
        forall|t: T, limit: Option<u64>| #[trigger] cache.requires((t, limit)),
    ensures
        is_router_of(rules@, empty, insert, cache, router),
{
    if rules.len() == 0 {
        return None;
    }
    let ghost all = rules@;
    let mut router: T = empty();
    let ghost mut routers: Seq<T> = seq![router];
    for rule in it: rules
        invariant
            it.seq() == all,
            forall|t: T, rule: R| #[trigger] insert.requires((t, rule)),
            are_insertions(insert, all.take(it.index() as int), routers),
            empty.ensures((), routers.first()),
            routers.last() == router,
    {
        let ghost i = it.index() as int;
        let ghost before = routers;
        router = insert(router, rule);
        proof {
            routers = before.push(router);
            assert forall|j: int| 0 <= j < i + 1 implies insert.ensures(
                (#[trigger] routers[j], all.take(i + 1)[j]),
                routers[j + 1],
            ) by {
                if j < i {
                    assert(insert.ensures((before[j], all.take(i)[j]), before[j + 1]));
                }
            }
        }
    }
    assert(all.take(all.len() as int) == all);
    Some(cache(router, Some(CACHE_LIMIT)))
}

/// Load the router of a config: the rules that it holds, built into a router.
/// Returns None if it holds none.
pub fn load_router<
    R,
    T,
    D: Fn(&Value) -> Option<R>,
    N: Fn() -> T,
    I: Fn(T, R) -> T,
    C: Fn(T, Option<u64>) -> T,
>(config_json: &str, decode: D, empty: N, insert: I, cache: C) -> (router: Option<T>)
    requires
        forall|value: Value| #[trigger] decode.requires((&value,)),
        empty.requires(()),
        forall|t: T, rule: R| #[trigger] insert.requires((t, rule)),
        forall|t: T, limit: Option<u64>| #[trigger] cache.requires((t, limit)),
    ensures
        exists|outcomes: Seq<Option<R>>| #[trigger]
            are_decoded(decode, config_entries(config_json@), outcomes) && is_router_of(
                present(outcomes),
                empty,
                insert,
                cache,
                router,
            ),
{
    build_router(parse_ruleset(config_json, decode), empty, insert, cache)
}

/// How deep an entry of a config may be nested: the parser accepts 127 levels,
/// and the config is an object that holds an array.
pub open spec fn entry_depth() -> nat {
    125
}

/// What is written as a config reads back as the same entries, where they are
/// rereadable within the depth that the config leaves them.
pub proof fn law_config_reads_back(rules: Seq<JsonTree>, text: Seq<char>)
    requires
        translate::is_config_text(rules, text),
        forall|i: int| 0 <= i < rules.len() ==> (#[trigger] rules[i]).is_rereadable(entry_depth()),
    ensures
        config_entries(text) == rules,
{
    reveal_strlit("rules");
    reveal_strlit("$serde_json::private::RawValue");
    let array = JsonTree::Array(rules);
    assert(array.is_rereadable(126));
    let config = translate::config_tree(rules);
    assert(config->Object_0.contains_key("rules"@));
    assert forall|key: Seq<char>| #[trigger] config->Object_0.contains_key(key) implies key
        != json::raw_value_key() && config->Object_0[key].is_rereadable(126) by {
        assert(key == "rules"@);
    }
    assert(config.is_rereadable(127));
}

/// Whatever `encode` writes `rule` as is rereadable as an entry of a config.
pub open spec fn is_written_rereadably<E: Fn(&Rule) -> Value>(encode: E, rule: Rule) -> bool {
    forall|value: Value| #[trigger]
        encode.ensures((&rule,), value) ==> json::json_tree(value).is_rereadable(entry_depth())
}

/// `decode` accepts whatever `encode` writes `rule` as, and reads it as the same
/// redirect. `redirect` is the redirect that a rule holds that was read.
pub open spec fn is_read_as_written<R, E: Fn(&Rule) -> Value, D: Fn(&Value) -> Option<R>>(
    encode: E,
    decode: D,
    redirect: spec_fn(R) -> translate::RedirectView,
    rule: Rule,
) -> bool {
    forall|written: Value, read: Value, outcome: Option<R>|
        #![trigger encode.ensures((&rule,), written), decode.ensures((&read,), outcome)]
        encode.ensures((&rule,), written) && decode.ensures((&read,), outcome) && json::json_tree(
            read,
        ) == json::json_tree(written) ==> outcome is Some && redirect(outcome->0)
            == translate::redirect_of(rule)
}

/// Rules that are written as a config are read from it whole and in order, one
/// for each, where `decode` reads what `encode` writes.
pub proof fn law_rules_read_back<R, E: Fn(&Rule) -> Value, D: Fn(&Value) -> Option<R>>(
    rules: Seq<Rule>,
    encode: E,
    values: Seq<Value>,
    text: Seq<char>,
    decode: D,
    outcomes: Seq<Option<R>>,
    redirect: spec_fn(R) -> translate::RedirectView,
)
    requires
        translate::are_encoded(rules, encode, values),
        translate::is_config_text(json::json_trees(values), text),
        are_decoded(decode, config_entries(text), outcomes),
        forall|i: int|
            0 <= i < rules.len() ==> is_written_rereadably(encode, #[trigger] rules[i])
                && is_read_as_written(encode, decode, redirect, rules[i]),
    ensures
        present(outcomes).len() == rules.len(),
        present(outcomes).map_values(redirect) == rules.map_values(
            |rule: Rule| translate::redirect_of(rule),
        ),
{
    let trees = json::json_trees(values);
    assert forall|i: int| 0 <= i < trees.len() implies (#[trigger] trees[i]).is_rereadable(
        entry_depth(),
    ) by {
        assert(is_written_rereadably(encode, rules[i]));
        assert(encode.ensures((&rules[i],), values[i]));
    }
    law_config_reads_back(trees, text);
    assert forall|i: int| 0 <= i < outcomes.len() implies (#[trigger] outcomes[i]) is Some
        && redirect(outcomes[i]->0) == translate::redirect_of(rules[i]) by {
        assert(is_decoded(decode, trees[i], outcomes[i]));
        let read = choose|read: Value| #[trigger]
            json::json_tree(read) == trees[i] && decode.ensures((&read,), outcomes[i]);
        assert(is_read_as_written(encode, decode, redirect, rules[i]));
        assert(encode.ensures((&rules[i],), values[i]));
        assert(decode.ensures((&read,), outcomes[i]));
    }
    lemma_all_present(outcomes);
}

/// Where every entry was accepted, there is one rule for each.
proof fn lemma_all_present<R>(outcomes: Seq<Option<R>>)
    requires
        forall|i: int| 0 <= i < outcomes.len() ==> (#[trigger] outcomes[i]) is Some,
    ensures
        present(outcomes).len() == outcomes.len(),
        forall|i: int|
            0 <= i < outcomes.len() ==> #[trigger] present(outcomes)[i] == outcomes[i]->0,
    decreases outcomes.len(),
{
    if outcomes.len() > 0 {
        let before = outcomes.drop_last();
        lemma_all_present(before);
        assert(outcomes.last() is Some);
        assert forall|i: int| 0 <= i < outcomes.len() implies #[trigger] present(outcomes)[i]
            == outcomes[i]->0 by {
            if i < before.len() {
                assert(present(before)[i] == before[i]->0);
            }
        }
    }
}

/// A config text that carries no ruleset: it is not JSON, or has no `rules`, or
/// no array there.
pub open spec fn has_no_ruleset(config_text: Seq<char>) -> bool {
    match json::json_document(config_text) {
        Some(config) => match config.member("rules"@) {
            Some(rules) => rules.elements() is None,
            None => true,
        },
        None => true,
    }
}

/// A config that carries no ruleset gives no rules, whatever decodes them, and
/// no router.
pub proof fn law_no_ruleset_no_router<
    R,
    T,
    D: Fn(&Value) -> Option<R>,
    N: Fn() -> T,
    I: Fn(T, R) -> T,
    C: Fn(T, Option<u64>) -> T,
>(
    config_text: Seq<char>,
    decode: D,
    empty: N,
    insert: I,
    cache: C,
    outcomes: Seq<Option<R>>,
    router: Option<T>,
)
    requires
        has_no_ruleset(config_text),
        are_decoded(decode, config_entries(config_text), outcomes),
        is_router_of(present(outcomes), empty, insert, cache, router),
    ensures
        present(outcomes) == Seq::<R>::empty(),
        router is None,
{
}

/// The rules of two lists of entries are the rules of the one, then those of
/// the other.
pub proof fn law_present_concat<R>(a: Seq<Option<R>>, b: Seq<Option<R>>)
    ensures
        present(a + b) == present(a) + present(b),
    decreases b.len(),
{
    if b.len() == 0 {
        assert(a + b == a);
        assert(present(a) + present(b) == present(a));
    } else {
        assert((a + b).drop_last() == a + b.drop_last());
        law_present_concat(a, b.drop_last());
        if let Some(rule) = b.last() {
            assert((present(a) + present(b.drop_last())).push(rule) == present(a) + present(
                b.drop_last(),
            ).push(rule));
        }
    }
}

/// A malformed entry is skipped, and takes none of the other rules with it.
pub proof fn law_malformed_entry_is_skipped<R>(before: Seq<Option<R>>, after: Seq<Option<R>>)
    ensures
        present(before.push(None) + after) == present(before) + present(after),
{
    law_present_concat(before.push(None), after);
    assert(before.push(None).drop_last() == before);
}

/// The rule entries are the items of the array under `rules`, all of them and in
/// their order, whatever else the config holds; a config without that array has
/// none.
pub proof fn law_rule_entries(members: Map<Seq<char>, JsonTree>, items: Seq<JsonTree>)
    ensures
        rule_entries(JsonTree::Object(members.insert("rules"@, JsonTree::Array(items)))) == items,
        rule_entries(JsonTree::Object(members.remove("rules"@))).len() == 0,
        rule_entries(JsonTree::Array(items)).len() == 0,
        members.contains_key("rules"@) && !(members["rules"@] is Array) ==> rule_entries(
            JsonTree::Object(members),
        ).len() == 0,
{
}

/// A text that is no JSON holds no entries; one that is holds those of its
/// document.
pub proof fn law_config_entries(config_text: Seq<char>)
    ensures
        json::json_document(config_text) is None ==> config_entries(config_text).len() == 0,
        json::json_document(config_text) matches Some(config) ==> config_entries(config_text)
            == rule_entries(config),
{
}

/// An entry that is accepted gives its rule, one that is not gives none, and so
/// one after the other.
pub proof fn law_present_one_by_one<R>(outcomes: Seq<Option<R>>, rule: R)
    ensures
        present(Seq::<Option<R>>::empty()).len() == 0,
        present(outcomes.push(Some(rule))) == present(outcomes).push(rule),
        present(outcomes.push(None)) == present(outcomes),
        present(seq![Some(rule)]) == seq![rule],
{
    assert(outcomes.push(Some(rule)).drop_last() == outcomes);
    assert(outcomes.push(None).drop_last() == outcomes);
    let empty = Seq::<Option<R>>::empty();
    assert(empty.push(Some(rule)).drop_last() == empty);
    assert(empty.push(Some(rule)) == seq![Some(rule)]);
    assert(present(empty).push(rule) == seq![rule]);
}

/// Where what `decode` makes of an entry depends on what the entry holds alone,
/// the rules are what it makes of each entry, in order, those left out that it
/// does not accept.
pub proof fn law_entries_are_decoded_one_by_one<R, D: Fn(&Value) -> Option<R>>(
    decode: D,
    made: spec_fn(JsonTree) -> Option<R>,
    entries: Seq<JsonTree>,
    outcomes: Seq<Option<R>>,
)
    requires
        are_decoded(decode, entries, outcomes),
        forall|value: Value, outcome: Option<R>| #[trigger]
            decode.ensures((&value,), outcome) ==> outcome == made(json::json_tree(value)),
    ensures
        outcomes == entries.map_values(made),
{
    assert forall|i: int| 0 <= i < entries.len() implies #[trigger] outcomes[i] == made(
        entries[i],
    ) by {
        assert(is_decoded(decode, entries[i], outcomes[i]));
    }
}

/// Where inserting and caching depend on the router and the rule alone, the
/// router of rules is the empty one with each rule inserted, the first rule
/// first, then cached with a limit of 100; there is none without rules.
pub proof fn law_router_holds_each_rule_in_order<
    R,
    T,
    N: Fn() -> T,
    I: Fn(T, R) -> T,
    C: Fn(T, Option<u64>) -> T,
>(
    rules: Seq<R>,
    empty: N,
    insert: I,
    cache: C,
    router: Option<T>,
    start: T,
    inserted: spec_fn(T, R) -> T,
    cached: spec_fn(T, Option<u64>) -> T,
)
    requires
        is_router_of(rules, empty, insert, cache, router),
        forall|t: T| #[trigger] empty.ensures((), t) ==> t == start,
        forall|t: T, rule: R, next: T| #[trigger]
            insert.ensures((t, rule), next) ==> next == inserted(t, rule),
        forall|t: T, limit: Option<u64>, next: T| #[trigger]
            cache.ensures((t, limit), next) ==> next == cached(t, limit),
    ensures
        rules.len() == 0 <==> router is None,
        router matches Some(built) ==> built == cached(
            rules.fold_left(start, inserted),
            Some(100u64),
        ),
{
    if let Some(built) = router {
        let routers = choose|routers: Seq<T>| #[trigger]
            are_insertions(insert, rules, routers) && empty.ensures((), routers.first())
                && cache.ensures((routers.last(), Some(CACHE_LIMIT)), built);
        lemma_insertions_fold(insert, rules, routers, inserted, rules.len() as int);
        assert(rules.take(rules.len() as int) == rules);
    }
}

proof fn lemma_insertions_fold<R, T, I: Fn(T, R) -> T>(
    insert: I,
    rules: Seq<R>,
    routers: Seq<T>,
    inserted: spec_fn(T, R) -> T,
    n: int,
)
    requires
        are_insertions(insert, rules, routers),
        forall|t: T, rule: R, next: T| #[trigger]
            insert.ensures((t, rule), next) ==> next == inserted(t, rule),
        0 <= n <= rules.len(),
    ensures
        routers[n] == rules.take(n).fold_left(routers[0], inserted),
    decreases n,
{
    if n > 0 {
        lemma_insertions_fold(insert, rules, routers, inserted, n - 1);
        assert(rules.take(n).drop_last() == rules.take(n - 1));
        assert(rules.take(n).last() == rules[n - 1]);
        assert(insert.ensures((routers[n - 1], rules[n - 1]), routers[n - 1 + 1]));
        reveal(Seq::fold_left);
    } else {
        reveal(Seq::fold_left);
    }
}

} // verus!
