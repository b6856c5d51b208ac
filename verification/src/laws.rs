//! What holds of the library as a whole.

use vstd::prelude::*;
use crate::engine::{
    files_update, profile_document_after, profile_update, settings_update, RewriteView,
};
use crate::error::{DecodeError, LoadError};
use crate::ids::{has_id, ids_match};
use crate::json::{
    ids_value, index_of, is_first_member, lemma_first_is_index, lemma_ids_read_back,
    lemma_ids_written_back, lemma_index_of, lemma_others_keep, lemma_same_names_same_index,
    JsonValue,
};
use crate::optimizer::{
    choices_follow, decoded, entries_match, has_counterpart, lemma_lookup, lemma_lookup_unique,
    lookup, pairs_unique, results_match,
};
use crate::profile::{
    breakpoint_json, gear_is_plain, gear_json, gear_labels, gear_of, gear_outcome, gear_pair,
    gear_step,
    lemma_profile_reads_back, lemma_read_profile_is_plain, profile_after, profile_json,
    profile_of, GearView, ProfileView,
};
use crate::report::Outcome;
use crate::settings::SettingsView;
use crate::settings_doc::{
    field_outcome, field_pair, field_step, lemma_field_step, lemma_other_field_stays,
    settings_after, settings_labels,
};
use crate::state::{
    mapping_in_effect, needs_apply, phase_of, request_plan, state_valid, status_of, watch_step,
    AppStateView,
    Phase, RequestPlanView, WatchAction, WatchEventView,
};

verus! {

/// Every identifier list matches itself.
pub proof fn law_ids_match_reflexive(ids: Seq<u32>)
    ensures
        ids_match(ids, ids),
{
}

/// Where a first list matches a second, the second matches the first.
pub proof fn law_ids_match_symmetric(a: Seq<u32>, b: Seq<u32>)
    ensures
        ids_match(a, b) == ids_match(b, a),
{
    if ids_match(a, b) {
        assert forall|value: u32| #[trigger] has_id(b, value) <==> has_id(a, value) by {
            assert(has_id(a, value) <==> has_id(b, value));
        }
    }
    if ids_match(b, a) {
        assert forall|value: u32| #[trigger] has_id(a, value) <==> has_id(b, value) by {
            assert(has_id(b, value) <==> has_id(a, value));
        }
    }
}

/// Where a first list matches a second and the second a third, the first
/// matches the third.
pub proof fn law_ids_match_transitive(a: Seq<u32>, b: Seq<u32>, c: Seq<u32>)
    requires
        ids_match(a, b),
        ids_match(b, c),
    ensures
        ids_match(a, c),
{
    assert forall|value: u32| #[trigger] has_id(a, value) <==> has_id(c, value) by {
        assert(has_id(a, value) <==> has_id(b, value));
        assert(has_id(b, value) <==> has_id(c, value));
    }
}

/// Two lists match exactly when they hold the same set of identifiers,
/// however often and in whatever order each identifier occurs.
pub proof fn law_match_is_set_equality(a: Seq<u32>, b: Seq<u32>)
    ensures
        ids_match(a, b) <==> a.to_set() == b.to_set(),
{
    assert forall|value: u32| has_id(a, value) == a.to_set().contains(value) by {
        if has_id(a, value) {
            let i = choose|i: int| 0 <= i < a.len() && a[i] == value;
            assert(a.contains(value));
        }
    }
    assert forall|value: u32| has_id(b, value) == b.to_set().contains(value) by {
        if has_id(b, value) {
            let i = choose|i: int| 0 <= i < b.len() && b[i] == value;
            assert(b.contains(value));
        }
    }
    if ids_match(a, b) {
        assert forall|value: u32| a.to_set().contains(value) == b.to_set().contains(value) by {
            assert(has_id(a, value) <==> has_id(b, value));
        }
        assert(a.to_set() =~= b.to_set());
    }
    if a.to_set() == b.to_set() {
        assert forall|value: u32| #[trigger] has_id(a, value) <==> has_id(b, value) by {
            assert(a.to_set().contains(value) == b.to_set().contains(value));
        }
    }
}

/// The order of the identifiers does not count: two lists that hold the
/// same identifiers the same number of times match each other.
pub proof fn law_order_does_not_count(a: Seq<u32>, b: Seq<u32>)
    requires
        a.to_multiset() == b.to_multiset(),
    ensures
        ids_match(a, b),
        ids_match(b, a),
{
    a.to_multiset_ensures();
    b.to_multiset_ensures();
    assert forall|value: u32| a.to_set().contains(value) == b.to_set().contains(value) by {
        assert(a.contains(value) <==> a.to_multiset().count(value) > 0);
        assert(b.contains(value) <==> b.to_multiset().count(value) > 0);
    }
    assert(a.to_set() =~= b.to_set());
    law_match_is_set_equality(a, b);
    law_ids_match_symmetric(a, b);
}

/// How often an identifier occurs does not count: a list matches the list
/// that repeats one of its identifiers.
pub proof fn law_repeats_do_not_count(ids: Seq<u32>, i: int)
    requires
        0 <= i < ids.len(),
    ensures
        ids_match(ids, ids.push(ids[i])),
        ids_match(ids.push(ids[i]), ids),
{
    let longer = ids.push(ids[i]);
    assert forall|value: u32| #[trigger] has_id(ids, value) <==> has_id(longer, value) by {
        if has_id(ids, value) {
            let j = choose|j: int| 0 <= j < ids.len() && ids[j] == value;
            assert(longer[j] == value);
        }
        if has_id(longer, value) {
            let j = choose|j: int| 0 <= j < longer.len() && longer[j] == value;
            if j < ids.len() {
                assert(ids[j] == value);
            } else {
                assert(ids[i] == value);
            }
        }
    }
    law_ids_match_symmetric(ids, longer);
}

/// A list that lacks an identifier of another does not match it, whatever
/// else the two hold and however long they are.
pub proof fn law_missing_id_differs(a: Seq<u32>, b: Seq<u32>, value: u32)
    requires
        has_id(b, value),
        !has_id(a, value),
    ensures
        !ids_match(a, b),
        !ids_match(b, a),
{
    law_ids_match_symmetric(a, b);
}

/// Every result matches itself.
pub proof fn law_results_match_reflexive(entries: Seq<(Seq<char>, Seq<u32>)>)
    ensures
        results_match(entries, entries),
{
    assert forall|i: int| 0 <= i < entries.len() implies has_counterpart(
        #[trigger] entries[i],
        entries,
    ) by {
        law_ids_match_reflexive(entries[i].1);
        assert(entries_match(entries[i], entries[i]));
    }
}

/// A result that has just been applied is not applied again: once it is the
/// last result, it needs no apply, and a request that carries it is
/// answered without reading or writing anything.
pub proof fn law_applied_result_is_not_applied_again(entries: Seq<(Seq<char>, Seq<u32>)>)
    ensures
        !needs_apply(Some(entries), entries),
        request_plan(Some(entries), Ok(entries)) == RequestPlanView::Same,
{
    law_results_match_reflexive(entries);
}

/// A result that differs from the last one only in the order of its
/// identifiers is not applied again.
pub proof fn law_reordered_result_is_not_applied(
    last: Seq<(Seq<char>, Seq<u32>)>,
    incoming: Seq<(Seq<char>, Seq<u32>)>,
)
    requires
        last.len() == incoming.len(),
        forall|i: int|
            0 <= i < last.len() ==> (#[trigger] last[i]).0 == incoming[i].0
                && last[i].1.to_multiset() == incoming[i].1.to_multiset(),
    ensures
        !needs_apply(Some(last), incoming),
{
    assert forall|i: int| 0 <= i < last.len() implies has_counterpart(
        #[trigger] last[i],
        incoming,
    ) by {
        law_order_does_not_count(last[i].1, incoming[i].1);
        assert(entries_match(last[i], incoming[i]));
    }
}

/// A body that was refused is answered with a client error, and nothing is
/// applied on its account.
pub proof fn law_refused_body_is_rejected(last: Option<Seq<(Seq<char>, Seq<u32>)>>, e: DecodeError)
    ensures
        request_plan(last, Err(e)) == RequestPlanView::Reject(e),
        400 <= status_of(request_plan(last, Err(e))) < 500,
{
}

/// A body that was decoded is answered with 200, whether or not its result
/// is applied.
pub proof fn law_decoded_body_is_accepted(
    last: Option<Seq<(Seq<char>, Seq<u32>)>>,
    entries: Seq<(Seq<char>, Seq<u32>)>,
)
    ensures
        status_of(request_plan(last, Ok(entries))) == 200,
{
}

/// The number of times that a result is applied when the first `n` of a
/// list of requests are served one after the other, each applied result
/// becoming the last one.
pub open spec fn applies(
    last: Option<Seq<(Seq<char>, Seq<u32>)>>,
    requests: Seq<Seq<(Seq<char>, Seq<u32>)>>,
    n: int,
) -> nat
    decreases n,
{
    if n <= 0 {
        0
    } else if needs_apply(last_after(last, requests, n - 1), requests[n - 1]) {
        applies(last, requests, n - 1) + 1
    } else {
        applies(last, requests, n - 1)
    }
}

/// The last result that was applied once the first `n` of a list of
/// requests have been served one after the other.
pub open spec fn last_after(
    last: Option<Seq<(Seq<char>, Seq<u32>)>>,
    requests: Seq<Seq<(Seq<char>, Seq<u32>)>>,
    n: int,
) -> Option<Seq<(Seq<char>, Seq<u32>)>>
    decreases n,
{
    if n <= 0 {
        last
    } else if needs_apply(last_after(last, requests, n - 1), requests[n - 1]) {
        Some(requests[n - 1])
    } else {
        last_after(last, requests, n - 1)
    }
}

/// However many requests carry one and the same result, served one after
/// the other they apply it once where it is new, and never where it is the
/// last result already.
pub proof fn law_same_requests_apply_once(
    last: Option<Seq<(Seq<char>, Seq<u32>)>>,
    requests: Seq<Seq<(Seq<char>, Seq<u32>)>>,
    entries: Seq<(Seq<char>, Seq<u32>)>,
    n: int,
)
    requires
        1 <= n <= requests.len(),
        forall|i: int| 0 <= i < n ==> #[trigger] requests[i] == entries,
    ensures
        applies(last, requests, n) == if needs_apply(last, entries) {
            1nat
        } else {
            0nat
        },
        last_after(last, requests, n) == if needs_apply(last, entries) {
            Some(entries)
        } else {
            last
        },
    decreases n,
{
    law_results_match_reflexive(entries);
    if n == 1 {
        assert(last_after(last, requests, 0) == last);
        assert(applies(last, requests, 0) == 0);
    } else {
        law_same_requests_apply_once(last, requests, entries, n - 1);
    }
}

/// A change of the configuration file with a last result in place puts the
/// new mapping on trial, keeps the mapping that was in effect beside it,
/// and asks for that result to be replayed under the new one.
pub proof fn law_reload_replays_last_result(state: AppStateView, mapping: SettingsView)
    requires
        state.optimizer is Some,
    ensures
        watch_step(state, WatchEventView::Changed(Ok(mapping))) == (
            AppStateView {
                settings: mapping,
                optimizer: state.optimizer,
                previous: Some(mapping_in_effect(state)),
            },
            WatchAction::Replay,
        ),
{
}

/// A replay that went through leaves the new mapping in place, and the
/// controller idle.
pub proof fn law_replay_that_went_through_keeps_new_mapping(
    state: AppStateView,
    mapping: SettingsView,
)
    requires
        state.optimizer is Some,
    ensures
        watch_step(
            watch_step(state, WatchEventView::Changed(Ok(mapping))).0,
            WatchEventView::Replayed(true),
        ) == (
            AppStateView { settings: mapping, optimizer: state.optimizer, previous: None },
            WatchAction::Rest,
        ),
{
}

/// A replay that failed puts the previous mapping back: the mapping in
/// effect and the last result are what they were before the change, and
/// the controller is idle.
pub proof fn law_failed_replay_keeps_previous_mapping(state: AppStateView, mapping: SettingsView)
    requires
        state.optimizer is Some,
    ensures
        watch_step(
            watch_step(state, WatchEventView::Changed(Ok(mapping))).0,
            WatchEventView::Replayed(false),
        ) == (
            AppStateView {
                settings: mapping_in_effect(state),
                optimizer: state.optimizer,
                previous: None,
            },
            WatchAction::Rest,
        ),
        phase_of(state) == Phase::Idle ==> watch_step(
            watch_step(state, WatchEventView::Changed(Ok(mapping))).0,
            WatchEventView::Replayed(false),
        ).0 == state,
{
}

/// With no last result there is nothing to replay: a mapping that loaded
/// replaces the previous one at once, and the controller is idle.
pub proof fn law_reload_without_result_takes_mapping(state: AppStateView, mapping: SettingsView)
    requires
        state.optimizer is None,
    ensures
        watch_step(state, WatchEventView::Changed(Ok(mapping))) == (
            AppStateView { settings: mapping, optimizer: None, previous: None },
            WatchAction::Rest,
        ),
{
}

/// A mapping that fails to load leaves the state as it was: the mapping in
/// effect and the last result stay, and a controller that was idle is idle.
pub proof fn law_failed_reload_keeps_mapping(state: AppStateView, e: LoadError)
    ensures
        watch_step(state, WatchEventView::Changed(Err(e))) == (state, WatchAction::Failed(e)),
{
}

/// The controller is in the middle of a reload exactly while a replay that
/// it asked for is outstanding: it enters a reload only by asking for a
/// replay, and it is idle once the replay has been attempted, however it
/// went. No event of the watcher changes the last result.
pub proof fn law_reloading_means_replay(state: AppStateView, event: WatchEventView)
    ensures
        phase_of(state) == Phase::Idle ==> (phase_of(watch_step(state, event).0)
            == Phase::Reloading <==> watch_step(state, event).1 == WatchAction::Replay),
        event is Replayed ==> phase_of(watch_step(state, event).0) == Phase::Idle,
        watch_step(state, event).0.optimizer == state.optimizer,
{
}

/// Whatever the watcher reports during a reload, the mapping that was in
/// effect before it stays in effect until the replay has been attempted.
pub proof fn law_mapping_in_effect_during_reload(state: AppStateView, event: WatchEventView)
    requires
        state_valid(state),
        phase_of(state) == Phase::Reloading,
        event is Changed,
    ensures
        mapping_in_effect(watch_step(state, event).0) == mapping_in_effect(state),
{
}

/// A state that the service reaches stays one: the state that it starts in
/// is valid, and so is the state after any event of the watcher and after
/// any result was taken as the last one.
pub proof fn law_states_stay_valid(
    state: AppStateView,
    event: WatchEventView,
    mapping: SettingsView,
    entries: Seq<(Seq<char>, Seq<u32>)>,
)
    requires
        state_valid(state),
    ensures
        state_valid(AppStateView { settings: mapping, optimizer: None, previous: None }),
        state_valid(watch_step(state, event).0),
        state_valid(
            AppStateView {
                settings: state.settings,
                optimizer: Some(entries),
                previous: state.previous,
            },
        ),
{
}

/// The labels of a result, entry by entry.
pub open spec fn labels_of(entries: Seq<(Seq<char>, Seq<u32>)>) -> Seq<Seq<char>> {
    Seq::new(entries.len(), |i: int| entries[i].0)
}

/// Where a result without a repeated label matches a second result, the
/// second has no repeated label either, and the same labels.
proof fn lemma_matching_labels(
    first: Seq<(Seq<char>, Seq<u32>)>,
    second: Seq<(Seq<char>, Seq<u32>)>,
)
    requires
        pairs_unique(first),
        results_match(first, second),
    ensures
        pairs_unique(second),
        labels_of(first).to_set() == labels_of(second).to_set(),
{
    let la = labels_of(first);
    let lb = labels_of(second);
    assert(la.no_duplicates()) by {
        assert forall|i: int, j: int| 0 <= i < la.len() && 0 <= j < la.len() && i != j implies la[i]
            != la[j] by {
            if i < j {
                assert(first[i].0 != first[j].0);
            } else {
                assert(first[j].0 != first[i].0);
            }
        }
    }
    la.unique_seq_to_set();
    lb.lemma_cardinality_of_set();
    assert forall|x: Seq<char>| la.to_set().contains(x) implies lb.to_set().contains(x) by {
        let i = choose|i: int| 0 <= i < la.len() && la[i] == x;
        assert(has_counterpart(first[i], second));
        let j = choose|j: int| 0 <= j < second.len() && entries_match(first[i], #[trigger] second[j]);
        assert(lb[j] == x);
    }
    vstd::set_lib::lemma_len_subset(la.to_set(), lb.to_set());
    vstd::set_lib::lemma_subset_equality(la.to_set(), lb.to_set());
    lb.lemma_no_dup_set_cardinality();
    assert forall|i: int, j: int| 0 <= i < j < second.len() implies (#[trigger] second[i]).0 != (
    #[trigger] second[j]).0 by {
        assert(lb[i] != lb[j]);
    }
}

/// Where a result without a repeated label matches a second result, the
/// second gives every label what the first gives it, up to matching
/// identifiers. So a result that is not applied because it matches the last
/// one would have asked the documents for nothing new.
pub proof fn law_matching_results_choose_alike(
    first: Seq<(Seq<char>, Seq<u32>)>,
    second: Seq<(Seq<char>, Seq<u32>)>,
)
    requires
        pairs_unique(first),
        results_match(first, second),
    ensures
        pairs_unique(second),
        choices_follow(first, second),
{
    lemma_matching_labels(first, second);
    let la = labels_of(first);
    let lb = labels_of(second);
    assert forall|label: Seq<char>|
        match #[trigger] lookup(first, label) {
            Some(given) => lookup(second, label) matches Some(other) && ids_match(given, other),
            None => lookup(second, label) is None,
        } by {
        lemma_lookup(first, label);
        lemma_lookup(second, label);
        match lookup(first, label) {
            Some(given) => {
                let i = choose|i: int| 0 <= i < first.len() && #[trigger] first[i] == (label, given);
                assert(has_counterpart(first[i], second));
                let j = choose|j: int|
                    0 <= j < second.len() && entries_match(first[i], #[trigger] second[j]);
                lemma_lookup_unique(second, j);
            },
            None => {
                if lookup(second, label) is Some {
                    let ids = lookup(second, label).unwrap();
                    let j = choose|j: int|
                        0 <= j < second.len() && #[trigger] second[j] == (label, ids);
                    assert(lb[j] == label);
                    assert(lb.to_set().contains(label));
                    assert(la.to_set().contains(label));
                    let i = choose|i: int| 0 <= i < la.len() && la[i] == label;
                    assert(first[i].0 == label);
                }
            },
        }
    }
}

/// Every result gives every label what it gives it.
pub proof fn law_choices_follow_reflexive(entries: Seq<(Seq<char>, Seq<u32>)>)
    ensures
        choices_follow(entries, entries),
{
    assert forall|label: Seq<char>|
        match #[trigger] lookup(entries, label) {
            Some(given) => lookup(entries, label) matches Some(other) && ids_match(given, other),
            None => lookup(entries, label) is None,
        } by {
        if lookup(entries, label) is Some {
            law_ids_match_reflexive(lookup(entries, label).unwrap());
        }
    }
}

/// A gear entry that took a result is left as it is by any result that
/// gives every label what the first gave it.
pub proof fn law_gear_settles(
    gear: GearView,
    first: Seq<(Seq<char>, Seq<u32>)>,
    second: Seq<(Seq<char>, Seq<u32>)>,
)
    requires
        choices_follow(first, second),
    ensures
        gear_outcome(gear_step(gear, first), second) != Outcome::Changed,
        gear_step(gear_step(gear, first), second) == gear_step(gear, first),
{
    match gear.comment {
        Some(label) => {
            match lookup(first, label) {
                Some(given) => {
                    let other = lookup(second, label).unwrap();
                    if ids_match(gear.id, given) {
                        law_ids_match_transitive(gear.id, given, other);
                    }
                },
                None => {},
            }
        },
        None => {},
    }
}

/// Applying a result twice changes the profile once: after a result, the
/// same result, or any that gives every label what the first gave it,
/// changes no gear entry and leaves the profile as it is.
pub proof fn law_profile_settles(
    profile: ProfileView,
    first: Seq<(Seq<char>, Seq<u32>)>,
    second: Seq<(Seq<char>, Seq<u32>)>,
)
    requires
        choices_follow(first, second),
    ensures
        profile_after(profile_after(profile, first), second) == profile_after(profile, first),
        gear_labels(
            profile_after(profile, first).breakpoints.gear,
            second,
            Outcome::Changed,
            profile.breakpoints.gear.len() as int,
        ) == Seq::<Seq<char>>::empty(),
{
    let once = profile_after(profile, first);
    let twice = profile_after(once, second);
    assert forall|i: int| 0 <= i < once.breakpoints.gear.len() implies twice.breakpoints.gear[i]
        == once.breakpoints.gear[i] by {
        law_gear_settles(profile.breakpoints.gear[i], first, second);
    }
    assert(twice.breakpoints.gear =~= once.breakpoints.gear);
    lemma_no_gear_changes(profile, first, second, profile.breakpoints.gear.len() as int);
}

/// After a result, none of the first `n` gear entries is changed by a
/// result that gives every label what the first gave it.
proof fn lemma_no_gear_changes(
    profile: ProfileView,
    first: Seq<(Seq<char>, Seq<u32>)>,
    second: Seq<(Seq<char>, Seq<u32>)>,
    n: int,
)
    requires
        choices_follow(first, second),
        0 <= n <= profile.breakpoints.gear.len(),
    ensures
        gear_labels(profile_after(profile, first).breakpoints.gear, second, Outcome::Changed, n)
            == Seq::<Seq<char>>::empty(),
    decreases n,
{
    if n > 0 {
        lemma_no_gear_changes(profile, first, second, n - 1);
        law_gear_settles(profile.breakpoints.gear[n - 1], first, second);
    }
}

/// Whether pairs `i` and `j` of the mapper pull one field two ways: both
/// name the same field, the document has that field, the result has both
/// labels, and the identifiers that it gives for the two do not match.
pub open spec fn pairs_conflict(
    doc: JsonValue,
    mapper: Seq<(Seq<char>, Seq<char>)>,
    entries: Seq<(Seq<char>, Seq<u32>)>,
    i: int,
    j: int,
) -> bool {
    &&& 0 <= i < j < mapper.len()
    &&& mapper[i].1 == mapper[j].1
    &&& doc is Object
    &&& index_of(doc->Object_0, mapper[i].1) < doc->Object_0.len()
    &&& lookup(entries, mapper[i].0) is Some
    &&& lookup(entries, mapper[j].0) is Some
    &&& !ids_match(lookup(entries, mapper[i].0).unwrap(), lookup(entries, mapper[j].0).unwrap())
}

/// Whether no two pairs of the mapper pull one field of the document two
/// ways under the result.
pub open spec fn mapper_agrees(
    doc: JsonValue,
    mapper: Seq<(Seq<char>, Seq<char>)>,
    entries: Seq<(Seq<char>, Seq<u32>)>,
) -> bool {
    forall|i: int, j: int| !#[trigger] pairs_conflict(doc, mapper, entries, i, j)
}

/// Whether no two pairs of a mapper name the same settings field.
pub open spec fn fields_distinct(mapper: Seq<(Seq<char>, Seq<char>)>) -> bool {
    forall|i: int, j: int|
        0 <= i < j < mapper.len() ==> (#[trigger] mapper[i]).1 != (#[trigger] mapper[j]).1
}

/// A mapper of which no two pairs name the same field pulls no field two
/// ways, whatever the document and the result.
pub proof fn law_distinct_fields_agree(
    doc: JsonValue,
    mapper: Seq<(Seq<char>, Seq<char>)>,
    entries: Seq<(Seq<char>, Seq<u32>)>,
)
    requires
        fields_distinct(mapper),
    ensures
        mapper_agrees(doc, mapper, entries),
{
    assert forall|i: int, j: int| !#[trigger] pairs_conflict(doc, mapper, entries, i, j) by {
        if 0 <= i < j < mapper.len() {
            assert(mapper[i].1 != mapper[j].1);
        }
    }
}

/// Once pair `k` of the mapper has been applied, and however many of the
/// later pairs, a result that gives every label what the first gave it
/// finds the field of pair `k` up to date.
proof fn lemma_pair_settled(
    doc: JsonValue,
    mapper: Seq<(Seq<char>, Seq<char>)>,
    first: Seq<(Seq<char>, Seq<u32>)>,
    second: Seq<(Seq<char>, Seq<u32>)>,
    k: int,
    j: int,
)
    requires
        choices_follow(first, second),
        mapper_agrees(doc, mapper, first),
        0 <= k < j <= mapper.len(),
    ensures
        field_outcome(settings_after(doc, mapper, first, j), mapper[k].0, mapper[k].1, second)
            != Outcome::Changed,
    decreases j,
{
    let label = mapper[k].0;
    let field = mapper[k].1;
    if j == k + 1 {
        let before = settings_after(doc, mapper, first, k);
        let after = settings_after(doc, mapper, first, j);
        assert(after == field_step(before, label, field, first));
        lemma_field_step(before, label, field, first);
        match field_pair(before, label, field, first) {
            Some((held, given)) => {
                let other = lookup(second, label).unwrap();
                let members = before->Object_0;
                lemma_index_of(members, field);
                lemma_same_names_same_index(after->Object_0, members, field);
                if ids_match(held, given) {
                    law_ids_match_transitive(held, given, other);
                } else {
                    lemma_ids_read_back(given);
                }
            },
            None => {
                if before is Object && lookup(first, label) is Some {
                    lemma_same_names_same_index(after->Object_0, before->Object_0, field);
                }
            },
        }
    } else {
        let before = settings_after(doc, mapper, first, j - 1);
        let after = settings_after(doc, mapper, first, j);
        let later_label = mapper[j - 1].0;
        lemma_pair_settled(doc, mapper, first, second, k, j - 1);
        if mapper[j - 1].1 != field {
            lemma_other_field_stays(
                before,
                later_label,
                mapper[j - 1].1,
                first,
                label,
                field,
                second,
            );
        } else if field_outcome(before, later_label, field, first) == Outcome::Changed
            && lookup(second, label) is Some {
            let taken = lookup(first, later_label).unwrap();
            let given = lookup(first, label).unwrap();
            let other = lookup(second, label).unwrap();
            let members = before->Object_0;
            law_only_mapped_fields_change(doc, mapper, first, j - 1);
            lemma_same_names_same_index(members, doc->Object_0, field);
            assert(!pairs_conflict(doc, mapper, first, k, j - 1));
            lemma_field_step(before, later_label, field, first);
            lemma_index_of(members, field);
            lemma_same_names_same_index(after->Object_0, members, field);
            lemma_ids_read_back(taken);
            law_ids_match_symmetric(given, taken);
            law_ids_match_transitive(taken, given, other);
        }
    }
}

/// A document in which a result finds every field of the mapper up to date
/// is left as it is by the first `n` pairs, and none of them changes it.
proof fn lemma_settled_stays(
    doc: JsonValue,
    mapper: Seq<(Seq<char>, Seq<char>)>,
    entries: Seq<(Seq<char>, Seq<u32>)>,
    n: int,
)
    requires
        0 <= n <= mapper.len(),
        forall|k: int|
            0 <= k < mapper.len() ==> field_outcome(
                doc,
                (#[trigger] mapper[k]).0,
                mapper[k].1,
                entries,
            ) != Outcome::Changed,
    ensures
        settings_after(doc, mapper, entries, n) == doc,
        settings_labels(doc, mapper, entries, Outcome::Changed, n) == Seq::<Seq<char>>::empty(),
    decreases n,
{
    if n > 0 {
        lemma_settled_stays(doc, mapper, entries, n - 1);
        assert(field_outcome(doc, mapper[n - 1].0, mapper[n - 1].1, entries) != Outcome::Changed);
    }
}

/// Applying a result twice changes the settings document once: where no two
/// pairs of the mapper pull one field two ways, after a result the same
/// result, or any that gives every label what the first gave it, changes no
/// field and leaves the document as it is.
pub proof fn law_settings_settle(
    doc: JsonValue,
    mapper: Seq<(Seq<char>, Seq<char>)>,
    first: Seq<(Seq<char>, Seq<u32>)>,
    second: Seq<(Seq<char>, Seq<u32>)>,
)
    requires
        choices_follow(first, second),
        mapper_agrees(doc, mapper, first),
    ensures
        settings_after(
            settings_after(doc, mapper, first, mapper.len() as int),
            mapper,
            second,
            mapper.len() as int,
        ) == settings_after(doc, mapper, first, mapper.len() as int),
        settings_labels(
            settings_after(doc, mapper, first, mapper.len() as int),
            mapper,
            second,
            Outcome::Changed,
            mapper.len() as int,
        ) == Seq::<Seq<char>>::empty(),
{
    let n = mapper.len() as int;
    let once = settings_after(doc, mapper, first, n);
    assert forall|k: int| 0 <= k < mapper.len() implies field_outcome(
        once,
        (#[trigger] mapper[k]).0,
        mapper[k].1,
        second,
    ) != Outcome::Changed by {
        lemma_pair_settled(doc, mapper, first, second, k, n);
    }
    lemma_settled_stays(once, mapper, second, n);
}

/// Only mapped fields are touched: after the first `n` pairs of the mapper
/// a settings document has the members it had, under the names they had,
/// and a member holds what it held unless one of those pairs names it and
/// the result has the label of that pair.
pub proof fn law_only_mapped_fields_change(
    doc: JsonValue,
    mapper: Seq<(Seq<char>, Seq<char>)>,
    entries: Seq<(Seq<char>, Seq<u32>)>,
    n: int,
)
    requires
        0 <= n <= mapper.len(),
    ensures
        match doc {
            JsonValue::Object(members) => {
                &&& settings_after(doc, mapper, entries, n) matches JsonValue::Object(after)
                &&& after.len() == members.len()
                &&& forall|i: int| 0 <= i < members.len() ==> (#[trigger] after[i]).0 == members[i].0
                &&& forall|i: int|
                    0 <= i < members.len() && #[trigger] after[i] != members[i] ==> exists|k: int|
                        0 <= k < n && (#[trigger] mapper[k]).1 == members[i].0 && lookup(
                            entries,
                            mapper[k].0,
                        ) is Some
            },
            _ => settings_after(doc, mapper, entries, n) == doc,
        },
    decreases n,
{
    if n > 0 {
        law_only_mapped_fields_change(doc, mapper, entries, n - 1);
        let before = settings_after(doc, mapper, entries, n - 1);
        let label = mapper[n - 1].0;
        let field = mapper[n - 1].1;
        lemma_field_step(before, label, field, entries);
        match doc {
            JsonValue::Object(members) => {
                let mid = before->Object_0;
                let after = settings_after(doc, mapper, entries, n)->Object_0;
                lemma_index_of(mid, field);
                assert forall|i: int|
                    0 <= i < members.len() && #[trigger] after[i] != members[i] implies exists|
                    k: int,
                |
                    0 <= k < n && (#[trigger] mapper[k]).1 == members[i].0 && lookup(
                        entries,
                        mapper[k].0,
                    ) is Some by {
                    if mid[i] != members[i] {
                        let k = choose|k: int|
                            0 <= k < n - 1 && (#[trigger] mapper[k]).1 == members[i].0 && lookup(
                                entries,
                                mapper[k].0,
                            ) is Some;
                        assert(0 <= k < n && mapper[k].1 == members[i].0);
                    } else {
                        assert(after[i] != mid[i]);
                        assert(i == index_of(mid, field));
                        assert(mapper[n - 1].1 == members[i].0);
                    }
                }
            },
            _ => {},
        }
    }
}

/// A result touches nothing of a profile but the identifiers of gear
/// entries: the other fields of the profile, of its breakpoints and of
/// every gear entry stay, and so do the number of gear entries, their order
/// and their comments. A gear entry whose identifiers change holds the
/// identifiers that the result gives for its comment.
pub proof fn law_update_keeps_other_fields(profile: ProfileView, entries: Seq<(Seq<char>, Seq<u32>)>)
    ensures
        profile_after(profile, entries).other_fields == profile.other_fields,
        profile_after(profile, entries).breakpoints.other_fields
            == profile.breakpoints.other_fields,
        profile_after(profile, entries).breakpoints.gear.len() == profile.breakpoints.gear.len(),
        forall|i: int|
            #![trigger profile.breakpoints.gear[i]]
            0 <= i < profile.breakpoints.gear.len() ==> {
                let before = profile.breakpoints.gear[i];
                let after = profile_after(profile, entries).breakpoints.gear[i];
                &&& after.other_fields == before.other_fields
                &&& after.comment == before.comment
                &&& after.id != before.id ==> before.comment is Some && lookup(
                    entries,
                    before.comment.unwrap(),
                ) == Some(after.id)
            },
{
}

/// Nothing that a gear entry holds besides its identifiers and its comment
/// is lost: every such member of the document that the entry was read from
/// is a member of the document that the entry is written as, whatever
/// result the entry took in between.
pub proof fn law_gear_keeps_unknown_members(
    value: JsonValue,
    entries: Seq<(Seq<char>, Seq<u32>)>,
    i: int,
)
    requires
        gear_of(value) is Some,
        0 <= i < value->Object_0.len(),
        value->Object_0[i].0 != "ID"@,
        value->Object_0[i].0 != "Comment"@,
    ensures
        gear_json(gear_step(gear_of(value).unwrap(), entries))->Object_0.contains(
            value->Object_0[i],
        ),
{
    let members = value->Object_0;
    let gear = gear_of(value).unwrap();
    let after = gear_step(gear, entries);
    let second = if gear.comment is Some {
        "Comment"@
    } else {
        "ID"@
    };
    lemma_others_keep(members, "ID"@, second, i);
    let k = choose|k: int| 0 <= k < gear.other_fields.len() && gear.other_fields[k] == members[i];
    let known = after.other_fields.push(("ID"@, ids_value(after.id)));
    assert(known[k] == members[i]);
    match after.comment {
        Some(text) => {
            assert(known.push(("Comment"@, JsonValue::Str(text)))[k] == members[i]);
        },
        None => {},
    }
}

/// Nothing that the breakpoints hold besides the gear entries is lost:
/// every such member of the document that they were read from is a member
/// of the document that they are written as.
pub proof fn law_breakpoints_keep_unknown_members(
    value: JsonValue,
    entries: Seq<(Seq<char>, Seq<u32>)>,
    i: int,
)
    requires
        profile_of(value) is Some,
        ({
            let b = index_of(value->Object_0, "Breakpoints"@);
            let inner = value->Object_0[b].1->Object_0;
            0 <= i < inner.len() && inner[i].0 != "Gear"@
        }),
    ensures
        ({
            let b = index_of(value->Object_0, "Breakpoints"@);
            let inner = value->Object_0[b].1->Object_0;
            breakpoint_json(
                profile_after(profile_of(value).unwrap(), entries).breakpoints,
            )->Object_0.contains(inner[i])
        }),
{
    let b = index_of(value->Object_0, "Breakpoints"@);
    let inner = value->Object_0[b].1->Object_0;
    let breakpoints = profile_of(value).unwrap().breakpoints;
    lemma_others_keep(inner, "Gear"@, "Gear"@, i);
    let k = choose|k: int|
        0 <= k < breakpoints.other_fields.len() && breakpoints.other_fields[k] == inner[i];
    let written = breakpoint_json(
        profile_after(profile_of(value).unwrap(), entries).breakpoints,
    )->Object_0;
    assert(written[k] == inner[i]);
}

/// Nothing that a profile holds besides its breakpoints is lost: every such
/// member of the document that the profile was read from is a member of the
/// document that the profile is written as.
pub proof fn law_profile_keeps_unknown_members(
    value: JsonValue,
    entries: Seq<(Seq<char>, Seq<u32>)>,
    i: int,
)
    requires
        profile_of(value) is Some,
        0 <= i < value->Object_0.len(),
        value->Object_0[i].0 != "Breakpoints"@,
    ensures
        profile_json(profile_after(profile_of(value).unwrap(), entries))->Object_0.contains(
            value->Object_0[i],
        ),
{
    let members = value->Object_0;
    let profile = profile_of(value).unwrap();
    lemma_others_keep(members, "Breakpoints"@, "Breakpoints"@, i);
    let k = choose|k: int|
        0 <= k < profile.other_fields.len() && profile.other_fields[k] == members[i];
    let written = profile_json(profile_after(profile, entries))->Object_0;
    assert(written[k] == members[i]);
}

/// A gear entry that is written as it was read loses no member and
/// renames none: every member of the document that is the first of its
/// name is a member of the document that the entry is written as.
pub proof fn law_gear_written_as_read(value: JsonValue, i: int)
    requires
        gear_of(value) is Some,
        is_first_member(value->Object_0, value->Object_0[i].0, i),
    ensures
        gear_json(gear_of(value).unwrap())->Object_0.contains(value->Object_0[i]),
{
    let members = value->Object_0;
    let gear = gear_of(value).unwrap();
    let name = members[i].0;
    lemma_first_is_index(members, name, i);
    let known = gear.other_fields.push(("ID"@, ids_value(gear.id)));
    let written = gear_json(gear)->Object_0;
    if name == "ID"@ {
        lemma_ids_written_back(members[i].1->Array_0);
        assert(known[gear.other_fields.len() as int] == members[i]);
        assert(written[gear.other_fields.len() as int] == members[i]);
    } else if name == "Comment"@ && gear.comment is Some {
        assert(written[known.len() as int] == members[i]);
    } else {
        let second = if gear.comment is Some {
            "Comment"@
        } else {
            "ID"@
        };
        lemma_others_keep(members, "ID"@, second, i);
        let k = choose|k: int|
            0 <= k < gear.other_fields.len() && gear.other_fields[k] == members[i];
        assert(known[k] == members[i]);
        assert(written[k] == members[i]);
    }
}

/// A request that was decoded has no repeated label.
pub proof fn law_decoded_request_has_unique_labels(value: JsonValue)
    ensures
        decoded(value) matches Ok(entries) ==> pairs_unique(entries),
{
}

/// A result that is not applied because it matches the last one would have
/// changed nothing: a profile that took the last result is left as it is
/// by the new one, and so is a settings document under a mapper of which no
/// two pairs pull one field two ways.
pub proof fn law_skipped_result_changes_nothing(
    last: Seq<(Seq<char>, Seq<u32>)>,
    incoming: Seq<(Seq<char>, Seq<u32>)>,
    profile: ProfileView,
    settings: JsonValue,
    mapper: Seq<(Seq<char>, Seq<char>)>,
)
    requires
        pairs_unique(last),
        !needs_apply(Some(last), incoming),
        mapper_agrees(settings, mapper, last),
    ensures
        profile_after(profile_after(profile, last), incoming) == profile_after(profile, last),
        settings_after(
            settings_after(settings, mapper, last, mapper.len() as int),
            mapper,
            incoming,
            mapper.len() as int,
        ) == settings_after(settings, mapper, last, mapper.len() as int),
{
    law_matching_results_choose_alike(last, incoming);
    law_profile_settles(profile, last, incoming);
    law_settings_settle(settings, mapper, last, incoming);
}

/// A profile that was read from a document, and took a result or none, is
/// read back whole from the document that it is written as.
pub proof fn law_written_profile_reads_back(value: JsonValue, entries: Seq<(Seq<char>, Seq<u32>)>)
    requires
        profile_of(value) is Some,
    ensures
        profile_of(profile_json(profile_of(value).unwrap())) == profile_of(value),
        profile_of(profile_json(profile_after(profile_of(value).unwrap(), entries))) == Some(
            profile_after(profile_of(value).unwrap(), entries),
        ),
{
    let profile = profile_of(value).unwrap();
    let after = profile_after(profile, entries);
    lemma_read_profile_is_plain(value);
    lemma_profile_reads_back(profile);
    assert forall|i: int| 0 <= i < after.breakpoints.gear.len() implies gear_is_plain(
        #[trigger] after.breakpoints.gear[i],
    ) by {
        assert(gear_is_plain(profile.breakpoints.gear[i]));
    }
    lemma_profile_reads_back(after);
}

/// Applying a result twice writes the profile once: the document that was
/// written for a result is kept, with no gear entry changed, by the same
/// result and by any that gives every label what the first gave it.
pub proof fn law_second_update_keeps_profile(
    value: JsonValue,
    first: Seq<(Seq<char>, Seq<u32>)>,
    second: Seq<(Seq<char>, Seq<u32>)>,
)
    requires
        profile_of(value) is Some,
        choices_follow(first, second),
    ensures
        profile_update(
            Ok(profile_json(profile_after(profile_of(value).unwrap(), first))),
            second,
        ).rewrite == RewriteView::Keep,
        profile_update(
            Ok(profile_json(profile_after(profile_of(value).unwrap(), first))),
            second,
        ).changed == Seq::<Seq<char>>::empty(),
{
    let profile = profile_of(value).unwrap();
    law_written_profile_reads_back(value, first);
    law_profile_settles(profile, first, second);
}

/// Applying a result twice writes the settings document once: where no two
/// pairs of the mapper pull one field two ways, the document that a result
/// leaves is kept, with no field changed, by the same result and by any
/// that gives every label what the first gave it.
pub proof fn law_second_update_keeps_settings(
    doc: JsonValue,
    mapper: Seq<(Seq<char>, Seq<char>)>,
    first: Seq<(Seq<char>, Seq<u32>)>,
    second: Seq<(Seq<char>, Seq<u32>)>,
)
    requires
        choices_follow(first, second),
        mapper_agrees(doc, mapper, first),
    ensures
        settings_update(
            Ok(settings_after(doc, mapper, first, mapper.len() as int)),
            mapper,
            second,
        ).rewrite == RewriteView::Keep,
        settings_update(
            Ok(settings_after(doc, mapper, first, mapper.len() as int)),
            mapper,
            second,
        ).changed == Seq::<Seq<char>>::empty(),
{
    law_settings_settle(doc, mapper, first, second);
}

/// Where two results have the same labels in the same places, and the
/// identifiers of each entry of the first match those of the second in its
/// place, the second gives every label what the first gives it.
pub proof fn lemma_entries_in_step(
    first: Seq<(Seq<char>, Seq<u32>)>,
    second: Seq<(Seq<char>, Seq<u32>)>,
    label: Seq<char>,
)
    requires
        first.len() == second.len(),
        forall|i: int|
            0 <= i < first.len() ==> (#[trigger] first[i]).0 == second[i].0 && ids_match(
                first[i].1,
                second[i].1,
            ),
    ensures
        match lookup(first, label) {
            Some(given) => lookup(second, label) matches Some(other) && ids_match(given, other),
            None => lookup(second, label) is None,
        },
    decreases first.len(),
{
    if first.len() > 0 {
        let n = first.len() - 1;
        assert(first.last() == first[n]);
        assert(second.last() == second[n]);
        assert(first[n].0 == second[n].0);
        if first.last().0 != label {
            let a = first.drop_last();
            let b = second.drop_last();
            assert forall|i: int| 0 <= i < a.len() implies (#[trigger] a[i]).0 == b[i].0
                && ids_match(a[i].1, b[i].1) by {
                assert(a[i] == first[i]);
                assert(b[i] == second[i]);
            }
            lemma_entries_in_step(a, b, label);
        }
    }
}

/// Applying a result twice in a row writes once: with the documents as the
/// first update left them, the second update of the same result rewrites
/// neither and reports no change. This holds where no two pairs of the
/// mapper pull one settings field two ways.
pub proof fn law_applying_twice_writes_once(
    entries: Seq<(Seq<char>, Seq<u32>)>,
    profile: JsonValue,
    settings: JsonValue,
    mapper: Seq<(Seq<char>, Seq<char>)>,
)
    requires
        mapper_agrees(settings, mapper, entries),
    ensures
        ({
            let second = files_update(
                entries,
                Ok(profile_document_after(profile, entries)),
                Ok(settings_after(settings, mapper, entries, mapper.len() as int)),
                mapper,
            );
            &&& !(second.profile is Write)
            &&& second.settings == RewriteView::Keep
            &&& second.profile_changed == Seq::<Seq<char>>::empty()
            &&& second.settings_changed == Seq::<Seq<char>>::empty()
        }),
{
    law_choices_follow_reflexive(entries);
    law_second_update_keeps_settings(settings, mapper, entries, entries);
    if profile_of(profile) is Some {
        law_second_update_keeps_profile(profile, entries, entries);
    }
}

/// The order of the identifiers does not count for an update either: after
/// a result, a second one that differs from it only in the order of the
/// identifiers of its entries rewrites neither document and reports no
/// change. This holds where no two pairs of the mapper pull one settings
/// field two ways.
pub proof fn law_reordered_result_writes_nothing(
    first: Seq<(Seq<char>, Seq<u32>)>,
    second: Seq<(Seq<char>, Seq<u32>)>,
    profile: JsonValue,
    settings: JsonValue,
    mapper: Seq<(Seq<char>, Seq<char>)>,
)
    requires
        first.len() == second.len(),
        forall|i: int|
            0 <= i < first.len() ==> (#[trigger] first[i]).0 == second[i].0
                && first[i].1.to_multiset() == second[i].1.to_multiset(),
        mapper_agrees(settings, mapper, first),
    ensures
        ({
            let update = files_update(
                second,
                Ok(profile_document_after(profile, first)),
                Ok(settings_after(settings, mapper, first, mapper.len() as int)),
                mapper,
            );
            &&& !(update.profile is Write)
            &&& update.settings == RewriteView::Keep
            &&& update.profile_changed == Seq::<Seq<char>>::empty()
            &&& update.settings_changed == Seq::<Seq<char>>::empty()
        }),
{
    assert forall|i: int| 0 <= i < first.len() implies (#[trigger] first[i]).0 == second[i].0
        && ids_match(first[i].1, second[i].1) by {
        law_order_does_not_count(first[i].1, second[i].1);
    }
    assert forall|label: Seq<char>|
        match #[trigger] lookup(first, label) {
            Some(given) => lookup(second, label) matches Some(other) && ids_match(given, other),
            None => lookup(second, label) is None,
        } by {
        lemma_entries_in_step(first, second, label);
    }
    law_second_update_keeps_settings(settings, mapper, first, second);
    if profile_of(profile) is Some {
        law_second_update_keeps_profile(profile, first, second);
        let p = profile_of(profile).unwrap();
        if !(profile_update(Ok(profile), first).rewrite is Write) {
            lemma_unchanged_profile_settles(p, first, second);
        }
    }
}

/// A profile in which a result changes no gear entry is left as it is by
/// any result that gives every label what the first gives it.
proof fn lemma_unchanged_profile_settles(
    profile: ProfileView,
    first: Seq<(Seq<char>, Seq<u32>)>,
    second: Seq<(Seq<char>, Seq<u32>)>,
)
    requires
        choices_follow(first, second),
        gear_labels(
            profile.breakpoints.gear,
            first,
            Outcome::Changed,
            profile.breakpoints.gear.len() as int,
        ).len() == 0,
    ensures
        gear_labels(
            profile.breakpoints.gear,
            second,
            Outcome::Changed,
            profile.breakpoints.gear.len() as int,
        ) == Seq::<Seq<char>>::empty(),
{
    let gear = profile.breakpoints.gear;
    lemma_no_labels_no_change(gear, first, gear.len() as int);
    law_profile_settles(profile, first, second);
    assert(profile_after(profile, first).breakpoints.gear =~= gear);
}

/// Where none of the first `n` gear entries is listed as changed, none of
/// them changes.
proof fn lemma_no_labels_no_change(
    gear: Seq<GearView>,
    entries: Seq<(Seq<char>, Seq<u32>)>,
    n: int,
)
    requires
        0 <= n <= gear.len(),
        gear_labels(gear, entries, Outcome::Changed, n).len() == 0,
    ensures
        forall|i: int| 0 <= i < n ==> gear_step(#[trigger] gear[i], entries) == gear[i],
    decreases n,
{
    if n > 0 {
        lemma_labels_grow(gear, entries, n);
        lemma_no_labels_no_change(gear, entries, n - 1);
    }
}

/// The list of changed gear entries only grows.
proof fn lemma_labels_grow(gear: Seq<GearView>, entries: Seq<(Seq<char>, Seq<u32>)>, n: int)
    requires
        0 < n <= gear.len(),
    ensures
        gear_labels(gear, entries, Outcome::Changed, n - 1).len() <= gear_labels(
            gear,
            entries,
            Outcome::Changed,
            n,
        ).len(),
{
}

/// Where the first `n` pairs of the mapper list no change, none of them
/// changes the document and it is left as it is.
proof fn lemma_quiet_pass(
    doc: JsonValue,
    mapper: Seq<(Seq<char>, Seq<char>)>,
    entries: Seq<(Seq<char>, Seq<u32>)>,
    n: int,
)
    requires
        0 <= n <= mapper.len(),
        settings_labels(doc, mapper, entries, Outcome::Changed, n).len() == 0,
    ensures
        settings_after(doc, mapper, entries, n) == doc,
        forall|k: int|
            0 <= k < n ==> field_outcome(doc, (#[trigger] mapper[k]).0, mapper[k].1, entries)
                != Outcome::Changed,
    decreases n,
{
    if n > 0 {
        lemma_quiet_pass(doc, mapper, entries, n - 1);
    }
}

/// Where two pairs of the mapper pull one field two ways, applying a result
/// twice does change the settings document twice: the second update lists a
/// change again. So the laws on applying twice leave out no more mappers
/// than they must.
pub proof fn law_conflicting_pairs_change_again(
    doc: JsonValue,
    mapper: Seq<(Seq<char>, Seq<char>)>,
    entries: Seq<(Seq<char>, Seq<u32>)>,
    i: int,
    j: int,
)
    requires
        pairs_conflict(doc, mapper, entries, i, j),
    ensures
        settings_labels(
            settings_after(doc, mapper, entries, mapper.len() as int),
            mapper,
            entries,
            Outcome::Changed,
            mapper.len() as int,
        ).len() > 0,
{
    let n = mapper.len() as int;
    let once = settings_after(doc, mapper, entries, n);
    if settings_labels(once, mapper, entries, Outcome::Changed, n).len() == 0 {
        lemma_quiet_pass(once, mapper, entries, n);
        law_only_mapped_fields_change(doc, mapper, entries, n);
        let field = mapper[i].1;
        lemma_same_names_same_index(once->Object_0, doc->Object_0, field);
        let held = field_pair(once, mapper[i].0, field, entries).unwrap().0;
        let a = lookup(entries, mapper[i].0).unwrap();
        let b = lookup(entries, mapper[j].0).unwrap();
        assert(field_outcome(once, mapper[i].0, mapper[i].1, entries) != Outcome::Changed);
        assert(field_outcome(once, mapper[j].0, mapper[j].1, entries) != Outcome::Changed);
        assert(ids_match(held, a));
        assert(ids_match(held, b));
        law_ids_match_symmetric(held, a);
        law_ids_match_transitive(a, held, b);
    }
}

/// After an update every mapped field holds what the result gives: where no
/// two pairs of the mapper pull one field two ways, the result finds the
/// field of every pair up to date, so the field holds the same set of
/// identifiers as the result gives for the label of the pair, wherever the
/// document has the field and the result the label.
pub proof fn law_mapped_fields_hold_result(
    doc: JsonValue,
    mapper: Seq<(Seq<char>, Seq<char>)>,
    entries: Seq<(Seq<char>, Seq<u32>)>,
    k: int,
)
    requires
        mapper_agrees(doc, mapper, entries),
        0 <= k < mapper.len(),
    ensures
        match field_pair(
            settings_after(doc, mapper, entries, mapper.len() as int),
            mapper[k].0,
            mapper[k].1,
            entries,
        ) {
            Some((held, given)) => ids_match(held, given),
            None => true,
        },
{
    law_choices_follow_reflexive(entries);
    lemma_pair_settled(doc, mapper, entries, entries, k, mapper.len() as int);
}

/// After an update every gear entry whose comment is a label of the result
/// holds the same set of identifiers as the result gives for that label.
pub proof fn law_gear_holds_result(gear: GearView, entries: Seq<(Seq<char>, Seq<u32>)>)
    ensures
        match gear_pair(gear_step(gear, entries), entries) {
            Some((held, given)) => ids_match(held, given),
            None => true,
        },
{
    law_choices_follow_reflexive(entries);
    law_gear_settles(gear, entries, entries);
}

} // verus!
