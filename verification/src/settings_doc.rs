//! The settings document: a flat object in which the mapped fields take the
//! identifiers of the optimizer labels mapped to them.

use vstd::prelude::*;
use crate::ids::{ids_match, lemma_items_match_ids, vectors_equal};
use crate::json::{
    field_ids, find_member, ids_to_json, ids_value, index_of, lemma_index_of, lemma_object_view,
    lemma_same_names_same_index, member_views, read_field_ids, Json, JsonValue,
};
use crate::optimizer::{entry_views, find_ids, lookup, Optimizer};
use crate::report::{string_views, DocumentReport, Outcome};
use crate::settings::pair_views;

verus! {

/// The identifiers that the pair of `label` and `field` compares: those that
/// the document holds in the field and those that the result gives for the
/// label. `None` where the document is no object or has no such field, or
/// the result has no such label.
pub open spec fn field_pair(
    doc: JsonValue,
    label: Seq<char>,
    field: Seq<char>,
    entries: Seq<(Seq<char>, Seq<u32>)>,
) -> Option<(Seq<u32>, Seq<u32>)> {
    match (doc, lookup(entries, label)) {
        (JsonValue::Object(members), Some(ids)) => {
            let i = index_of(members, field);
            if i < members.len() {
                Some((field_ids(members[i].1), ids))
            } else {
                None
            }
        },
        _ => None,
    }
}

/// What the pair of `label` and `field` does to the document.
pub open spec fn field_outcome(
    doc: JsonValue,
    label: Seq<char>,
    field: Seq<char>,
    entries: Seq<(Seq<char>, Seq<u32>)>,
) -> Outcome {
    match field_pair(doc, label, field, entries) {
        Some((held, given)) => if ids_match(held, given) {
            Outcome::Skipped
        } else {
            Outcome::Changed
        },
        None => Outcome::Untouched,
    }
}

/// The document after the pair of `label` and `field`: where the pair
/// changes it, the first member called `field` holds the identifiers that
/// the result gives for `label`, in their order, and every other member is
/// as before.
pub open spec fn field_step(
    doc: JsonValue,
    label: Seq<char>,
    field: Seq<char>,
    entries: Seq<(Seq<char>, Seq<u32>)>,
) -> JsonValue {
    if field_outcome(doc, label, field, entries) == Outcome::Changed {
        let members = doc->Object_0;
        JsonValue::Object(
            members.update(
                index_of(members, field),
                (field, ids_value(lookup(entries, label).unwrap())),
            ),
        )
    } else {
        doc
    }
}

/// The document after the first `n` pairs of the mapper, taken in order.
pub open spec fn settings_after(
    doc: JsonValue,
    mapper: Seq<(Seq<char>, Seq<char>)>,
    entries: Seq<(Seq<char>, Seq<u32>)>,
    n: int,
) -> JsonValue
    decreases n,
{
    if n <= 0 {
        doc
    } else {
        field_step(
            settings_after(doc, mapper, entries, n - 1),
            mapper[n - 1].0,
            mapper[n - 1].1,
            entries,
        )
    }
}

/// The labels of those among the first `n` pairs of the mapper that had the
/// given outcome, in order.
pub open spec fn settings_labels(
    doc: JsonValue,
    mapper: Seq<(Seq<char>, Seq<char>)>,
    entries: Seq<(Seq<char>, Seq<u32>)>,
    outcome: Outcome,
    n: int,
) -> Seq<Seq<char>>
    decreases n,
{
    if n <= 0 {
        Seq::empty()
    } else {
        let before = settings_labels(doc, mapper, entries, outcome, n - 1);
        if field_outcome(
            settings_after(doc, mapper, entries, n - 1),
            mapper[n - 1].0,
            mapper[n - 1].1,
            entries,
        ) == outcome {
            before.push(mapper[n - 1].0)
        } else {
            before
        }
    }
}

/// What one pair of the mapper leaves alone: a document that is no object
/// stays as it is; in an object the number of members and all their names
/// stay, and so does every member but the first one called `field`.
pub proof fn lemma_field_step(
    doc: JsonValue,
    label: Seq<char>,
    field: Seq<char>,
    entries: Seq<(Seq<char>, Seq<u32>)>,
)
    ensures
        match doc {
            JsonValue::Object(members) => {
                &&& field_step(doc, label, field, entries) matches JsonValue::Object(after)
                &&& after.len() == members.len()
                &&& forall|i: int| 0 <= i < members.len() ==> (#[trigger] after[i]).0 == members[i].0
                &&& forall|i: int|
                    0 <= i < members.len() && i != index_of(members, field) ==> #[trigger] after[i]
                        == members[i]
            },
            _ => field_step(doc, label, field, entries) == doc,
        },
{
    match doc {
        JsonValue::Object(members) => {
            lemma_index_of(members, field);
        },
        _ => {},
    }
}

/// A pair of the mapper does not change what a pair with another field
/// compares.
pub proof fn lemma_other_field_stays(
    doc: JsonValue,
    label: Seq<char>,
    field: Seq<char>,
    entries: Seq<(Seq<char>, Seq<u32>)>,
    other_label: Seq<char>,
    other_field: Seq<char>,
    other_entries: Seq<(Seq<char>, Seq<u32>)>,
)
    requires
        field != other_field,
    ensures
        field_pair(field_step(doc, label, field, entries), other_label, other_field, other_entries)
            == field_pair(doc, other_label, other_field, other_entries),
{
    lemma_field_step(doc, label, field, entries);
    match doc {
        JsonValue::Object(members) => {
            let after = field_step(doc, label, field, entries)->Object_0;
            lemma_same_names_same_index(after, members, other_field);
            lemma_index_of(members, field);
            lemma_index_of(members, other_field);
        },
        _ => {},
    }
}

/// Applies one pair of the mapper to the settings document.
pub fn apply_field(settings: &mut Json, label: &String, field: &String, optimizer: &[Optimizer]) -> (outcome: Outcome)
    ensures
        outcome == field_outcome(old(settings)@, label@, field@, entry_views(optimizer@)),
        final(settings)@ == field_step(old(settings)@, label@, field@, entry_views(optimizer@)),
{
    match settings {
        Json::Object(members) => {
            proof {
                lemma_object_view(*members);
                lemma_index_of(member_views(members@), field@);
            }
            let i = find_member(members, field);
            if i >= members.len() {
                return Outcome::Untouched;
            }
            match find_ids(optimizer, label) {
                Some(ids) => {
                    let held = read_field_ids(&members[i].1);
                    proof {
                        lemma_items_match_ids(held@, ids@);
                    }
                    if vectors_equal(held.as_slice(), ids.as_slice()) {
                        Outcome::Skipped
                    } else {
                        let ghost before = members@;
                        members[i].1 = ids_to_json(ids);
                        proof {
                            lemma_object_view(*members);
                            assert(member_views(members@) =~= member_views(before).update(
                                i as int,
                                (field@, ids_value(ids@)),
                            ));
                        }
                        Outcome::Changed
                    }
                },
                None => Outcome::Untouched,
            }
        },
        _ => Outcome::Untouched,
    }
}

/// Brings the settings document up to date with an optimizer result: every
/// pair of the mapper is applied in order.
pub fn update_settings(
    settings: &mut Json,
    settings_mapper: &Vec<(String, String)>,
    optimizer: &[Optimizer],
) -> (report: DocumentReport)
    ensures
        final(settings)@ == settings_after(
            old(settings)@,
            pair_views(settings_mapper@),
            entry_views(optimizer@),
            settings_mapper@.len() as int,
        ),
        string_views(report.changed@) == settings_labels(
            old(settings)@,
            pair_views(settings_mapper@),
            entry_views(optimizer@),
            Outcome::Changed,
            settings_mapper@.len() as int,
        ),
        string_views(report.skipped@) == settings_labels(
            old(settings)@,
            pair_views(settings_mapper@),
            entry_views(optimizer@),
            Outcome::Skipped,
            settings_mapper@.len() as int,
        ),
{
    let mut changed: Vec<String> = Vec::new();
    let mut skipped: Vec<String> = Vec::new();
    let ghost start = settings@;
    let ghost mapper = pair_views(settings_mapper@);
    let mut n: usize = 0;
    assert(string_views(changed@) =~= Seq::empty());
    assert(string_views(skipped@) =~= Seq::empty());
    while n < settings_mapper.len()
        invariant
            n <= settings_mapper.len(),
            mapper == pair_views(settings_mapper@),
            settings@ == settings_after(start, mapper, entry_views(optimizer@), n as int),
            string_views(changed@) == settings_labels(
                start,
                mapper,
                entry_views(optimizer@),
                Outcome::Changed,
                n as int,
            ),
            string_views(skipped@) == settings_labels(
                start,
                mapper,
                entry_views(optimizer@),
                Outcome::Skipped,
                n as int,
            ),
        decreases settings_mapper.len() - n,
    {
        let label = &settings_mapper[n].0;
        let field = &settings_mapper[n].1;
        assert(mapper[n as int] == (label@, field@));
        let outcome = apply_field(settings, label, field, optimizer);
        match outcome {
            Outcome::Changed => {
                let ghost before = changed@;
                changed.push(label.clone());
                assert(string_views(changed@) =~= string_views(before).push(label@));
            },
            Outcome::Skipped => {
                let ghost before = skipped@;
                skipped.push(label.clone());
                assert(string_views(skipped@) =~= string_views(before).push(label@));
            },
            Outcome::Untouched => {},
        }
        n += 1;
    }
    DocumentReport { changed, skipped }
}

} // verus!
