//! Optimizer results: labelled identifier lists, and when two results count as equal.

use vstd::prelude::*;
use crate::error::DecodeError;
use crate::ids::{ids_match, lemma_items_match_ids, vectors_equal};
use crate::json::{ids_of, item_views, lemma_array_view, lemma_object_view, read_ids, Json, JsonValue};
use crate::text::{parse_json, parsed_json};

verus! {

/// One optimizer entry: a label and the identifiers chosen for it.
#[derive(Debug)]
pub struct Optimizer {
    pub label: String,
    pub ids: Vec<u32>,
}

/// Two entries match when their labels are equal and the identifiers of the
/// first match those of the second as `ids_match` says.
pub open spec fn entries_match(entry: (Seq<char>, Seq<u32>), other: (Seq<char>, Seq<u32>)) -> bool {
    entry.0 == other.0 && ids_match(entry.1, other.1)
}

impl View for Optimizer {
    type V = (Seq<char>, Seq<u32>);

    open spec fn view(&self) -> (Seq<char>, Seq<u32>) {
        (self.label@, self.ids@)
    }
}

/// The labels and identifiers of a result, entry by entry.
pub open spec fn entry_views(entries: Seq<Optimizer>) -> Seq<(Seq<char>, Seq<u32>)> {
    Seq::new(entries.len(), |i: int| entries[i]@)
}

impl PartialEq for Optimizer {
    fn eq(&self, other: &Self) -> (same: bool) {
        proof {
            lemma_items_match_ids(self.ids@, other.ids@);
        }
        self.label == other.label && vectors_equal(self.ids.as_slice(), other.ids.as_slice())
    }
}

impl vstd::std_specs::cmp::PartialEqSpecImpl for Optimizer {
    open spec fn obeys_eq_spec() -> bool {
        true
    }

    open spec fn eq_spec(&self, other: &Self) -> bool {
        entries_match(self@, other@)
    }
}

/// Whether `entry` has a counterpart in `others`: an entry with the same
/// label whose identifiers it matches.
pub open spec fn has_counterpart(
    entry: (Seq<char>, Seq<u32>),
    others: Seq<(Seq<char>, Seq<u32>)>,
) -> bool {
    exists|j: int| 0 <= j < others.len() && entries_match(entry, #[trigger] others[j])
}

/// Two results count as equal when they have the same number of entries and
/// every entry of the first has a counterpart in the second.
pub open spec fn results_match(
    first: Seq<(Seq<char>, Seq<u32>)>,
    second: Seq<(Seq<char>, Seq<u32>)>,
) -> bool {
    first.len() == second.len() && forall|i: int|
        0 <= i < first.len() ==> has_counterpart(#[trigger] first[i], second)
}

/// The identifiers that a result gives for `label`: those of the last entry
/// with that label, or `None` where no entry has it.
pub open spec fn lookup(entries: Seq<(Seq<char>, Seq<u32>)>, label: Seq<char>) -> Option<
    Seq<u32>,
>
    decreases entries.len(),
{
    if entries.len() == 0 {
        None
    } else if entries.last().0 == label {
        Some(entries.last().1)
    } else {
        lookup(entries.drop_last(), label)
    }
}

/// Whether a second result gives every label what a first one gives it:
/// identifiers that those of the first match where the first has the label,
/// and nothing where it has not.
pub open spec fn choices_follow(
    first: Seq<(Seq<char>, Seq<u32>)>,
    second: Seq<(Seq<char>, Seq<u32>)>,
) -> bool {
    forall|label: Seq<char>|
        match #[trigger] lookup(first, label) {
            Some(given) => lookup(second, label) matches Some(other) && ids_match(given, other),
            None => lookup(second, label) is None,
        }
}

/// What `lookup` finds is held by an entry with the label, and it finds
/// nothing only where no entry has the label.
pub proof fn lemma_lookup(entries: Seq<(Seq<char>, Seq<u32>)>, label: Seq<char>)
    ensures
        match lookup(entries, label) {
            Some(ids) => exists|i: int|
                0 <= i < entries.len() && #[trigger] entries[i] == (label, ids),
            None => forall|i: int| 0 <= i < entries.len() ==> (#[trigger] entries[i]).0 != label,
        },
    decreases entries.len(),
{
    if entries.len() > 0 {
        if entries.last().0 == label {
            assert(entries[entries.len() - 1] == (label, entries.last().1));
        } else {
            let rest = entries.drop_last();
            lemma_lookup(rest, label);
            match lookup(rest, label) {
                Some(ids) => {
                    let i = choose|i: int| 0 <= i < rest.len() && #[trigger] rest[i] == (label, ids);
                    assert(entries[i] == (label, ids));
                },
                None => {
                    assert forall|i: int| 0 <= i < entries.len() implies (#[trigger] entries[i]).0
                        != label by {
                        if i < rest.len() {
                            assert(rest[i].0 != label);
                        }
                    }
                },
            }
        }
    }
}

/// Where no two entries share a label, `lookup` finds the identifiers of
/// the one entry that has the label.
pub proof fn lemma_lookup_unique(entries: Seq<(Seq<char>, Seq<u32>)>, i: int)
    requires
        pairs_unique(entries),
        0 <= i < entries.len(),
    ensures
        lookup(entries, entries[i].0) == Some(entries[i].1),
{
    lemma_lookup(entries, entries[i].0);
    match lookup(entries, entries[i].0) {
        Some(ids) => {
            let j = choose|j: int|
                0 <= j < entries.len() && #[trigger] entries[j] == (entries[i].0, ids);
            if j < i {
                assert(entries[j].0 != entries[i].0);
            } else if i < j {
                assert(entries[i].0 != entries[j].0);
            }
        },
        None => {
            assert(entries[i].0 != entries[i].0);
        },
    }
}

/// Whether `entry` has a counterpart in `others`.
pub fn find_counterpart(entry: &Optimizer, others: &[Optimizer]) -> (found: bool)
    ensures
        found == has_counterpart(entry@, entry_views(others@)),
{
    let mut j: usize = 0;
    while j < others.len()
        invariant
            j <= others.len(),
            forall|k: int| 0 <= k < j ==> !entries_match(entry@, #[trigger] entry_views(others@)[k]),
        decreases others.len() - j,
    {
        if *entry == others[j] {
            assert(entries_match(entry@, entry_views(others@)[j as int]));
            return true;
        }
        j += 1;
    }
    false
}

/// Compares two results as `results_match` says.
pub fn results_equal(first: &[Optimizer], second: &[Optimizer]) -> (same: bool)
    ensures
        same == results_match(entry_views(first@), entry_views(second@)),
{
    if first.len() != second.len() {
        return false;
    }
    let mut i: usize = 0;
    while i < first.len()
        invariant
            i <= first.len(),
            first.len() == second.len(),
            forall|k: int|
                0 <= k < i ==> has_counterpart(
                    #[trigger] entry_views(first@)[k],
                    entry_views(second@),
                ),
        decreases first.len() - i,
    {
        if !find_counterpart(&first[i], second) {
            assert(!has_counterpart(entry_views(first@)[i as int], entry_views(second@)));
            return false;
        }
        i += 1;
    }
    true
}

/// Finds the identifiers that a result gives for `label`.
pub fn find_ids<'a>(entries: &'a [Optimizer], label: &String) -> (found: Option<&'a Vec<u32>>)
    ensures
        match found {
            Some(ids) => lookup(entry_views(entries@), label@) == Some(ids@),
            None => lookup(entry_views(entries@), label@) is None,
        },
{
    let mut i: usize = entries.len();
    assert(entry_views(entries@).take(i as int) =~= entry_views(entries@));
    while i > 0
        invariant
            i <= entries.len(),
            lookup(entry_views(entries@), label@) == lookup(
                entry_views(entries@).take(i as int),
                label@,
            ),
        decreases i,
    {
        i -= 1;
        proof {
            let prefix = entry_views(entries@).take(i + 1);
            assert(prefix.last() == entries@[i as int]@);
            assert(prefix.drop_last() =~= entry_views(entries@).take(i as int));
        }
        if entries[i].label == *label {
            return Some(&entries[i].ids);
        }
    }
    None
}

/// The entry that a value stands for: an object with exactly one member,
/// whose name is the label and whose value is an array of identifiers.
pub open spec fn entry_of(value: JsonValue) -> Option<(Seq<char>, Seq<u32>)> {
    match value {
        JsonValue::Object(members) => if members.len() == 1 {
            match members[0].1 {
                JsonValue::Array(items) => match ids_of(items) {
                    Some(ids) => Some((members[0].0, ids)),
                    None => None,
                },
                _ => None,
            }
        } else {
            None
        },
        _ => None,
    }
}

/// Whether a value has the shape of a request: an array of entries.
pub open spec fn is_request(value: JsonValue) -> bool {
    value matches JsonValue::Array(items) && forall|i: int|
        0 <= i < items.len() ==> entry_of(#[trigger] items[i]) is Some
}

/// The labels and identifiers of a request, entry by entry.
pub open spec fn request_of(value: JsonValue) -> Seq<(Seq<char>, Seq<u32>)> {
    Seq::new(value->Array_0.len(), |i: int| entry_of(value->Array_0[i]).unwrap())
}

/// Whether no two of the pairs share a label.
pub open spec fn pairs_unique(pairs: Seq<(Seq<char>, Seq<u32>)>) -> bool {
    forall|i: int, j: int|
        0 <= i < j < pairs.len() ==> (#[trigger] pairs[i]).0 != (#[trigger] pairs[j]).0
}

/// What a request body decodes to: its entries, or the reason for which it
/// is refused.
pub open spec fn decoded(value: JsonValue) -> Result<Seq<(Seq<char>, Seq<u32>)>, DecodeError> {
    if !is_request(value) {
        Err(DecodeError::Shape)
    } else if !pairs_unique(request_of(value)) {
        Err(DecodeError::DuplicateLabel)
    } else {
        Ok(request_of(value))
    }
}

/// What the text of a request body decodes to.
pub open spec fn decoded_text(text: Seq<char>) -> Result<Seq<(Seq<char>, Seq<u32>)>, DecodeError> {
    match parsed_json(text) {
        Some(value) => decoded(value),
        None => Err(DecodeError::Syntax),
    }
}

impl Optimizer {
    /// Reads one entry of a request.
    pub fn deserialize(value: &Json) -> (entry: Result<Optimizer, DecodeError>)
        ensures
            match entry {
                Ok(o) => entry_of(value@) == Some(o@),
                Err(e) => entry_of(value@) is None && e == DecodeError::Shape,
            },
    {
        match value {
            Json::Object(members) => {
                proof {
                    lemma_object_view(*members);
                }
                if members.len() != 1 {
                    return Err(DecodeError::Shape);
                }
                match &members[0].1 {
                    Json::Array(items) => {
                        proof {
                            lemma_array_view(*items);
                        }
                        match read_ids(items) {
                            Some(ids) => Ok(Optimizer { label: members[0].0.clone(), ids }),
                            None => Err(DecodeError::Shape),
                        }
                    },
                    _ => Err(DecodeError::Shape),
                }
            },
            _ => Err(DecodeError::Shape),
        }
    }
}

/// Whether two entries of a result share a label.
pub fn has_duplicate_label(entries: &[Optimizer]) -> (found: bool)
    ensures
        found == !pairs_unique(entry_views(entries@)),
{
    let mut j: usize = 0;
    while j < entries.len()
        invariant
            j <= entries.len(),
            forall|a: int, b: int|
                0 <= a < b < j ==> (#[trigger] entry_views(entries@)[a]).0 != (
                #[trigger] entry_views(entries@)[b]).0,
        decreases entries.len() - j,
    {
        let mut i: usize = 0;
        while i < j
            invariant
                i <= j < entries.len(),
                forall|a: int|
                    0 <= a < i ==> (#[trigger] entry_views(entries@)[a]).0 != entry_views(
                        entries@,
                    )[j as int].0,
            decreases j - i,
        {
            if entries[i].label == entries[j].label {
                assert(entry_views(entries@)[i as int].0 == entry_views(entries@)[j as int].0);
                return true;
            }
            i += 1;
        }
        j += 1;
    }
    false
}

/// Decodes a request body that has been read as JSON.
pub fn decode_request(body: &Json) -> (request: Result<Vec<Optimizer>, DecodeError>)
    ensures
        match request {
            Ok(entries) => decoded(body@) == Ok::<Seq<(Seq<char>, Seq<u32>)>, DecodeError>(
                entry_views(entries@),
            ),
            Err(e) => decoded(body@) == Err::<Seq<(Seq<char>, Seq<u32>)>, DecodeError>(e),
        },
{
    match body {
        Json::Array(items) => {
            proof {
                lemma_array_view(*items);
            }
            let mut out: Vec<Optimizer> = Vec::new();
            let mut i: usize = 0;
            while i < items.len()
                invariant
                    i <= items.len(),
                    out.len() == i,
                    body@ == JsonValue::Array(item_views(items@)),
                    forall|k: int|
                        0 <= k < i ==> entry_of(#[trigger] item_views(items@)[k]) == Some(
                            out@[k]@,
                        ),
                decreases items.len() - i,
            {
                match Optimizer::deserialize(&items[i]) {
                    Ok(entry) => {
                        out.push(entry);
                    },
                    Err(e) => {
                        assert(entry_of(item_views(items@)[i as int]) is None);
                        return Err(e);
                    },
                }
                i += 1;
            }
            assert(is_request(body@));
            assert(entry_views(out@) =~= request_of(body@));
            if has_duplicate_label(out.as_slice()) {
                return Err(DecodeError::DuplicateLabel);
            }
            Ok(out)
        },
        _ => Err(DecodeError::Shape),
    }
}

/// Decodes the text of a request body.
pub fn decode_body(text: &str) -> (request: Result<Vec<Optimizer>, DecodeError>)
    ensures
        match request {
            Ok(entries) => decoded_text(text@) == Ok::<Seq<(Seq<char>, Seq<u32>)>, DecodeError>(
                entry_views(entries@),
            ),
            Err(e) => decoded_text(text@) == Err::<Seq<(Seq<char>, Seq<u32>)>, DecodeError>(e),
        },
{
    match parse_json(text) {
        Some(body) => decode_request(&body),
        None => Err(DecodeError::Syntax),
    }
}

} // verus!
