//! The profile document: gear entries under `Breakpoints`, each with its
//! identifiers and an optional comment, and whatever else the document holds.

use vstd::prelude::*;
use crate::error::ParseError;
use crate::ids::{ids_match, lemma_items_match_ids, vectors_equal};
use crate::optimizer::{entry_views, find_ids, lookup, Optimizer};
use crate::report::{string_views, DocumentReport, Outcome};
use crate::json::{
    find_member, ids_of, ids_to_json, ids_value, index_of, item_views, lemma_array_view,
    lemma_ids_of_value, lemma_index_of, lemma_index_of_push, lemma_object_view,
    lemma_others_all, lemma_others_first, lemma_others_named, lemma_others_push, member_views,
    others, read_ids, remaining_members, Json, JsonValue,
};

verus! {

/// The mathematical value of a gear entry.
pub struct GearView {
    /// The members that are neither the identifiers nor the comment.
    pub other_fields: Seq<(Seq<char>, JsonValue)>,
    pub id: Seq<u32>,
    pub comment: Option<Seq<char>>,
}

/// The mathematical value of the breakpoints of a profile.
pub struct BreakpointView {
    /// The members other than the gear entries.
    pub other_fields: Seq<(Seq<char>, JsonValue)>,
    pub gear: Seq<GearView>,
}

/// The mathematical value of a profile.
pub struct ProfileView {
    /// The members other than the breakpoints.
    pub other_fields: Seq<(Seq<char>, JsonValue)>,
    pub breakpoints: BreakpointView,
}

/// One gear entry of a profile.
#[derive(Debug, PartialEq)]
pub struct Gear {
    pub other_fields: Vec<(String, Json)>,
    pub id: Vec<u32>,
    pub comment: Option<String>,
}

/// The breakpoints of a profile.
#[derive(Debug, PartialEq)]
pub struct Breakpoint {
    pub other_fields: Vec<(String, Json)>,
    pub gear: Vec<Gear>,
}

/// A profile document.
#[derive(Debug, PartialEq)]
pub struct Profile {
    pub other_fields: Vec<(String, Json)>,
    pub breakpoints: Breakpoint,
}

impl View for Gear {
    type V = GearView;

    open spec fn view(&self) -> GearView {
        GearView {
            other_fields: member_views(self.other_fields@),
            id: self.id@,
            comment: match self.comment {
                Some(c) => Some(c@),
                None => None,
            },
        }
    }
}

/// The values of a list of gear entries.
pub open spec fn gear_views(gear: Seq<Gear>) -> Seq<GearView> {
    Seq::new(gear.len(), |i: int| gear[i]@)
}

impl View for Breakpoint {
    type V = BreakpointView;

    open spec fn view(&self) -> BreakpointView {
        BreakpointView {
            other_fields: member_views(self.other_fields@),
            gear: gear_views(self.gear@),
        }
    }
}

impl View for Profile {
    type V = ProfileView;

    open spec fn view(&self) -> ProfileView {
        ProfileView {
            other_fields: member_views(self.other_fields@),
            breakpoints: self.breakpoints@,
        }
    }
}

/// The comment that an object holds: the text of the first member called
/// `Comment`. Where there is no such member, or it is `null`, the entry has
/// no comment; where it is anything else, the object is no gear entry.
pub open spec fn comment_of(members: Seq<(Seq<char>, JsonValue)>) -> Option<Option<Seq<char>>> {
    let c = index_of(members, "Comment"@);
    if c < members.len() {
        match members[c].1 {
            JsonValue::Str(text) => Some(Some(text)),
            JsonValue::Null => Some(None),
            _ => None,
        }
    } else {
        Some(None)
    }
}

/// The gear entry that a value stands for: an object whose member `ID` is
/// an array of identifiers and whose member `Comment`, if any, is a text or
/// `null`. Every other member is kept among the other fields, and so is a
/// `Comment` that is `null`.
pub open spec fn gear_of(value: JsonValue) -> Option<GearView> {
    match value {
        JsonValue::Object(members) => {
            let i = index_of(members, "ID"@);
            if i < members.len() && members[i].1 is Array && ids_of(members[i].1->Array_0) is Some
                && comment_of(members) is Some {
                let comment = comment_of(members).unwrap();
                Some(
                    GearView {
                        other_fields: others(
                            members,
                            "ID"@,
                            if comment is Some {
                                "Comment"@
                            } else {
                                "ID"@
                            },
                        ),
                        id: ids_of(members[i].1->Array_0).unwrap(),
                        comment,
                    },
                )
            } else {
                None
            }
        },
        _ => None,
    }
}

/// Whether every item of an array stands for a gear entry.
pub open spec fn all_gear(items: Seq<JsonValue>) -> bool {
    forall|i: int| 0 <= i < items.len() ==> gear_of(#[trigger] items[i]) is Some
}

/// The breakpoints that a value stands for: an object whose member `Gear`
/// is an array of gear entries.
pub open spec fn breakpoint_of(value: JsonValue) -> Option<BreakpointView> {
    match value {
        JsonValue::Object(members) => {
            let g = index_of(members, "Gear"@);
            if g < members.len() && members[g].1 is Array && all_gear(members[g].1->Array_0) {
                let items = members[g].1->Array_0;
                Some(
                    BreakpointView {
                        other_fields: others(members, "Gear"@, "Gear"@),
                        gear: Seq::new(items.len(), |i: int| gear_of(items[i]).unwrap()),
                    },
                )
            } else {
                None
            }
        },
        _ => None,
    }
}

/// The profile that a value stands for: an object whose member
/// `Breakpoints` stands for breakpoints.
pub open spec fn profile_of(value: JsonValue) -> Option<ProfileView> {
    match value {
        JsonValue::Object(members) => {
            let b = index_of(members, "Breakpoints"@);
            if b < members.len() && breakpoint_of(members[b].1) is Some {
                Some(
                    ProfileView {
                        other_fields: others(members, "Breakpoints"@, "Breakpoints"@),
                        breakpoints: breakpoint_of(members[b].1).unwrap(),
                    },
                )
            } else {
                None
            }
        },
        _ => None,
    }
}

/// The document that a gear entry is written as: the other fields, then
/// `ID`, then `Comment` where the entry has one.
pub open spec fn gear_json(gear: GearView) -> JsonValue {
    let known = gear.other_fields.push(("ID"@, ids_value(gear.id)));
    match gear.comment {
        Some(text) => JsonValue::Object(known.push(("Comment"@, JsonValue::Str(text)))),
        None => JsonValue::Object(known),
    }
}

/// The document that breakpoints are written as: the other fields, then
/// `Gear`.
pub open spec fn breakpoint_json(breakpoints: BreakpointView) -> JsonValue {
    JsonValue::Object(
        breakpoints.other_fields.push(
            (
                "Gear"@,
                JsonValue::Array(
                    Seq::new(breakpoints.gear.len(), |i: int| gear_json(breakpoints.gear[i])),
                ),
            ),
        ),
    )
}

/// The document that a profile is written as: the other fields, then
/// `Breakpoints`.
pub open spec fn profile_json(profile: ProfileView) -> JsonValue {
    JsonValue::Object(
        profile.other_fields.push(("Breakpoints"@, breakpoint_json(profile.breakpoints))),
    )
}

/// Whether a gear entry is such as a document gives: its other fields hold
/// no `ID`, and no `Comment` but, where the entry has no comment, one that
/// is `null`.
pub open spec fn gear_is_plain(gear: GearView) -> bool {
    &&& index_of(gear.other_fields, "ID"@) == gear.other_fields.len()
    &&& match gear.comment {
        Some(_) => index_of(gear.other_fields, "Comment"@) == gear.other_fields.len(),
        None => comment_of(gear.other_fields) == Some(None::<Seq<char>>),
    }
}

/// Whether breakpoints are such as a document gives: their other fields
/// hold no `Gear`, and every gear entry is such as a document gives.
pub open spec fn breakpoint_is_plain(breakpoints: BreakpointView) -> bool {
    &&& index_of(breakpoints.other_fields, "Gear"@) == breakpoints.other_fields.len()
    &&& forall|i: int|
        0 <= i < breakpoints.gear.len() ==> gear_is_plain(#[trigger] breakpoints.gear[i])
}

/// Whether a profile is such as a document gives: its other fields hold no
/// `Breakpoints`, and its breakpoints are such as a document gives.
pub open spec fn profile_is_plain(profile: ProfileView) -> bool {
    &&& index_of(profile.other_fields, "Breakpoints"@) == profile.other_fields.len()
    &&& breakpoint_is_plain(profile.breakpoints)
}

/// Where no member is called `a` or `b`, the others are all the members.
proof fn lemma_others_of_plain(members: Seq<(Seq<char>, JsonValue)>, a: Seq<char>, b: Seq<char>)
    requires
        index_of(members, a) == members.len(),
        index_of(members, b) == members.len(),
    ensures
        others(members, a, b) == members,
{
    lemma_index_of(members, a);
    lemma_index_of(members, b);
    lemma_others_all(members, a, b);
}

/// The others hold no member called `a` or `b`.
proof fn lemma_others_are_plain(members: Seq<(Seq<char>, JsonValue)>, a: Seq<char>, b: Seq<char>)
    ensures
        index_of(others(members, a, b), a) == others(members, a, b).len(),
        index_of(others(members, a, b), b) == others(members, a, b).len(),
{
    lemma_others_named(members, a, b);
    lemma_index_of(others(members, a, b), a);
    lemma_index_of(others(members, a, b), b);
}

/// `ID` and `Comment` are two names.
proof fn lemma_names_differ()
    ensures
        "ID"@ != "Comment"@,
{
    reveal_strlit("ID");
    reveal_strlit("Comment");
    assert("ID"@.len() == 2);
    assert("Comment"@.len() == 7);
}

/// A gear entry that was read from a document is such as a document gives.
pub proof fn lemma_read_gear_is_plain(value: JsonValue)
    requires
        gear_of(value) is Some,
    ensures
        gear_is_plain(gear_of(value).unwrap()),
{
    lemma_names_differ();
    let members = value->Object_0;
    let gear = gear_of(value).unwrap();
    match gear.comment {
        Some(_) => {
            lemma_others_are_plain(members, "ID"@, "Comment"@);
        },
        None => {
            lemma_others_are_plain(members, "ID"@, "ID"@);
            lemma_others_first(members, "ID"@, "ID"@, "Comment"@);
        },
    }
}

/// A gear entry such as a document gives is read back from the document
/// that it is written as.
pub proof fn lemma_gear_reads_back(gear: GearView)
    requires
        gear_is_plain(gear),
    ensures
        gear_of(gear_json(gear)) == Some(gear),
{
    lemma_names_differ();
    let bag = gear.other_fields;
    let id_member = ("ID"@, ids_value(gear.id));
    let known = bag.push(id_member);
    lemma_ids_of_value(gear.id);
    lemma_index_of(bag, "Comment"@);
    lemma_index_of_push(bag, id_member, "ID"@);
    lemma_index_of_push(bag, id_member, "Comment"@);
    lemma_others_push(bag, id_member, "ID"@, "ID"@);
    lemma_others_push(bag, id_member, "ID"@, "Comment"@);
    match gear.comment {
        Some(text) => {
            let comment_member = ("Comment"@, JsonValue::Str(text));
            let written = known.push(comment_member);
            lemma_index_of_push(known, comment_member, "ID"@);
            lemma_index_of_push(known, comment_member, "Comment"@);
            lemma_others_push(known, comment_member, "ID"@, "Comment"@);
            lemma_others_of_plain(bag, "ID"@, "Comment"@);
            assert(gear_json(gear) == JsonValue::Object(written));
            assert(index_of(known, "ID"@) == bag.len());
            assert(index_of(written, "ID"@) == bag.len());
            assert(written[bag.len() as int] == id_member);
            assert(index_of(known, "Comment"@) == known.len());
            assert(index_of(written, "Comment"@) == known.len());
            assert(written[known.len() as int] == comment_member);
            assert(comment_of(written) == Some(Some(text)));
            assert(others(written, "ID"@, "Comment"@) == bag);
        },
        None => {
            lemma_others_of_plain(bag, "ID"@, "ID"@);
            assert(known[bag.len() as int] == id_member);
            if index_of(bag, "Comment"@) < bag.len() {
                assert(known[index_of(bag, "Comment"@)] == bag[index_of(bag, "Comment"@)]);
            }
        },
    }
}

/// Breakpoints that were read from a document are such as a document
/// gives.
pub proof fn lemma_read_breakpoint_is_plain(value: JsonValue)
    requires
        breakpoint_of(value) is Some,
    ensures
        breakpoint_is_plain(breakpoint_of(value).unwrap()),
{
    let members = value->Object_0;
    let breakpoints = breakpoint_of(value).unwrap();
    lemma_others_are_plain(members, "Gear"@, "Gear"@);
    let items = members[index_of(members, "Gear"@)].1->Array_0;
    assert forall|i: int| 0 <= i < breakpoints.gear.len() implies gear_is_plain(
        #[trigger] breakpoints.gear[i],
    ) by {
        assert(gear_of(items[i]) is Some);
        lemma_read_gear_is_plain(items[i]);
    }
}

/// Breakpoints such as a document gives are read back from the document
/// that they are written as.
pub proof fn lemma_breakpoint_reads_back(breakpoints: BreakpointView)
    requires
        breakpoint_is_plain(breakpoints),
    ensures
        breakpoint_of(breakpoint_json(breakpoints)) == Some(breakpoints),
{
    let bag = breakpoints.other_fields;
    let items = Seq::new(breakpoints.gear.len(), |i: int| gear_json(breakpoints.gear[i]));
    let gear_member = ("Gear"@, JsonValue::Array(items));
    let written = bag.push(gear_member);
    lemma_index_of_push(bag, gear_member, "Gear"@);
    lemma_others_push(bag, gear_member, "Gear"@, "Gear"@);
    lemma_others_of_plain(bag, "Gear"@, "Gear"@);
    assert(written[bag.len() as int] == gear_member);
    assert forall|i: int| 0 <= i < items.len() implies gear_of(#[trigger] items[i]) == Some(
        breakpoints.gear[i],
    ) by {
        assert(gear_is_plain(breakpoints.gear[i]));
        lemma_gear_reads_back(breakpoints.gear[i]);
    }
    assert(breakpoint_of(breakpoint_json(breakpoints)).unwrap().gear =~= breakpoints.gear);
}

/// A profile that was read from a document is such as a document gives.
pub proof fn lemma_read_profile_is_plain(value: JsonValue)
    requires
        profile_of(value) is Some,
    ensures
        profile_is_plain(profile_of(value).unwrap()),
{
    let members = value->Object_0;
    lemma_others_are_plain(members, "Breakpoints"@, "Breakpoints"@);
    lemma_read_breakpoint_is_plain(members[index_of(members, "Breakpoints"@)].1);
}

/// A profile such as a document gives is read back from the document that
/// it is written as.
pub proof fn lemma_profile_reads_back(profile: ProfileView)
    requires
        profile_is_plain(profile),
    ensures
        profile_of(profile_json(profile)) == Some(profile),
{
    let bag = profile.other_fields;
    let member = ("Breakpoints"@, breakpoint_json(profile.breakpoints));
    let written = bag.push(member);
    lemma_index_of_push(bag, member, "Breakpoints"@);
    lemma_others_push(bag, member, "Breakpoints"@, "Breakpoints"@);
    lemma_others_of_plain(bag, "Breakpoints"@, "Breakpoints"@);
    lemma_breakpoint_reads_back(profile.breakpoints);
    assert(written[bag.len() as int] == member);
}

/// Copies the members of an object.
pub fn copy_members(members: &Vec<(String, Json)>) -> (copy: Vec<(String, Json)>)
    ensures
        member_views(copy@) == member_views(members@),
{
    let mut out: Vec<(String, Json)> = Vec::new();
    let mut i: usize = 0;
    while i < members.len()
        invariant
            i <= members.len(),
            out.len() == i,
            forall|k: int| 0 <= k < i ==> member_views(out@)[k] == member_views(members@)[k],
        decreases members.len() - i,
    {
        let name = members[i].0.clone();
        let value = members[i].1.clone();
        out.push((name, value));
        i += 1;
    }
    assert(member_views(out@) =~= member_views(members@));
    out
}

impl Gear {
    /// Reads a gear entry from a document.
    pub fn from_json(value: &Json) -> (gear: Result<Gear, ParseError>)
        ensures
            match gear {
                Ok(g) => gear_of(value@) == Some(g@),
                Err(e) => gear_of(value@) is None && e == ParseError::Shape,
            },
    {
        match value {
            Json::Object(members) => {
                proof {
                    lemma_object_view(*members);
                }
                let id_name = "ID".to_owned();
                let comment_name = "Comment".to_owned();
                let i = find_member(members, &id_name);
                if i >= members.len() {
                    return Err(ParseError::Shape);
                }
                let id = match &members[i].1 {
                    Json::Array(items) => {
                        proof {
                            lemma_array_view(*items);
                        }
                        match read_ids(items) {
                            Some(id) => id,
                            None => {
                                return Err(ParseError::Shape);
                            },
                        }
                    },
                    _ => {
                        return Err(ParseError::Shape);
                    },
                };
                let c = find_member(members, &comment_name);
                let comment = if c < members.len() {
                    match &members[c].1 {
                        Json::Str(text) => Some(text.clone()),
                        Json::Null => None,
                        _ => {
                            return Err(ParseError::Shape);
                        },
                    }
                } else {
                    None
                };
                let other_fields = if comment.is_some() {
                    remaining_members(members, &id_name, &comment_name)
                } else {
                    remaining_members(members, &id_name, &id_name)
                };
                Ok(Gear { other_fields, id, comment })
            },
            _ => Err(ParseError::Shape),
        }
    }

    /// Writes a gear entry as a document.
    pub fn to_json(&self) -> (doc: Json)
        ensures
            doc@ == gear_json(self@),
    {
        let mut members = copy_members(&self.other_fields);
        let ghost others = members@;
        let id = ids_to_json(&self.id);
        members.push(("ID".to_owned(), id));
        assert(member_views(members@) =~= member_views(others).push(("ID"@, id@)));
        match &self.comment {
            Some(text) => {
                let ghost known = members@;
                let value = Json::Str(text.clone());
                members.push(("Comment".to_owned(), value));
                assert(member_views(members@) =~= member_views(known).push(("Comment"@, value@)));
            },
            None => {},
        }
        proof {
            lemma_object_view(members);
        }
        Json::Object(members)
    }
}

impl Breakpoint {
    /// Reads the breakpoints of a profile from a document.
    #[verifier::loop_isolation(false)]
    pub fn from_json(value: &Json) -> (breakpoints: Result<Breakpoint, ParseError>)
        ensures
            match breakpoints {
                Ok(b) => breakpoint_of(value@) == Some(b@),
                Err(e) => breakpoint_of(value@) is None && e == ParseError::Shape,
            },
    {
        match value {
            Json::Object(members) => {
                proof {
                    lemma_object_view(*members);
                }
                let gear_name = "Gear".to_owned();
                let g = find_member(members, &gear_name);
                if g >= members.len() {
                    return Err(ParseError::Shape);
                }
                match &members[g].1 {
                    Json::Array(items) => {
                        proof {
                            lemma_array_view(*items);
                        }
                        let mut gear: Vec<Gear> = Vec::new();
                        let mut i: usize = 0;
                        while i < items.len()
                            invariant
                                i <= items.len(),
                                gear.len() == i,
                                forall|k: int|
                                    0 <= k < i ==> gear_of(#[trigger] item_views(items@)[k])
                                        == Some(gear@[k]@),
                            decreases items.len() - i,
                        {
                            match Gear::from_json(&items[i]) {
                                Ok(entry) => {
                                    gear.push(entry);
                                },
                                Err(e) => {
                                    assert(gear_of(item_views(items@)[i as int]) is None);
                                    return Err(e);
                                },
                            }
                            i += 1;
                        }
                        let other_fields = remaining_members(members, &gear_name, &gear_name);
                        assert(gear_views(gear@) =~= Seq::new(
                            item_views(items@).len(),
                            |i: int| gear_of(item_views(items@)[i]).unwrap(),
                        ));
                        Ok(Breakpoint { other_fields, gear })
                    },
                    _ => Err(ParseError::Shape),
                }
            },
            _ => Err(ParseError::Shape),
        }
    }

    /// Writes the breakpoints of a profile as a document.
    pub fn to_json(&self) -> (doc: Json)
        ensures
            doc@ == breakpoint_json(self@),
    {
        let mut items: Vec<Json> = Vec::new();
        let mut i: usize = 0;
        while i < self.gear.len()
            invariant
                i <= self.gear.len(),
                items.len() == i,
                forall|k: int| 0 <= k < i ==> (#[trigger] items@[k])@ == gear_json(self.gear@[k]@),
            decreases self.gear.len() - i,
        {
            items.push(self.gear[i].to_json());
            i += 1;
        }
        let mut members = copy_members(&self.other_fields);
        let ghost others = members@;
        let list = Json::Array(items);
        proof {
            lemma_array_view(items);
            assert(item_views(items@) =~= Seq::new(
                self@.gear.len(),
                |i: int| gear_json(self@.gear[i]),
            ));
        }
        members.push(("Gear".to_owned(), list));
        assert(member_views(members@) =~= member_views(others).push(("Gear"@, list@)));
        proof {
            lemma_object_view(members);
        }
        Json::Object(members)
    }
}

impl Profile {
    /// Reads a profile from a document.
    pub fn from_json(value: &Json) -> (profile: Result<Profile, ParseError>)
        ensures
            match profile {
                Ok(p) => profile_of(value@) == Some(p@),
                Err(e) => profile_of(value@) is None && e == ParseError::Shape,
            },
    {
        match value {
            Json::Object(members) => {
                proof {
                    lemma_object_view(*members);
                }
                let name = "Breakpoints".to_owned();
                let b = find_member(members, &name);
                if b >= members.len() {
                    return Err(ParseError::Shape);
                }
                match Breakpoint::from_json(&members[b].1) {
                    Ok(breakpoints) => {
                        let other_fields = remaining_members(members, &name, &name);
                        Ok(Profile { other_fields, breakpoints })
                    },
                    Err(e) => Err(e),
                }
            },
            _ => Err(ParseError::Shape),
        }
    }

    /// Writes a profile as a document.
    pub fn to_json(&self) -> (doc: Json)
        ensures
            doc@ == profile_json(self@),
    {
        let mut members = copy_members(&self.other_fields);
        let ghost others = members@;
        let breakpoints = self.breakpoints.to_json();
        members.push(("Breakpoints".to_owned(), breakpoints));
        assert(member_views(members@) =~= member_views(others).push(
            ("Breakpoints"@, breakpoints@),
        ));
        proof {
            lemma_object_view(members);
        }
        Json::Object(members)
    }
}

/// The identifiers that a gear entry compares: those that it holds and those
/// that the result gives for its comment. `None` where the entry has no
/// comment or the result has no such label.
pub open spec fn gear_pair(gear: GearView, entries: Seq<(Seq<char>, Seq<u32>)>) -> Option<
    (Seq<u32>, Seq<u32>),
> {
    match gear.comment {
        Some(label) => match lookup(entries, label) {
            Some(ids) => Some((gear.id, ids)),
            None => None,
        },
        None => None,
    }
}

/// What a result does to a gear entry.
pub open spec fn gear_outcome(gear: GearView, entries: Seq<(Seq<char>, Seq<u32>)>) -> Outcome {
    match gear_pair(gear, entries) {
        Some((held, given)) => if ids_match(held, given) {
            Outcome::Skipped
        } else {
            Outcome::Changed
        },
        None => Outcome::Untouched,
    }
}

/// The gear entry after a result: where the result changes it, it holds the
/// identifiers that the result gives for its comment, in their order, and is
/// otherwise as before.
pub open spec fn gear_step(gear: GearView, entries: Seq<(Seq<char>, Seq<u32>)>) -> GearView {
    if gear_outcome(gear, entries) == Outcome::Changed {
        GearView {
            other_fields: gear.other_fields,
            id: lookup(entries, gear.comment.unwrap()).unwrap(),
            comment: gear.comment,
        }
    } else {
        gear
    }
}

/// The profile after a result: every gear entry after it, in the same
/// order, and everything else as before.
pub open spec fn profile_after(profile: ProfileView, entries: Seq<(Seq<char>, Seq<u32>)>) -> ProfileView {
    ProfileView {
        other_fields: profile.other_fields,
        breakpoints: BreakpointView {
            other_fields: profile.breakpoints.other_fields,
            gear: Seq::new(
                profile.breakpoints.gear.len(),
                |i: int| gear_step(profile.breakpoints.gear[i], entries),
            ),
        },
    }
}

/// The comments of those among the first `n` gear entries on which the
/// result had the given outcome, in order.
pub open spec fn gear_labels(
    gear: Seq<GearView>,
    entries: Seq<(Seq<char>, Seq<u32>)>,
    outcome: Outcome,
    n: int,
) -> Seq<Seq<char>>
    decreases n,
{
    if n <= 0 {
        Seq::empty()
    } else {
        let before = gear_labels(gear, entries, outcome, n - 1);
        if outcome != Outcome::Untouched && gear_outcome(gear[n - 1], entries) == outcome {
            before.push(gear[n - 1].comment.unwrap())
        } else {
            before
        }
    }
}

/// Brings a profile up to date with an optimizer result: every gear entry
/// whose comment is a label of the result takes the identifiers of that
/// label, unless it holds matching ones already.
pub fn update_profile(profile: &mut Profile, optimizer: &[Optimizer]) -> (report: DocumentReport)
    ensures
        final(profile)@ == profile_after(old(profile)@, entry_views(optimizer@)),
        string_views(report.changed@) == gear_labels(
            old(profile)@.breakpoints.gear,
            entry_views(optimizer@),
            Outcome::Changed,
            old(profile)@.breakpoints.gear.len() as int,
        ),
        string_views(report.skipped@) == gear_labels(
            old(profile)@.breakpoints.gear,
            entry_views(optimizer@),
            Outcome::Skipped,
            old(profile)@.breakpoints.gear.len() as int,
        ),
{
    let mut changed: Vec<String> = Vec::new();
    let mut skipped: Vec<String> = Vec::new();
    let ghost start = profile@;
    let mut i: usize = 0;
    assert(string_views(changed@) =~= Seq::empty());
    assert(string_views(skipped@) =~= Seq::empty());
    while i < profile.breakpoints.gear.len()
        invariant
            i <= profile.breakpoints.gear.len(),
            profile@.other_fields == start.other_fields,
            profile@.breakpoints.other_fields == start.breakpoints.other_fields,
            profile.breakpoints.gear.len() == start.breakpoints.gear.len(),
            forall|k: int|
                0 <= k < i ==> (#[trigger] profile.breakpoints.gear@[k])@ == gear_step(
                    start.breakpoints.gear[k],
                    entry_views(optimizer@),
                ),
            forall|k: int|
                i <= k < profile.breakpoints.gear.len() ==> (
                #[trigger] profile.breakpoints.gear@[k])@ == start.breakpoints.gear[k],
            string_views(changed@) == gear_labels(
                start.breakpoints.gear,
                entry_views(optimizer@),
                Outcome::Changed,
                i as int,
            ),
            string_views(skipped@) == gear_labels(
                start.breakpoints.gear,
                entry_views(optimizer@),
                Outcome::Skipped,
                i as int,
            ),
        decreases profile.breakpoints.gear.len() - i,
    {
        let ghost entry = profile.breakpoints.gear@[i as int]@;
        assert(entry == start.breakpoints.gear[i as int]);
        let found: Option<Vec<u32>> = match &profile.breakpoints.gear[i].comment {
            Some(label) => match find_ids(optimizer, label) {
                Some(ids) => {
                    proof {
                        lemma_items_match_ids(profile.breakpoints.gear@[i as int].id@, ids@);
                    }
                    if vectors_equal(profile.breakpoints.gear[i].id.as_slice(), ids.as_slice()) {
                        let ghost before = skipped@;
                        skipped.push(label.clone());
                        assert(string_views(skipped@) =~= string_views(before).push(label@));
                        None
                    } else {
                        let ghost before = changed@;
                        changed.push(label.clone());
                        assert(string_views(changed@) =~= string_views(before).push(label@));
                        Some(ids.clone())
                    }
                },
                None => None,
            },
            None => None,
        };
        match found {
            Some(ids) => {
                profile.breakpoints.gear[i].id = ids;
            },
            None => {},
        }
        i += 1;
    }
    assert(profile@.breakpoints.gear =~= profile_after(start, entry_views(optimizer@)).breakpoints.gear);
    DocumentReport { changed, skipped }
}

} // verus!
