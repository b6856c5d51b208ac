//! An in-memory model of JSON documents.

use vstd::prelude::*;

verus! {

/// The mathematical value of a JSON document.
pub enum JsonValue {
    Null,
    Bool(bool),
    Uint(u64),
    Number(serde_json::Number),
    Str(Seq<char>),
    Array(Seq<JsonValue>),
    Object(Seq<(Seq<char>, JsonValue)>),
}

/// A JSON document held in memory.
#[derive(Debug, PartialEq)]
pub enum Json {
    Null,
    Bool(bool),
    /// A whole number from 0 to 2^64 - 1.
    Uint(u64),
    /// Any other number, kept as `serde_json` holds it.
    Number(serde_json::Number),
    Str(String),
    Array(Vec<Json>),
    Object(Vec<(String, Json)>),
}

/// The mathematical value of a document.
pub open spec fn value_of(doc: Json) -> JsonValue
    decreases doc,
{
    match doc {
        Json::Null => JsonValue::Null,
        Json::Bool(b) => JsonValue::Bool(b),
        Json::Uint(n) => JsonValue::Uint(n),
        Json::Number(n) => JsonValue::Number(n),
        Json::Str(s) => JsonValue::Str(s@),
        Json::Array(items) => JsonValue::Array(
            Seq::new(
                items@.len(),
                |i: int|
                    if 0 <= i < items@.len() {
                        value_of(items@[i])
                    } else {
                        JsonValue::Null
                    },
            ),
        ),
        Json::Object(members) => JsonValue::Object(
            Seq::new(
                members@.len(),
                |i: int|
                    if 0 <= i < members@.len() {
                        (members@[i].0@, value_of(members@[i].1))
                    } else {
                        (Seq::empty(), JsonValue::Null)
                    },
            ),
        ),
    }
}

impl View for Json {
    type V = JsonValue;

    open spec fn view(&self) -> JsonValue {
        value_of(*self)
    }
}

/// The values of the items of an array.
pub open spec fn item_views(items: Seq<Json>) -> Seq<JsonValue> {
    Seq::new(items.len(), |i: int| items[i]@)
}

/// The names and values of the members of an object.
pub open spec fn member_views(members: Seq<(String, Json)>) -> Seq<(Seq<char>, JsonValue)> {
    Seq::new(members.len(), |i: int| (members[i].0@, members[i].1@))
}

/// The value of an array is made of the values of its items.
pub proof fn lemma_array_view(items: Vec<Json>)
    ensures
        Json::Array(items)@ == JsonValue::Array(item_views(items@)),
{
    assert(Json::Array(items)@->Array_0 =~= item_views(items@));
}

/// The value of an object is made of the names and values of its members.
pub proof fn lemma_object_view(members: Vec<(String, Json)>)
    ensures
        Json::Object(members)@ == JsonValue::Object(member_views(members@)),
{
    assert(Json::Object(members)@->Object_0 =~= member_views(members@));
}

/// Whether a value is a whole number that fits 32 bits.
pub open spec fn is_id(value: JsonValue) -> bool {
    value matches JsonValue::Uint(n) && n <= u32::MAX
}

/// The identifier that a value holds, where `is_id` allows it.
pub open spec fn id_of(value: JsonValue) -> u32 {
    value->Uint_0 as u32
}

/// The identifiers that an array holds: `None` unless every item is a whole
/// number that fits 32 bits.
pub open spec fn ids_of(items: Seq<JsonValue>) -> Option<Seq<u32>> {
    if forall|i: int| 0 <= i < items.len() ==> is_id(#[trigger] items[i]) {
        Some(Seq::new(items.len(), |i: int| id_of(items[i])))
    } else {
        None
    }
}

/// An array of identifiers is the array that holds its identifiers.
pub proof fn lemma_ids_written_back(items: Seq<JsonValue>)
    requires
        ids_of(items) is Some,
    ensures
        ids_value(ids_of(items).unwrap()) == JsonValue::Array(items),
{
    let ids = ids_of(items).unwrap();
    assert forall|i: int| 0 <= i < items.len() implies JsonValue::Uint(ids[i] as u64)
        == items[i] by {
        assert(is_id(items[i]));
    }
    assert(ids_value(ids)->Array_0 =~= items);
}

/// The array that holds a list of identifiers is an array of identifiers,
/// and they are those of the list.
pub proof fn lemma_ids_of_value(ids: Seq<u32>)
    ensures
        ids_of(ids_value(ids)->Array_0) == Some(ids),
{
    let items = ids_value(ids)->Array_0;
    assert forall|i: int| 0 <= i < items.len() implies is_id(#[trigger] items[i]) by {}
    assert(ids_of(items).unwrap() =~= ids);
}

/// Reads the identifiers that an array holds.
pub fn read_ids(items: &Vec<Json>) -> (ids: Option<Vec<u32>>)
    ensures
        match ids {
            Some(v) => ids_of(item_views(items@)) == Some(v@),
            None => ids_of(item_views(items@)) is None,
        },
{
    let mut out: Vec<u32> = Vec::new();
    let mut i: usize = 0;
    while i < items.len()
        invariant
            i <= items.len(),
            out.len() == i,
            forall|k: int|
                0 <= k < i ==> is_id(#[trigger] item_views(items@)[k]) && out@[k] == id_of(
                    item_views(items@)[k],
                ),
        decreases items.len() - i,
    {
        match &items[i] {
            Json::Uint(n) => {
                if *n > u32::MAX as u64 {
                    assert(!is_id(item_views(items@)[i as int]));
                    return None;
                }
                out.push(*n as u32);
            },
            _ => {
                assert(!is_id(item_views(items@)[i as int]));
                return None;
            },
        }
        i += 1;
    }
    assert(out@ =~= Seq::new(items@.len(), |k: int| id_of(item_views(items@)[k])));
    Some(out)
}

/// The array that holds the given identifiers, in their order.
pub open spec fn ids_value(ids: Seq<u32>) -> JsonValue {
    JsonValue::Array(Seq::new(ids.len(), |i: int| JsonValue::Uint(ids[i] as u64)))
}

/// Builds the array that holds the given identifiers.
pub fn ids_to_json(ids: &Vec<u32>) -> (doc: Json)
    ensures
        doc@ == ids_value(ids@),
{
    let mut out: Vec<Json> = Vec::new();
    let mut i: usize = 0;
    while i < ids.len()
        invariant
            i <= ids.len(),
            out.len() == i,
            forall|k: int| 0 <= k < i ==> (#[trigger] out@[k])@ == JsonValue::Uint(ids@[k] as u64),
        decreases ids.len() - i,
    {
        out.push(Json::Uint(ids[i] as u64));
        i += 1;
    }
    proof {
        lemma_array_view(out);
        assert(item_views(out@) =~= Seq::new(
            ids@.len(),
            |i: int| JsonValue::Uint(ids@[i] as u64),
        ));
    }
    Json::Array(out)
}

/// The identifiers that a list of items holds when it is read leniently:
/// every whole number counts, reduced to 32 bits, and every other item is
/// passed over.
pub open spec fn lenient_ids(items: Seq<JsonValue>) -> Seq<u32>
    decreases items.len(),
{
    if items.len() == 0 {
        Seq::empty()
    } else {
        let rest = lenient_ids(items.drop_last());
        match items.last() {
            JsonValue::Uint(n) => rest.push((n % 0x1_0000_0000) as u32),
            _ => rest,
        }
    }
}

/// The identifiers that a settings field holds: those of its items where it
/// is an array, none where it is anything else.
pub open spec fn field_ids(value: JsonValue) -> Seq<u32> {
    match value {
        JsonValue::Array(items) => lenient_ids(items),
        _ => Seq::empty(),
    }
}

/// Reads the identifiers that a settings field holds.
pub fn read_field_ids(value: &Json) -> (ids: Vec<u32>)
    ensures
        ids@ == field_ids(value@),
{
    let mut out: Vec<u32> = Vec::new();
    match value {
        Json::Array(items) => {
            proof {
                lemma_array_view(*items);
            }
            let mut i: usize = 0;
            while i < items.len()
                invariant
                    i <= items.len(),
                    out@ == lenient_ids(item_views(items@).take(i as int)),
                decreases items.len() - i,
            {
                proof {
                    let prefix = item_views(items@).take(i + 1);
                    assert(prefix.drop_last() =~= item_views(items@).take(i as int));
                    assert(prefix.last() == items@[i as int]@);
                }
                match &items[i] {
                    Json::Uint(n) => {
                        out.push((*n % 0x1_0000_0000) as u32);
                    },
                    _ => {},
                }
                i += 1;
            }
            assert(item_views(items@).take(i as int) =~= item_views(items@));
        },
        _ => {},
    }
    out
}

/// Whether `i` is the place of the first member called `name`.
pub open spec fn is_first_member(
    members: Seq<(Seq<char>, JsonValue)>,
    name: Seq<char>,
    i: int,
) -> bool {
    &&& 0 <= i < members.len()
    &&& members[i].0 == name
    &&& forall|k: int| 0 <= k < i ==> (#[trigger] members[k]).0 != name
}

/// The place of the first member called `name`, or the number of members
/// where none is called so.
pub open spec fn index_of(members: Seq<(Seq<char>, JsonValue)>, name: Seq<char>) -> int {
    if exists|i: int| is_first_member(members, name, i) {
        choose|i: int| is_first_member(members, name, i)
    } else {
        members.len() as int
    }
}

/// `index_of` is within bounds, and below the length it is the place of the
/// first member called `name`.
pub proof fn lemma_index_of(members: Seq<(Seq<char>, JsonValue)>, name: Seq<char>)
    ensures
        0 <= index_of(members, name) <= members.len(),
        index_of(members, name) < members.len() ==> is_first_member(
            members,
            name,
            index_of(members, name),
        ),
        index_of(members, name) == members.len() ==> forall|k: int|
            0 <= k < members.len() ==> (#[trigger] members[k]).0 != name,
{
    if !exists|i: int| is_first_member(members, name, i) {
        assert forall|k: int| 0 <= k < members.len() implies (#[trigger] members[k]).0
            != name by {
            lemma_no_member_before(members, name, k + 1);
        }
    }
}

/// Where no member is the first called `name`, none of the first `n` is
/// called so.
proof fn lemma_no_member_before(members: Seq<(Seq<char>, JsonValue)>, name: Seq<char>, n: int)
    requires
        0 <= n <= members.len(),
        !exists|i: int| is_first_member(members, name, i),
    ensures
        forall|k: int| 0 <= k < n ==> (#[trigger] members[k]).0 != name,
    decreases n,
{
    if n > 0 {
        lemma_no_member_before(members, name, n - 1);
        if members[n - 1].0 == name {
            assert(is_first_member(members, name, n - 1));
        }
    }
}

/// The first member called `name` is where `index_of` says.
pub proof fn lemma_first_is_index(members: Seq<(Seq<char>, JsonValue)>, name: Seq<char>, i: int)
    requires
        is_first_member(members, name, i),
    ensures
        index_of(members, name) == i,
{
    lemma_index_of(members, name);
    let found = index_of(members, name);
    if found < i {
        assert(members[found].0 != name);
    } else if i < found {
        assert(members[i].0 != name);
    }
}

/// Two objects whose members have the same names in the same places hold
/// every name in the same place.
pub proof fn lemma_same_names_same_index(
    a: Seq<(Seq<char>, JsonValue)>,
    b: Seq<(Seq<char>, JsonValue)>,
    name: Seq<char>,
)
    requires
        a.len() == b.len(),
        forall|i: int| 0 <= i < a.len() ==> (#[trigger] a[i]).0 == b[i].0,
    ensures
        index_of(a, name) == index_of(b, name),
{
    lemma_index_of(a, name);
    lemma_index_of(b, name);
    let i = index_of(a, name);
    if i < a.len() {
        assert forall|k: int| 0 <= k < i implies (#[trigger] b[k]).0 != name by {
            assert(a[k].0 != name);
        }
        assert(is_first_member(b, name, i));
        lemma_first_is_index(b, name, i);
    } else {
        let j = index_of(b, name);
        if j < b.len() {
            assert(a[j].0 != name);
        }
    }
}

/// Where an object gains a member at its end, the first member called
/// `name` is the one it was, or else the new one.
pub proof fn lemma_index_of_push(
    members: Seq<(Seq<char>, JsonValue)>,
    member: (Seq<char>, JsonValue),
    name: Seq<char>,
)
    ensures
        index_of(members.push(member), name) == if index_of(members, name) < members.len()
            || member.0 == name {
            index_of(members, name)
        } else {
            members.len() as int + 1
        },
{
    let longer = members.push(member);
    lemma_index_of(members, name);
    lemma_index_of(longer, name);
    let i = index_of(members, name);
    if i < members.len() {
        assert forall|k: int| 0 <= k < i implies (#[trigger] longer[k]).0 != name by {
            assert(members[k].0 != name);
        }
        assert(longer[i] == members[i]);
        lemma_first_is_index(longer, name, i);
    } else if member.0 == name {
        assert forall|k: int| 0 <= k < i implies (#[trigger] longer[k]).0 != name by {
            assert(members[k].0 != name);
        }
        lemma_first_is_index(longer, name, i);
    } else {
        let j = index_of(longer, name);
        if j < longer.len() {
            if j < members.len() {
                assert(members[j].0 != name);
                assert(longer[j] == members[j]);
            }
        }
    }
}

/// Read leniently, the array that was built from a list of identifiers
/// gives the list back.
pub proof fn lemma_ids_read_back(ids: Seq<u32>)
    ensures
        field_ids(ids_value(ids)) == ids,
    decreases ids.len(),
{
    let items = ids_value(ids)->Array_0;
    if ids.len() == 0 {
        assert(lenient_ids(items) =~= ids);
    } else {
        lemma_ids_read_back(ids.drop_last());
        assert(items.drop_last() =~= ids_value(ids.drop_last())->Array_0);
        assert(items.last() == JsonValue::Uint(ids.last() as u64));
        assert(lenient_ids(items) =~= ids.drop_last().push(ids.last()));
        assert(ids.drop_last().push(ids.last()) =~= ids);
    }
}

/// Finds the first member called `name`.
pub fn find_member(members: &Vec<(String, Json)>, name: &String) -> (i: usize)
    ensures
        i == index_of(member_views(members@), name@),
{
    let mut i: usize = 0;
    while i < members.len()
        invariant
            i <= members.len(),
            forall|k: int| 0 <= k < i ==> (#[trigger] member_views(members@)[k]).0 != name@,
        decreases members.len() - i,
    {
        if members[i].0 == *name {
            proof {
                assert(is_first_member(member_views(members@), name@, i as int));
                lemma_index_of(member_views(members@), name@);
            }
            return i;
        }
        i += 1;
    }
    proof {
        lemma_index_of(member_views(members@), name@);
    }
    i
}

/// The members that are called neither `a` nor `b`, in their order.
pub open spec fn others(
    members: Seq<(Seq<char>, JsonValue)>,
    a: Seq<char>,
    b: Seq<char>,
) -> Seq<(Seq<char>, JsonValue)>
    decreases members.len(),
{
    if members.len() == 0 {
        Seq::empty()
    } else {
        let rest = others(members.drop_last(), a, b);
        if members.last().0 == a || members.last().0 == b {
            rest
        } else {
            rest.push(members.last())
        }
    }
}

/// Every member that is called neither `a` nor `b` is among the others.
pub proof fn lemma_others_keep(
    members: Seq<(Seq<char>, JsonValue)>,
    a: Seq<char>,
    b: Seq<char>,
    i: int,
)
    requires
        0 <= i < members.len(),
        members[i].0 != a,
        members[i].0 != b,
    ensures
        others(members, a, b).contains(members[i]),
    decreases members.len(),
{
    let rest = others(members.drop_last(), a, b);
    if i == members.len() - 1 {
        assert(rest.push(members.last())[rest.len() as int] == members[i]);
    } else {
        lemma_others_keep(members.drop_last(), a, b, i);
        let k = choose|k: int| 0 <= k < rest.len() && rest[k] == members.drop_last()[i];
        if members.last().0 == a || members.last().0 == b {
        } else {
            assert(rest.push(members.last())[k] == members[i]);
        }
    }
}

/// None of the others is called `a` or `b`.
pub proof fn lemma_others_named(members: Seq<(Seq<char>, JsonValue)>, a: Seq<char>, b: Seq<char>)
    ensures
        forall|k: int|
            0 <= k < others(members, a, b).len() ==> (#[trigger] others(members, a, b)[k]).0 != a
                && others(members, a, b)[k].0 != b,
    decreases members.len(),
{
    if members.len() > 0 {
        let rest = others(members.drop_last(), a, b);
        lemma_others_named(members.drop_last(), a, b);
        assert forall|k: int| 0 <= k < others(members, a, b).len() implies (#[trigger] others(
            members,
            a,
            b,
        )[k]).0 != a && others(members, a, b)[k].0 != b by {
            if k < rest.len() {
                assert(rest[k].0 != a && rest[k].0 != b);
            }
        }
    }
}

/// Where no member is called `a` or `b`, the others are all the members.
pub proof fn lemma_others_all(members: Seq<(Seq<char>, JsonValue)>, a: Seq<char>, b: Seq<char>)
    requires
        forall|k: int|
            0 <= k < members.len() ==> (#[trigger] members[k]).0 != a && members[k].0 != b,
    ensures
        others(members, a, b) == members,
    decreases members.len(),
{
    if members.len() > 0 {
        let rest = members.drop_last();
        assert forall|k: int| 0 <= k < rest.len() implies (#[trigger] rest[k]).0 != a && rest[k].0
            != b by {
            assert(rest[k] == members[k]);
        }
        lemma_others_all(rest, a, b);
        assert(members.last() == members[members.len() - 1]);
        assert(rest.push(members.last()) =~= members);
    } else {
        assert(others(members, a, b) =~= members);
    }
}

/// The others of an object that gained a member at its end.
pub proof fn lemma_others_push(
    members: Seq<(Seq<char>, JsonValue)>,
    member: (Seq<char>, JsonValue),
    a: Seq<char>,
    b: Seq<char>,
)
    ensures
        others(members.push(member), a, b) == if member.0 == a || member.0 == b {
            others(members, a, b)
        } else {
            others(members, a, b).push(member)
        },
{
    assert(members.push(member).drop_last() =~= members);
}

/// Among the others, the first member called `name` is the one that it is
/// among all the members, where `name` is neither `a` nor `b`.
pub proof fn lemma_others_first(
    members: Seq<(Seq<char>, JsonValue)>,
    a: Seq<char>,
    b: Seq<char>,
    name: Seq<char>,
)
    requires
        name != a,
        name != b,
    ensures
        index_of(others(members, a, b), name) < others(members, a, b).len() <==> index_of(
            members,
            name,
        ) < members.len(),
        index_of(members, name) < members.len() ==> others(members, a, b)[index_of(
            others(members, a, b),
            name,
        )] == members[index_of(members, name)],
    decreases members.len(),
{
    lemma_index_of(members, name);
    lemma_index_of(others(members, a, b), name);
    if members.len() > 0 {
        let rest = members.drop_last();
        let last = members.last();
        assert(rest.push(last) =~= members);
        lemma_others_first(rest, a, b, name);
        lemma_index_of_push(rest, last, name);
        lemma_index_of(rest, name);
        lemma_index_of(others(rest, a, b), name);
        if !(last.0 == a || last.0 == b) {
            lemma_index_of_push(others(rest, a, b), last, name);
        }
    }
}

/// Copies the members that are called neither `a` nor `b`.
pub fn remaining_members(members: &Vec<(String, Json)>, a: &String, b: &String) -> (rest: Vec<
    (String, Json),
>)
    ensures
        member_views(rest@) == others(member_views(members@), a@, b@),
{
    let mut out: Vec<(String, Json)> = Vec::new();
    let mut i: usize = 0;
    assert(member_views(out@) =~= Seq::empty());
    while i < members.len()
        invariant
            i <= members.len(),
            member_views(out@) == others(member_views(members@).take(i as int), a@, b@),
        decreases members.len() - i,
    {
        proof {
            let prefix = member_views(members@).take(i + 1);
            assert(prefix.drop_last() =~= member_views(members@).take(i as int));
            assert(prefix.last() == member_views(members@)[i as int]);
        }
        if !(members[i].0 == *a || members[i].0 == *b) {
            let ghost before = out@;
            let name = members[i].0.clone();
            let value = members[i].1.clone();
            out.push((name, value));
            assert(member_views(out@) =~= member_views(before).push((name@, value@)));
        }
        i += 1;
    }
    assert(member_views(members@).take(i as int) =~= member_views(members@));
    out
}

impl Clone for Json {
    #[verifier::loop_isolation(false)]
    fn clone(&self) -> (copy: Json)
        ensures
            copy@ == self@,
        decreases self,
    {
        match self {
            Json::Null => Json::Null,
            Json::Bool(b) => Json::Bool(*b),
            Json::Uint(n) => Json::Uint(*n),
            Json::Number(n) => Json::Number(n.clone()),
            Json::Str(s) => Json::Str(s.clone()),
            Json::Array(items) => {
                let mut out: Vec<Json> = Vec::new();
                let mut i: usize = 0;
                while i < items.len()
                    invariant
                        i <= items.len(),
                        out.len() == i,
                        forall|k: int| 0 <= k < i ==> out@[k]@ == items@[k]@,
                    decreases items.len() - i,
                {
                    out.push(items[i].clone());
                    i += 1;
                }
                proof {
                    lemma_array_view(*items);
                    lemma_array_view(out);
                    assert(item_views(out@) =~= item_views(items@));
                }
                Json::Array(out)
            },
            Json::Object(members) => {
                let mut out: Vec<(String, Json)> = Vec::new();
                let mut i: usize = 0;
                while i < members.len()
                    invariant
                        i <= members.len(),
                        out.len() == i,
                        forall|k: int|
                            0 <= k < i ==> out@[k].0@ == members@[k].0@ && out@[k].1@
                                == members@[k].1@,
                    decreases members.len() - i,
                {
                    out.push((members[i].0.clone(), members[i].1.clone()));
                    i += 1;
                }
                proof {
                    lemma_object_view(*members);
                    lemma_object_view(out);
                    assert(member_views(out@) =~= member_views(members@));
                }
                Json::Object(out)
            },
        }
    }
}

} // verus!
