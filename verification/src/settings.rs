//! The mapping that tells where the documents are and which settings field
//! takes the identifiers of which optimizer label.

use vstd::prelude::*;
use crate::error::ParseError;
use crate::json::{find_member, index_of, lemma_object_view, member_views, Json, JsonValue};
use crate::text::{parse_json, parsed_json};

verus! {

/// The mathematical value of a mapping.
pub struct SettingsView {
    /// Where the profile document is.
    pub file_path: Seq<char>,
    /// Where the settings document is.
    pub settings_path: Seq<char>,
    /// Pairs of an optimizer label and the settings field that takes its
    /// identifiers.
    pub settings_mapper: Seq<(Seq<char>, Seq<char>)>,
}

/// The current mapping.
#[derive(Debug)]
pub struct Settings {
    file_path: String,
    settings_path: String,
    settings_mapper: Vec<(String, String)>,
}

/// The pairs of a mapper as sequences of characters.
pub open spec fn pair_views(pairs: Seq<(String, String)>) -> Seq<(Seq<char>, Seq<char>)> {
    Seq::new(pairs.len(), |i: int| (pairs[i].0@, pairs[i].1@))
}

/// Whether no two pairs of a mapper have the same optimizer label.
pub open spec fn keys_unique(pairs: Seq<(Seq<char>, Seq<char>)>) -> bool {
    forall|i: int, j: int|
        0 <= i < j < pairs.len() ==> (#[trigger] pairs[i]).0 != (#[trigger] pairs[j]).0
}

/// Whether every member of an object holds a text.
pub open spec fn all_text(members: Seq<(Seq<char>, JsonValue)>) -> bool {
    forall|i: int| 0 <= i < members.len() ==> (#[trigger] members[i]).1 is Str
}

/// The pairs that an object of texts stands for.
pub open spec fn mapper_of(members: Seq<(Seq<char>, JsonValue)>) -> Seq<(Seq<char>, Seq<char>)> {
    Seq::new(members.len(), |i: int| (members[i].0, members[i].1->Str_0))
}

/// The text that an object holds under `name`: that of the first member
/// called so, where it is a text.
pub open spec fn text_member(members: Seq<(Seq<char>, JsonValue)>, name: Seq<char>) -> Option<
    Seq<char>,
> {
    let i = index_of(members, name);
    if i < members.len() && members[i].1 is Str {
        Some(members[i].1->Str_0)
    } else {
        None
    }
}

/// The mapper that an object holds under `settingsMapper`: an object of
/// texts in which no name occurs twice.
pub open spec fn mapper_member(members: Seq<(Seq<char>, JsonValue)>) -> Option<
    Seq<(Seq<char>, Seq<char>)>,
> {
    let i = index_of(members, "settingsMapper"@);
    if i < members.len() && members[i].1 is Object && all_text(members[i].1->Object_0)
        && keys_unique(mapper_of(members[i].1->Object_0)) {
        Some(mapper_of(members[i].1->Object_0))
    } else {
        None
    }
}

/// The mapping that a configuration document stands for: an object with the
/// texts `filePath` and `settingsPath` and the mapper `settingsMapper`.
/// Other members are passed over.
pub open spec fn settings_of(value: JsonValue) -> Option<SettingsView> {
    match value {
        JsonValue::Object(members) => {
            match (
                text_member(members, "filePath"@),
                text_member(members, "settingsPath"@),
                mapper_member(members),
            ) {
                (Some(file_path), Some(settings_path), Some(settings_mapper)) => Some(
                    SettingsView { file_path, settings_path, settings_mapper },
                ),
                _ => None,
            }
        },
        _ => None,
    }
}

/// What the text of a configuration document is read as.
pub open spec fn settings_of_text(text: Seq<char>) -> Result<SettingsView, ParseError> {
    match parsed_json(text) {
        None => Err(ParseError::Syntax),
        Some(value) => match settings_of(value) {
            Some(settings) => Ok(settings),
            None => Err(ParseError::Shape),
        },
    }
}

impl View for Settings {
    type V = SettingsView;

    closed spec fn view(&self) -> SettingsView {
        SettingsView {
            file_path: self.file_path@,
            settings_path: self.settings_path@,
            settings_mapper: pair_views(self.settings_mapper@),
        }
    }
}

/// Reads the text that an object holds under `name`.
fn read_text(members: &Vec<(String, Json)>, name: &str) -> (text: Option<String>)
    ensures
        match text {
            Some(t) => text_member(member_views(members@), name@) == Some(t@),
            None => text_member(member_views(members@), name@) is None,
        },
{
    let i = find_member(members, &name.to_owned());
    if i < members.len() {
        match &members[i].1 {
            Json::Str(t) => Some(t.clone()),
            _ => None,
        }
    } else {
        None
    }
}

/// Whether two pairs of a mapper have the same optimizer label.
fn has_duplicate_key(pairs: &Vec<(String, String)>) -> (found: bool)
    ensures
        found == !keys_unique(pair_views(pairs@)),
{
    let mut j: usize = 0;
    while j < pairs.len()
        invariant
            j <= pairs.len(),
            forall|a: int, b: int|
                0 <= a < b < j ==> (#[trigger] pair_views(pairs@)[a]).0 != (#[trigger] pair_views(
                    pairs@,
                )[b]).0,
        decreases pairs.len() - j,
    {
        let mut i: usize = 0;
        while i < j
            invariant
                i <= j < pairs.len(),
                forall|a: int|
                    0 <= a < i ==> (#[trigger] pair_views(pairs@)[a]).0 != pair_views(
                        pairs@,
                    )[j as int].0,
            decreases j - i,
        {
            if pairs[i].0 == pairs[j].0 {
                assert(pair_views(pairs@)[i as int].0 == pair_views(pairs@)[j as int].0);
                return true;
            }
            i += 1;
        }
        j += 1;
    }
    false
}

/// Reads the mapper that an object holds under `settingsMapper`.
#[verifier::loop_isolation(false)]
fn read_mapper(members: &Vec<(String, Json)>) -> (mapper: Option<Vec<(String, String)>>)
    ensures
        match mapper {
            Some(m) => mapper_member(member_views(members@)) == Some(pair_views(m@)),
            None => mapper_member(member_views(members@)) is None,
        },
{
    let i = find_member(members, &"settingsMapper".to_owned());
    if i >= members.len() {
        return None;
    }
    match &members[i].1 {
        Json::Object(inner) => {
            proof {
                lemma_object_view(*inner);
            }
            let mut out: Vec<(String, String)> = Vec::new();
            let mut k: usize = 0;
            while k < inner.len()
                invariant
                    k <= inner.len(),
                    out.len() == k,
                    forall|a: int|
                        0 <= a < k ==> (#[trigger] member_views(inner@)[a]).1 is Str
                            && pair_views(out@)[a] == mapper_of(member_views(inner@))[a],
                decreases inner.len() - k,
            {
                match &inner[k].1 {
                    Json::Str(field) => {
                        out.push((inner[k].0.clone(), field.clone()));
                    },
                    _ => {
                        assert(!(member_views(inner@)[k as int].1 is Str));
                        return None;
                    },
                }
                k += 1;
            }
            assert(pair_views(out@) =~= mapper_of(member_views(inner@)));
            if has_duplicate_key(&out) {
                None
            } else {
                Some(out)
            }
        },
        _ => None,
    }
}

impl Clone for Settings {
    fn clone(&self) -> (copy: Settings)
        ensures
            copy@ == self@,
    {
        proof {
            use_type_invariant(self);
        }
        let mut pairs: Vec<(String, String)> = Vec::new();
        let mut i: usize = 0;
        while i < self.settings_mapper.len()
            invariant
                i <= self.settings_mapper.len(),
                pairs.len() == i,
                forall|k: int|
                    0 <= k < i ==> (#[trigger] pairs@[k]).0@ == self.settings_mapper@[k].0@
                        && pairs@[k].1@ == self.settings_mapper@[k].1@,
            decreases self.settings_mapper.len() - i,
        {
            let label = self.settings_mapper[i].0.clone();
            let field = self.settings_mapper[i].1.clone();
            pairs.push((label, field));
            i += 1;
        }
        assert(pair_views(pairs@) =~= pair_views(self.settings_mapper@));
        Settings {
            file_path: self.file_path.clone(),
            settings_path: self.settings_path.clone(),
            settings_mapper: pairs,
        }
    }
}

impl Settings {
    /// No two pairs of the mapper have the same optimizer label.
    #[verifier::type_invariant]
    spec fn keys_are_unique(&self) -> bool {
        keys_unique(pair_views(self.settings_mapper@))
    }

    /// Where the profile document is.
    pub fn file_path(&self) -> (path: &str)
        ensures
            path@ == self@.file_path,
    {
        self.file_path.as_str()
    }

    /// Where the settings document is.
    pub fn settings_path(&self) -> (path: &str)
        ensures
            path@ == self@.settings_path,
    {
        self.settings_path.as_str()
    }

    /// The pairs of an optimizer label and the settings field that takes its
    /// identifiers. No two of them have the same label.
    pub fn settings_mapper(&self) -> (mapper: &Vec<(String, String)>)
        ensures
            pair_views(mapper@) == self@.settings_mapper,
            keys_unique(pair_views(mapper@)),
    {
        proof {
            use_type_invariant(self);
        }
        &self.settings_mapper
    }

    /// Reads a mapping from a configuration document.
    pub fn from_json(value: &Json) -> (settings: Result<Settings, ParseError>)
        ensures
            match settings {
                Ok(s) => settings_of(value@) == Some(s@),
                Err(e) => settings_of(value@) is None && e == ParseError::Shape,
            },
    {
        match value {
            Json::Object(members) => {
                proof {
                    lemma_object_view(*members);
                }
                let file_path = read_text(members, "filePath");
                let settings_path = read_text(members, "settingsPath");
                let settings_mapper = read_mapper(members);
                match (file_path, settings_path, settings_mapper) {
                    (Some(file_path), Some(settings_path), Some(settings_mapper)) => Ok(
                        Settings { file_path, settings_path, settings_mapper },
                    ),
                    _ => Err(ParseError::Shape),
                }
            },
            _ => Err(ParseError::Shape),
        }
    }
}

/// Reads a mapping from the text of a configuration document.
pub fn load_settings(text: &str) -> (settings: Result<Settings, ParseError>)
    ensures
        match settings {
            Ok(s) => settings_of_text(text@) == Ok::<SettingsView, ParseError>(s@),
            Err(e) => settings_of_text(text@) == Err::<SettingsView, ParseError>(e),
        },
{
    match parse_json(text) {
        Some(value) => Settings::from_json(&value),
        None => Err(ParseError::Syntax),
    }
}

} // verus!
