//! The catalog of version sources.
//!
//! A catalog names version definitions and lists game versions. Each game
//! version has four slots, and each slot holds a definition of its own or the
//! name of a shared one. A catalog is decoded from a JSON document in one
//! piece: a document with anything amiss gives no catalog at all.

use crate::entries::{
    distinct_names, find_index, find_value, has_key, keys, lemma_position, lemma_value_of,
    lemma_with_entry, names, position, value_of, with_entry,
};
use crate::json::Json;
use crate::pattern::{compile, compiled};
use regex::Regex;
use vstd::prelude::*;

verus! {

/// A document does not hold what is decoded from it: something required is
/// missing or of another shape, or a filter is no regular expression.
#[derive(Debug, Clone, Copy, PartialEq, Eq)]
pub struct DecodeError;

/// A catalog does not hold what is asked of it.
#[derive(Debug, Clone, Copy, PartialEq, Eq)]
pub enum LookupError {
    /// No definition stands under the name that a reference gives.
    UnknownReference,
    /// No game version is marked stable.
    NoStableVersion,
}

/// Values that are decoded from JSON documents.
pub trait FromJson: Sized + View {
    /// What a document holds, if it holds a value of this type.
    spec fn decoded(json: Json) -> Option<Self::V>;

    /// Decodes a document.
    fn from_json(json: &Json) -> (r: Result<Self, DecodeError>)
        ensures
            match r {
                Ok(value) => Self::decoded(*json) == Some(value@),
                Err(_) => Self::decoded(*json) is None,
            },
    ;
}

/// What the member of `json` under `key` holds, if there is such a member and
/// it holds a `T`.
pub open spec fn decoded_member<T: FromJson>(json: Json, key: Seq<char>) -> Option<T::V> {
    match json.member(key) {
        Some(value) => T::decoded(value),
        None => None,
    }
}

/// Decodes the member of `json` that stands under `key`.
pub fn convert_get<T: FromJson>(json: &Json, key: &str) -> (r: Result<T, DecodeError>)
    ensures
        match r {
            Ok(value) => decoded_member::<T>(*json, key@) == Some(value@),
            Err(_) => decoded_member::<T>(*json, key@) is None,
        },
{
    match json.get(key) {
        Some(value) => T::from_json(value),
        None => Err(DecodeError),
    }
}

/// The text of the member of `json` under `key`, if there is such a member
/// and it is a string.
pub open spec fn text_member(json: Json, key: Seq<char>) -> Option<Seq<char>> {
    match json.member(key) {
        Some(Json::Text(text)) => Some(text@),
        _ => None,
    }
}

/// The string that stands under `key` in `json`.
fn get_text<'a>(json: &'a Json, key: &str) -> (text: Option<&'a String>)
    ensures
        match text {
            Some(t) => text_member(*json, key@) == Some(t@),
            None => text_member(*json, key@) is None,
        },
{
    match json.get(key) {
        Some(Json::Text(text)) => Some(text),
        _ => None,
    }
}

/// A source of versions: where the list of candidates is found, and which
/// of them count.
#[derive(Debug)]
pub struct VersionDefinition {
    /// The filter regex for versions.
    pub filter: Regex,
    /// The maven-metadata.xml url.
    pub pom: String,
}

/// The mathematical value of a [`VersionDefinition`].
pub struct DefinitionView {
    pub filter: Regex,
    pub pom: Seq<char>,
}

impl View for VersionDefinition {
    type V = DefinitionView;

    open spec fn view(&self) -> DefinitionView {
        DefinitionView { filter: self.filter, pom: self.pom@ }
    }
}

impl FromJson for VersionDefinition {
    /// A definition is an object with two strings: `filter`, which must
    /// compile as a regular expression, and `pom`.
    open spec fn decoded(json: Json) -> Option<DefinitionView> {
        match (text_member(json, "filter"@), text_member(json, "pom"@)) {
            (Some(pattern), Some(pom)) => match compiled(pattern) {
                Some(filter) => Some(DefinitionView { filter, pom }),
                None => None,
            },
            _ => None,
        }
    }

    fn from_json(json: &Json) -> (r: Result<VersionDefinition, DecodeError>) {
        let pattern = match get_text(json, "filter") {
            Some(pattern) => pattern,
            None => {
                return Err(DecodeError);
            },
        };
        let pom = match get_text(json, "pom") {
            Some(pom) => pom,
            None => {
                return Err(DecodeError);
            },
        };
        match compile(pattern.as_str()) {
            Some(filter) => Ok(VersionDefinition { filter, pom: pom.clone() }),
            None => Err(DecodeError),
        }
    }
}

/// What a slot holds: a definition of its own, or the name of a shared one.
#[derive(Debug)]
pub enum VersionReference {
    Definition(VersionDefinition),
    Reference(String),
}

/// The mathematical value of a [`VersionReference`].
pub enum ReferenceView {
    Definition(DefinitionView),
    Reference(Seq<char>),
}

impl View for VersionReference {
    type V = ReferenceView;

    open spec fn view(&self) -> ReferenceView {
        match self {
            VersionReference::Definition(definition) => ReferenceView::Definition(definition@),
            VersionReference::Reference(name) => ReferenceView::Reference(name@),
        }
    }
}

impl FromJson for VersionReference {
    /// An object is a definition. A string that starts with `@` is a
    /// reference to the name that follows the `@`. Nothing else is a
    /// reference.
    open spec fn decoded(json: Json) -> Option<ReferenceView> {
        match json {
            Json::Object(_) => match VersionDefinition::decoded(json) {
                Some(definition) => Some(ReferenceView::Definition(definition)),
                None => None,
            },
            Json::Text(text) => if text@.len() > 0 && text@[0] == '@' {
                Some(ReferenceView::Reference(text@.skip(1)))
            } else {
                None
            },
            _ => None,
        }
    }

    fn from_json(json: &Json) -> (r: Result<VersionReference, DecodeError>) {
        match json {
            Json::Object(_) => match VersionDefinition::from_json(json) {
                Ok(definition) => Ok(VersionReference::Definition(definition)),
                Err(e) => Err(e),
            },
            Json::Text(text) => {
                let text = text.as_str();
                let len = text.unicode_len();
                if len > 0 && text.get_char(0) == '@' {
                    let name = text.substring_char(1, len).to_owned();
                    assert(name@ =~= text@.skip(1));
                    Ok(VersionReference::Reference(name))
                } else {
                    Err(DecodeError)
                }
            },
            _ => Err(DecodeError),
        }
    }
}

/// A game version: whether it is the stable one, and its four slots.
#[derive(Debug)]
pub struct GameVersionData {
    pub stable: bool,
    pub api: VersionReference,
    pub plugin: VersionReference,
    pub loom: VersionReference,
    pub injectables: VersionReference,
}

/// The mathematical value of a [`GameVersionData`].
pub struct GameVersionView {
    pub stable: bool,
    pub api: ReferenceView,
    pub plugin: ReferenceView,
    pub loom: ReferenceView,
    pub injectables: ReferenceView,
}

impl View for GameVersionData {
    type V = GameVersionView;

    open spec fn view(&self) -> GameVersionView {
        GameVersionView {
            stable: self.stable,
            api: self.api@,
            plugin: self.plugin@,
            loom: self.loom@,
            injectables: self.injectables@,
        }
    }
}

/// The mark of a game version: the truth value that stands under `stable`,
/// and `false` where nothing stands there. Anything else under `stable` is no
/// mark.
pub open spec fn stable_mark(json: Json) -> Option<bool> {
    match json.member("stable"@) {
        Some(Json::Bool(flag)) => Some(flag),
        Some(_) => None,
        None => Some(false),
    }
}

impl FromJson for GameVersionData {
    /// A game version is an object with the four slots `api`, `plugin`,
    /// `loom` and `injectables`, each a reference, and the mark `stable`,
    /// which may be missing and must be a truth value where it is there.
    open spec fn decoded(json: Json) -> Option<GameVersionView> {
        match (
            stable_mark(json),
            decoded_member::<VersionReference>(json, "api"@),
            decoded_member::<VersionReference>(json, "plugin"@),
            decoded_member::<VersionReference>(json, "loom"@),
            decoded_member::<VersionReference>(json, "injectables"@),
        ) {
            (Some(stable), Some(api), Some(plugin), Some(loom), Some(injectables)) => Some(
                GameVersionView { stable, api, plugin, loom, injectables },
            ),
            _ => None,
        }
    }

    fn from_json(json: &Json) -> (r: Result<GameVersionData, DecodeError>) {
        let stable = match json.get("stable") {
            Some(Json::Bool(flag)) => *flag,
            Some(_) => {
                return Err(DecodeError);
            },
            None => false,
        };
        let api = match convert_get::<VersionReference>(json, "api") {
            Ok(api) => api,
            Err(e) => {
                return Err(e);
            },
        };
        let plugin = match convert_get::<VersionReference>(json, "plugin") {
            Ok(plugin) => plugin,
            Err(e) => {
                return Err(e);
            },
        };
        let loom = match convert_get::<VersionReference>(json, "loom") {
            Ok(loom) => loom,
            Err(e) => {
                return Err(e);
            },
        };
        let injectables = match convert_get::<VersionReference>(json, "injectables") {
            Ok(injectables) => injectables,
            Err(e) => {
                return Err(e);
            },
        };
        Ok(GameVersionData { stable, api, plugin, loom, injectables })
    }
}

/// The values of named entries, each with its name.
pub open spec fn named_views<V: View>(entries: Seq<(String, V)>) -> Seq<(Seq<char>, V::V)> {
    Seq::new(entries.len(), |i: int| (entries[i].0@, entries[i].1@))
}

/// What the members of an object hold, each under its name, if every one of
/// them holds a `V`. A member takes the place of an earlier member of the
/// same name, so that every name stands once.
pub open spec fn decoded_entries<V: FromJson>(members: Seq<(String, Json)>) -> Option<
    Seq<(Seq<char>, V::V)>,
>
    decreases members.len(),
{
    if members.len() == 0 {
        Some(Seq::empty())
    } else {
        match (decoded_entries::<V>(members.drop_last()), V::decoded(members.last().1)) {
            (Some(entries), Some(value)) => Some(with_entry(entries, members.last().0@, value)),
            _ => None,
        }
    }
}

/// The members of an object decode as a whole where each of them decodes,
/// and only there.
pub proof fn law_decoded_entries_all_or_none<V: FromJson>(members: Seq<(String, Json)>)
    ensures
        decoded_entries::<V>(members) is Some <==> forall|i: int|
            0 <= i < members.len() ==> V::decoded((#[trigger] members[i]).1) is Some,
    decreases members.len(),
{
    if members.len() > 0 {
        let front = members.drop_last();
        law_decoded_entries_all_or_none::<V>(front);
        if decoded_entries::<V>(members) is Some {
            assert forall|i: int| 0 <= i < members.len() implies V::decoded(
                (#[trigger] members[i]).1,
            ) is Some by {
                if i < front.len() {
                    assert(front[i] == members[i]);
                }
            }
        } else if decoded_entries::<V>(front) is None {
            let i = choose|i: int|
                0 <= i < front.len() && !(V::decoded((#[trigger] front[i]).1) is Some);
            assert(front[i] == members[i]);
        }
    }
}

/// In what the members of an object decode to, no name stands twice.
pub proof fn law_decoded_entries_distinct<V: FromJson>(members: Seq<(String, Json)>)
    requires
        decoded_entries::<V>(members) is Some,
    ensures
        distinct_names(decoded_entries::<V>(members).unwrap()),
    decreases members.len(),
{
    if members.len() > 0 {
        law_decoded_entries_distinct::<V>(members.drop_last());
        lemma_with_entry(
            decoded_entries::<V>(members.drop_last()).unwrap(),
            members.last().0@,
            V::decoded(members.last().1).unwrap(),
        );
    }
}

/// Where no name stands twice among the members of an object, they decode
/// one by one: each to what it holds, under its name and in its place.
pub proof fn law_decoded_entries_in_order<V: FromJson>(members: Seq<(String, Json)>)
    requires
        keys(members).no_duplicates(),
        decoded_entries::<V>(members) is Some,
    ensures
        decoded_entries::<V>(members).unwrap() == Seq::new(
            members.len(),
            |i: int| (members[i].0@, V::decoded(members[i].1).unwrap()),
        ),
    decreases members.len(),
{
    let one_by_one = Seq::new(
        members.len(),
        |i: int| (members[i].0@, V::decoded(members[i].1).unwrap()),
    );
    if members.len() == 0 {
        assert(decoded_entries::<V>(members).unwrap() =~= one_by_one);
    } else {
        let front = members.drop_last();
        let last = members.len() - 1;
        assert forall|i: int, j: int|
            0 <= i < front.len() && 0 <= j < front.len() && i != j implies keys(front)[i] != keys(
            front,
        )[j] by {
            assert(keys(members)[i] == keys(front)[i]);
            assert(keys(members)[j] == keys(front)[j]);
        }
        law_decoded_entries_in_order::<V>(front);
        let entries = decoded_entries::<V>(front).unwrap();
        let name = members.last().0@;
        lemma_position(names(entries), name);
        if let Some(k) = position(names(entries), name) {
            assert(keys(members)[k] == name);
            assert(keys(members)[last] == name);
        }
        assert(decoded_entries::<V>(members).unwrap() =~= one_by_one);
    }
}

/// Where a part of the members does not decode, the members do not.
proof fn lemma_decoded_entries_prefix<V: FromJson>(members: Seq<(String, Json)>, n: int)
    requires
        0 <= n <= members.len(),
        decoded_entries::<V>(members.take(n)) is None,
    ensures
        decoded_entries::<V>(members) is None,
    decreases members.len() - n,
{
    if n == members.len() {
        assert(members.take(n) =~= members);
    } else {
        assert(members.take(n + 1).drop_last() =~= members.take(n));
        lemma_decoded_entries_prefix::<V>(members, n + 1);
    }
}

/// Decodes the members of an object, all or none. A member takes the place
/// of an earlier member of the same name.
pub fn map_from_json<V: FromJson>(members: &Vec<(String, Json)>) -> (r: Result<
    Vec<(String, V)>,
    DecodeError,
>)
    ensures
        match r {
            Ok(entries) => decoded_entries::<V>(members@) == Some(named_views(entries@)),
            Err(_) => decoded_entries::<V>(members@) is None,
        },
{
    let mut entries: Vec<(String, V)> = Vec::new();
    let mut i: usize = 0;
    assert(members@.take(0) =~= Seq::<(String, Json)>::empty());
    assert(named_views(entries@) =~= Seq::<(Seq<char>, V::V)>::empty());
    while i < members.len()
        invariant
            i <= members.len(),
            decoded_entries::<V>(members@.take(i as int)) == Some(named_views(entries@)),
        decreases members.len() - i,
    {
        let ghost held = named_views(entries@);
        proof {
            assert(members@.take(i + 1).drop_last() =~= members@.take(i as int));
            assert(members@.take(i + 1).last() == members@[i as int]);
            assert(names(held) =~= keys(entries@));
        }
        match V::from_json(&members[i].1) {
            Ok(value) => {
                let name = members[i].0.clone();
                match find_index(&entries, name.as_str()) {
                    Some(k) => {
                        entries.set(k, (name, value));
                        assert(named_views(entries@) =~= held.update(k as int, (name@, value@)));
                    },
                    None => {
                        entries.push((name, value));
                        assert(named_views(entries@) =~= held.push((name@, value@)));
                    },
                }
            },
            Err(e) => {
                proof {
                    lemma_decoded_entries_prefix::<V>(members@, i + 1);
                }
                return Err(e);
            },
        }
        i += 1;
    }
    assert(members@.take(i as int) =~= members@);
    Ok(entries)
}

/// The members of the object that stands under `key` in `json`, if there is
/// such a member and it is an object.
pub open spec fn object_member(json: Json, key: Seq<char>) -> Option<Seq<(String, Json)>> {
    match json.member(key) {
        Some(Json::Object(members)) => Some(members@),
        _ => None,
    }
}

/// The object that stands under `key` in `json`.
fn get_object<'a>(json: &'a Json, key: &str) -> (members: Option<&'a Vec<(String, Json)>>)
    ensures
        match members {
            Some(m) => object_member(*json, key@) == Some(m@),
            None => object_member(*json, key@) is None,
        },
{
    match json.get(key) {
        Some(Json::Object(members)) => Some(members),
        _ => None,
    }
}

/// The catalog: the shared definitions by name, and the game versions by
/// their keys. Both lists keep the order of the document they were decoded
/// from, and a name is looked up from the front.
///
/// The order of `versions` decides which game version is the stable one
/// where several are marked. A document that [`Json::parse`] has read holds
/// the members of every object sorted by name, character by character (so
/// `1.16.5` stands before `1.18.2`, and `1.9` behind both). In a catalog from
/// such a document the stable game version is therefore the marked one with
/// the smallest key, wherever it stood in the text.
#[derive(Debug)]
pub struct ArchitecturyJson {
    pub definitions: Vec<(String, VersionDefinition)>,
    pub versions: Vec<(String, GameVersionData)>,
}

/// The mathematical value of an [`ArchitecturyJson`].
pub struct CatalogView {
    pub definitions: Seq<(Seq<char>, DefinitionView)>,
    pub versions: Seq<(Seq<char>, GameVersionView)>,
}

impl CatalogView {
    /// Whether no name stands twice among the definitions, and no key twice
    /// among the game versions.
    pub open spec fn well_formed(self) -> bool {
        distinct_names(self.definitions) && distinct_names(self.versions)
    }
}

impl View for ArchitecturyJson {
    type V = CatalogView;

    open spec fn view(&self) -> CatalogView {
        CatalogView {
            definitions: named_views(self.definitions@),
            versions: named_views(self.versions@),
        }
    }
}

impl FromJson for ArchitecturyJson {
    /// A catalog is an object with two objects in it: `definitions`, whose
    /// members are definitions, and `versions`, whose members are game
    /// versions.
    open spec fn decoded(json: Json) -> Option<CatalogView> {
        match (object_member(json, "definitions"@), object_member(json, "versions"@)) {
            (Some(definitions), Some(versions)) => match (
                decoded_entries::<VersionDefinition>(definitions),
                decoded_entries::<GameVersionData>(versions),
            ) {
                (Some(definitions), Some(versions)) => Some(CatalogView { definitions, versions }),
                _ => None,
            },
            _ => None,
        }
    }

    fn from_json(json: &Json) -> (r: Result<ArchitecturyJson, DecodeError>)
        ensures
            r matches Ok(catalog) ==> catalog.well_formed(),
    {
        proof {
            if Self::decoded(*json) is Some {
                law_decoded_catalog_well_formed(*json);
            }
        }
        let definitions = match get_object(json, "definitions") {
            Some(members) => members,
            None => {
                return Err(DecodeError);
            },
        };
        let definitions = match map_from_json::<VersionDefinition>(definitions) {
            Ok(definitions) => definitions,
            Err(e) => {
                return Err(e);
            },
        };
        let versions = match get_object(json, "versions") {
            Some(members) => members,
            None => {
                return Err(DecodeError);
            },
        };
        let versions = match map_from_json::<GameVersionData>(versions) {
            Ok(versions) => versions,
            Err(e) => {
                return Err(e);
            },
        };
        Ok(ArchitecturyJson { definitions, versions })
    }
}

/// A catalog that a document decodes to is well formed.
pub proof fn law_decoded_catalog_well_formed(json: Json)
    requires
        ArchitecturyJson::decoded(json) is Some,
    ensures
        ArchitecturyJson::decoded(json).unwrap().well_formed(),
{
    law_decoded_entries_distinct::<VersionDefinition>(object_member(json, "definitions"@).unwrap());
    law_decoded_entries_distinct::<GameVersionData>(object_member(json, "versions"@).unwrap());
}

/// Whether `i` is the position of the first game version that is marked
/// stable.
pub open spec fn first_stable(versions: Seq<(String, GameVersionData)>, i: int) -> bool {
    &&& 0 <= i < versions.len()
    &&& versions[i].1.stable
    &&& forall|j: int| 0 <= j < i ==> !(#[trigger] versions[j]).1.stable
}

/// Whether no game version is marked stable.
pub open spec fn none_stable(versions: Seq<(String, GameVersionData)>) -> bool {
    forall|i: int| 0 <= i < versions.len() ==> !(#[trigger] versions[i]).1.stable
}

/// The game version that stands under the key, where a key is given and a
/// game version stands under it.
pub open spec fn requested(versions: Seq<(String, GameVersionData)>, key: Option<&str>) -> Option<
    GameVersionData,
> {
    match key {
        Some(k) => value_of(versions, k@),
        None => None,
    }
}

/// The definition that a reference stands for in a list of shared
/// definitions: its own, or the one that stands under its name.
pub open spec fn resolved(
    definitions: Seq<(String, VersionDefinition)>,
    reference: VersionReference,
) -> Option<VersionDefinition> {
    match reference {
        VersionReference::Definition(definition) => Some(definition),
        VersionReference::Reference(name) => value_of(definitions, name@),
    }
}

impl ArchitecturyJson {
    /// Whether the catalog is well formed: no name stands twice among the
    /// definitions, and no key twice among the game versions. Decoding gives
    /// such catalogs only. The lookups work on any catalog: where a name
    /// stands twice its first entry counts.
    pub open spec fn well_formed(&self) -> bool {
        self@.well_formed()
    }

    /// The game version that is marked stable: the first one, in the order
    /// of `versions`, where several are. In a catalog that was read from a
    /// text this is the marked one with the smallest key, because the
    /// members of a document that was read from a text are sorted by name.
    pub fn stable(&self) -> (r: Result<&GameVersionData, LookupError>)
        ensures
            match r {
                Ok(data) => exists|i: int|
                    #[trigger] first_stable(self.versions@, i) && self.versions@[i].1 == *data,
                Err(e) => e == LookupError::NoStableVersion && none_stable(self.versions@),
            },
    {
        let mut i: usize = 0;
        while i < self.versions.len()
            invariant
                i <= self.versions.len(),
                forall|j: int| 0 <= j < i ==> !(#[trigger] self.versions@[j]).1.stable,
            decreases self.versions.len() - i,
        {
            if self.versions[i].1.stable {
                assert(first_stable(self.versions@, i as int));
                return Ok(&self.versions[i].1);
            }
            i += 1;
        }
        Err(LookupError::NoStableVersion)
    }

    /// The game version that stands under `key`.
    pub fn version(&self, key: &str) -> (r: Option<&GameVersionData>)
        ensures
            match r {
                Some(data) => value_of(self.versions@, key@) == Some(*data),
                None => value_of(self.versions@, key@) is None,
            },
    {
        find_value(&self.versions, key)
    }

    /// The game version to work with: the one under `key` where a key is
    /// given and the catalog knows it, else the stable one.
    pub fn version_or_stable(&self, key: Option<&str>) -> (r: Result<
        &GameVersionData,
        LookupError,
    >)
        ensures
            match (r, requested(self.versions@, key)) {
                (Ok(data), Some(asked)) => asked == *data,
                (Ok(data), None) => exists|i: int|
                    #[trigger] first_stable(self.versions@, i) && self.versions@[i].1 == *data,
                (Err(_), Some(_)) => false,
                (Err(e), None) => e == LookupError::NoStableVersion && none_stable(self.versions@),
            },
    {
        if let Some(k) = key {
            if let Some(data) = self.version(k) {
                return Ok(data);
            }
        }
        self.stable()
    }

    /// The definition that a reference stands for: its own where it holds
    /// one, whatever the catalog holds, else the shared one under its name,
    /// and nothing where the catalog has no such name.
    pub fn resolve<'a>(&'a self, version_reference: &'a VersionReference) -> (r: Option<
        &'a VersionDefinition,
    >)
        ensures
            match r {
                Some(definition) => resolved(self.definitions@, *version_reference) == Some(
                    *definition,
                ),
                None => resolved(self.definitions@, *version_reference) is None,
            },
            version_reference is Definition ==> r is Some,
            version_reference matches VersionReference::Reference(name) ==> (r is Some <==> has_key(
                self.definitions@,
                name@,
            )),
    {
        match version_reference {
            VersionReference::Definition(definition) => Some(definition),
            VersionReference::Reference(name) => {
                proof {
                    lemma_value_of(self.definitions@, name@);
                }
                find_value(&self.definitions, name.as_str())
            },
        }
    }

    /// The definition that a reference stands for, or the error that the
    /// catalog has no definition of that name.
    pub fn definition<'a>(&'a self, version_reference: &'a VersionReference) -> (r: Result<
        &'a VersionDefinition,
        LookupError,
    >)
        ensures
            match r {
                Ok(definition) => resolved(self.definitions@, *version_reference) == Some(
                    *definition,
                ),
                Err(e) => e == LookupError::UnknownReference && resolved(
                    self.definitions@,
                    *version_reference,
                ) is None,
            },
    {
        match self.resolve(version_reference) {
            Some(definition) => Ok(definition),
            None => Err(LookupError::UnknownReference),
        }
    }
}

} // verus!
