//! The catalog's records, the refresh policy, and the steps of one import.

use crate::db::Database;
use crate::db::insert_views;
use crate::db::InsertMod;
use crate::db::InsertModView;
use crate::db::ModRecord;
use crate::db::StoreError;
use crate::ids::parsed_uuid;
use crate::ids::try_parse_uuid;
use crate::tables::import_twice_is_import_once;
use crate::tables::lemma_known_names_add_nothing;
use crate::tables::lemma_with_new_names;
use crate::tables::Tables;
use crate::tables::with_new_names;
use crate::text::holds_text;
use crate::text::texts_of;
use crate::timestamps::CalendarDate;
use crate::timestamps::date_of_text;
use crate::timestamps::NANOS_PER_SECOND;
use crate::timestamps::parse_date;
use crate::timestamps::Timestamp;
use std::string::FromUtf8Error;
use vstd::hash_map::StringHashMap;
use vstd::prelude::*;
use vstd::string::StringExecFns;
use vstd::utf8::decode_utf8;
use vstd::utf8::valid_utf8;

verus! {

/// The error of `String::from_utf8`, carried through as it is.
#[verifier::external_type_specification]
#[verifier::external_body]
pub struct ExFromUtf8Error(FromUtf8Error);

/// `String::from_utf8` succeeds exactly on well-formed UTF-8, and then gives
/// the characters that the bytes encode.
pub assume_specification[ String::from_utf8 ](bytes: Vec<u8>) -> (text: Result<
    String,
    FromUtf8Error,
>)
    ensures
        text is Ok <==> valid_utf8(bytes@),
        text matches Ok(t) ==> t@ == decode_utf8(bytes@),
;

/// A mod as the browsing queries hand it out.
#[derive(Debug, PartialEq, Eq)]
pub struct Mod {
    pub name: String,
    pub owner: String,
    pub description: String,
    pub icon_url: String,
    pub package_url: String,
    /// The mod's UUID, as its 128-bit value.
    pub id: u128,
    /// The names of the categories the mod belongs to.
    pub categories: Vec<String>,
}

/// What a `Mod` holds, as mathematical values.
pub struct ModView {
    pub name: Seq<char>,
    pub owner: Seq<char>,
    pub description: Seq<char>,
    pub icon_url: Seq<char>,
    pub package_url: Seq<char>,
    pub id: u128,
    pub categories: Seq<Seq<char>>,
}

impl View for Mod {
    type V = ModView;

    open spec fn view(&self) -> ModView {
        ModView {
            name: self.name@,
            owner: self.owner@,
            description: self.description@,
            icon_url: self.icon_url@,
            package_url: self.package_url@,
            id: self.id,
            categories: texts_of(self.categories@),
        }
    }
}

/// A category: a unique name under an identifier that the store assigned.
#[derive(Debug, PartialEq, Eq, Hash)]
pub struct Category {
    pub name: String,
    pub id: i32,
}

impl Clone for Category {
    fn clone(&self) -> (copy: Category)
        ensures
            copy == *self,
    {
        Category { name: self.name.clone(), id: self.id }
    }
}

/// A user's verdict on a mod.
#[derive(Debug, Clone, Copy, PartialEq, Eq, Structural)]
pub enum Rating {
    Like,
    Dislike,
}

impl Rating {
    /// The rating's name.
    pub open spec fn name(self) -> Seq<char> {
        match self {
            Rating::Like => "Like"@,
            Rating::Dislike => "Dislike"@,
        }
    }

    /// The rating's name, as text.
    pub fn to_string(&self) -> (text: String)
        ensures
            text@ == self.name(),
    {
        match self {
            Rating::Like => String::from_str("Like"),
            Rating::Dislike => String::from_str("Dislike"),
        }
    }
}

/// How the catalog is kept fresh. The two modes that import carry the
/// expiration window in whole seconds.
#[derive(Debug, Clone, Copy, PartialEq, Eq, Structural)]
pub enum ModRefreshOptions {
    /// Syncing is switched off.
    NoRefresh,
    /// Import from the local cache when the window has passed; never fetch.
    CacheOnly(u64),
    /// Fetch and import when the window has passed.
    DownloadIfExpired(u64),
}

/// Whether an import made at `last_import` is stale at `now`: there was none,
/// or more than `window_seconds` have passed since.
pub open spec fn expired(last_import: Option<Timestamp>, now: Timestamp, window_seconds: u64) -> bool {
    match last_import {
        Some(last) => now.unix_nanos - last.unix_nanos > window_seconds * NANOS_PER_SECOND,
        None => true,
    }
}

/// Whether `options` asks for an import at `now`, the last one having been
/// made at `last_import`.
pub open spec fn refresh_due(
    options: ModRefreshOptions,
    last_import: Option<Timestamp>,
    now: Timestamp,
) -> bool {
    match options {
        ModRefreshOptions::NoRefresh => false,
        ModRefreshOptions::CacheOnly(window) => expired(last_import, now, window),
        ModRefreshOptions::DownloadIfExpired(window) => expired(last_import, now, window),
    }
}

/// Decides staleness from the last import's instant, the current instant and
/// the expiration window in seconds.
pub fn is_expired(last_import: Option<Timestamp>, now: Timestamp, expiration_seconds: u64) -> (stale:
    bool)
    ensures
        stale == expired(last_import, now, expiration_seconds),
{
    match last_import {
        Some(last) => {
            let window: i128 = (expiration_seconds as i128) * NANOS_PER_SECOND;
            match now.unix_nanos.checked_sub(last.unix_nanos) {
                Some(passed) => passed > window,
                None => now.unix_nanos > last.unix_nanos,
            }
        },
        None => true,
    }
}

/// Decides whether the configured mode asks for an import now.
pub fn are_mods_expired(
    options: &ModRefreshOptions,
    last_import: Option<Timestamp>,
    now: Timestamp,
) -> (due: bool)
    ensures
        due == refresh_due(*options, last_import, now),
{
    match options {
        ModRefreshOptions::NoRefresh => false,
        ModRefreshOptions::CacheOnly(window) => is_expired(last_import, now, *window),
        ModRefreshOptions::DownloadIfExpired(window) => is_expired(last_import, now, *window),
    }
}

/// With syncing switched off no import is ever due.
pub proof fn no_refresh_is_never_due(last_import: Option<Timestamp>, now: Timestamp)
    ensures
        !refresh_due(ModRefreshOptions::NoRefresh, last_import, now),
{
}

/// In the download mode an import is not due exactly when there was an
/// earlier one and at most the window has passed since; so not at the window
/// itself, and one nanosecond later it is.
pub proof fn download_is_due_exactly_past_the_window(
    window: u64,
    last_import: Option<Timestamp>,
    now: Timestamp,
)
    ensures
        !refresh_due(ModRefreshOptions::DownloadIfExpired(window), last_import, now) <==> (
        last_import matches Some(last) && now.unix_nanos - last.unix_nanos <= window
            * NANOS_PER_SECOND),
        last_import matches Some(last) && now.unix_nanos - last.unix_nanos == window
            * NANOS_PER_SECOND ==> !refresh_due(
            ModRefreshOptions::DownloadIfExpired(window),
            last_import,
            now,
        ),
        last_import matches Some(last) && now.unix_nanos - last.unix_nanos == window
            * NANOS_PER_SECOND + 1 ==> refresh_due(
            ModRefreshOptions::DownloadIfExpired(window),
            last_import,
            now,
        ),
        last_import is None ==> refresh_due(
            ModRefreshOptions::DownloadIfExpired(window),
            last_import,
            now,
        ),
{
}

/// Collects the body of a feed response as it arrives.
#[derive(Debug)]
pub struct ResponseHandler {
    data: Vec<u8>,
}

impl View for ResponseHandler {
    type V = Seq<u8>;

    closed spec fn view(&self) -> Seq<u8> {
        self.data@
    }
}

impl ResponseHandler {
    /// A handler that has received nothing.
    pub fn new() -> (handler: ResponseHandler)
        ensures
            handler@ == Seq::<u8>::empty(),
    {
        ResponseHandler { data: Vec::new() }
    }

    /// Takes one piece of the body and says how many bytes of it were kept:
    /// all of them.
    pub fn write(&mut self, data: &[u8]) -> (taken: usize)
        ensures
            final(self)@ == old(self)@ + data@,
            taken == data@.len(),
    {
        self.data.extend_from_slice(data);
        data.len()
    }

    /// The body as text, where the bytes received are well-formed UTF-8.
    pub fn to_string(self) -> (text: Result<String, FromUtf8Error>)
        ensures
            text is Ok <==> valid_utf8(self@),
            text matches Ok(t) ==> t@ == decode_utf8(self@),
    {
        String::from_utf8(self.data)
    }
}

/// One published version of a mod, as the feed gives it.
#[derive(Debug)]
pub struct ModVersion {
    pub name: String,
    pub full_name: String,
    pub description: String,
    pub icon: String,
    pub version_number: String,
    pub dependencies: Vec<String>,
    pub download_url: String,
    pub downloads: i64,
    pub date_created: String,
    pub website_url: String,
    pub is_active: bool,
    pub uuid4: String,
    pub file_size: i64,
}

/// One record of the feed, as it was read: nothing in it has been checked.
#[derive(Debug)]
pub struct ModRaw {
    pub name: String,
    pub full_name: String,
    pub owner: String,
    pub package_url: String,
    pub donation_link: Option<String>,
    pub date_created: String,
    pub date_updated: String,
    pub uuid4: String,
    pub rating_score: i64,
    pub is_pinned: bool,
    pub is_deprecated: bool,
    pub has_nsfw_content: bool,
    pub categories: Vec<String>,
    /// The versions, most recent first.
    pub versions: Vec<ModVersion>,
}

/// Why a feed record cannot become a row.
#[derive(Debug, Clone, Copy, PartialEq, Eq, Structural)]
pub enum NormalizeError {
    /// The record's identifier is not a UUID.
    InvalidUuid,
    /// The record's date of update is not a date.
    InvalidDate,
}

/// The identifiers of the categories that `names` resolve to in
/// `categories`, in the order of their first mention, each once. A name that
/// `categories` does not hold contributes nothing.
pub open spec fn resolved_ids(names: Seq<String>, categories: Map<Seq<char>, i32>) -> Seq<i32>
    decreases names.len(),
{
    if names.len() == 0 {
        Seq::empty()
    } else {
        let earlier = resolved_ids(names.drop_last(), categories);
        let name = names.last()@;
        if categories.contains_key(name) && !earlier.contains(categories[name]) {
            earlier.push(categories[name])
        } else {
            earlier
        }
    }
}

/// The identifiers of the categories, by name.
pub open spec fn ids_by_name(categories: Map<Seq<char>, Category>) -> Map<Seq<char>, i32> {
    Map::new(|name: Seq<char>| categories.contains_key(name), |name: Seq<char>| categories[name].id)
}

/// `resolved_ids` holds no identifier twice, and holds exactly the
/// identifiers of the names that resolve.
pub proof fn lemma_resolved_ids(names: Seq<String>, categories: Map<Seq<char>, i32>)
    ensures
        resolved_ids(names, categories).no_duplicates(),
        forall|id: i32|
            #![trigger resolved_ids(names, categories).contains(id)]
            resolved_ids(names, categories).contains(id) <==> exists|i: int|
                0 <= i < names.len() && categories.contains_key(#[trigger] names[i]@)
                    && categories[names[i]@] == id,
    decreases names.len(),
{
    if names.len() > 0 {
        let front = names.drop_last();
        lemma_resolved_ids(front, categories);
        let earlier = resolved_ids(front, categories);
        let all = resolved_ids(names, categories);
        let name = names.last()@;
        assert forall|id: i32| all.contains(id) implies exists|i: int|
            0 <= i < names.len() && categories.contains_key(#[trigger] names[i]@)
                && categories[names[i]@] == id by {
            if earlier.contains(id) {
                let i = choose|i: int|
                    0 <= i < front.len() && categories.contains_key(#[trigger] front[i]@)
                        && categories[front[i]@] == id;
                assert(names[i] == front[i]);
            } else {
                assert(all == earlier.push(categories[name]));
                let k = choose|k: int| 0 <= k < all.len() && all[k] == id;
                assert(k == earlier.len());
                assert(names[names.len() - 1]@ == name);
            }
        }
        assert forall|id: i32|
            (exists|i: int|
                0 <= i < names.len() && categories.contains_key(#[trigger] names[i]@)
                    && categories[names[i]@] == id) implies all.contains(id) by {
            let i = choose|i: int|
                0 <= i < names.len() && categories.contains_key(#[trigger] names[i]@)
                    && categories[names[i]@] == id;
            if i < front.len() {
                assert(front[i] == names[i]);
                assert(earlier.contains(id));
                let k = choose|k: int| 0 <= k < earlier.len() && earlier[k] == id;
                assert(all[k] == id);
            } else {
                if earlier.contains(id) {
                    let k = choose|k: int| 0 <= k < earlier.len() && earlier[k] == id;
                    assert(all[k] == id);
                } else {
                    assert(all[earlier.len() as int] == id);
                }
            }
        }
    }
}

impl ModRaw {
    /// The description a row gets: that of the first version, or a
    /// placeholder where the record has no version.
    pub open spec fn row_description(&self) -> Seq<char> {
        if self.versions@.len() > 0 {
            self.versions@[0].description@
        } else {
            "<No description available>"@
        }
    }

    /// The icon a row gets: that of the first version, or none.
    pub open spec fn row_icon(&self) -> Seq<char> {
        if self.versions@.len() > 0 {
            self.versions@[0].icon@
        } else {
            Seq::empty()
        }
    }

    /// The row for this record, given what its identifier and its date were
    /// read as: a record without identifier or without date is refused, in
    /// that order; any other becomes a row.
    pub open spec fn insertable(
        &self,
        categories: Map<Seq<char>, i32>,
        id: Option<u128>,
        date: Option<CalendarDate>,
    ) -> Result<InsertModView, NormalizeError> {
        match id {
            None => Err(NormalizeError::InvalidUuid),
            Some(id) => match date {
                None => Err(NormalizeError::InvalidDate),
                Some(date) => Ok(
                    InsertModView {
                        record: ModRecord {
                            id,
                            name: self.name@,
                            description: self.row_description(),
                            icon_url: self.row_icon(),
                            full_name: self.full_name@,
                            owner: self.owner@,
                            package_url: self.package_url@,
                            updated_date: date,
                            rating: self.rating_score,
                            deprecated: self.is_deprecated,
                            nsfw: self.has_nsfw_content,
                        },
                        category_ids: resolved_ids(self.categories@, categories),
                    },
                ),
            },
        }
    }

    /// The row for this record, from what its identifier and date were read
    /// as.
    pub fn insertable_from(
        &self,
        categories: &StringHashMap<Category>,
        id: Option<u128>,
        date: Option<CalendarDate>,
    ) -> (row: Result<InsertMod, NormalizeError>)
        ensures
            row matches Ok(m) ==> m.category_ids@.no_duplicates(),
            match row {
                Ok(m) => self.insertable(ids_by_name(categories@), id, date) == Ok::<
                    InsertModView,
                    NormalizeError,
                >(m@),
                Err(e) => self.insertable(ids_by_name(categories@), id, date) == Err::<
                    InsertModView,
                    NormalizeError,
                >(e),
            },
    {
        let (description, icon_url) = if self.versions.len() > 0 {
            (self.versions[0].description.clone(), self.versions[0].icon.clone())
        } else {
            (String::from_str("<No description available>"), String::new())
        };
        let mut category_ids: Vec<i32> = Vec::new();
        let mut i: usize = 0;
        while i < self.categories.len()
            invariant
                i <= self.categories@.len(),
                category_ids@ == resolved_ids(
                    self.categories@.take(i as int),
                    ids_by_name(categories@),
                ),
            decreases self.categories@.len() - i,
        {
            proof {
                assert(self.categories@.take(i + 1).drop_last() == self.categories@.take(i as int));
            }
            match categories.get(self.categories[i].as_str()) {
                Some(category) => {
                    if !holds(&category_ids, category.id) {
                        category_ids.push(category.id);
                    }
                },
                None => {},
            }
            i += 1;
        }
        proof {
            assert(self.categories@.take(i as int) == self.categories@);
            lemma_resolved_ids(self.categories@, ids_by_name(categories@));
        }
        let id = match id {
            Some(id) => id,
            None => {
                return Err(NormalizeError::InvalidUuid);
            },
        };
        let date = match date {
            Some(date) => date,
            None => {
                return Err(NormalizeError::InvalidDate);
            },
        };
        Ok(
            InsertMod {
                uuid4: id,
                name: self.name.clone(),
                description,
                icon_url,
                full_name: self.full_name.clone(),
                owner: self.owner.clone(),
                package_url: self.package_url.clone(),
                updated_date: date,
                rating: self.rating_score,
                is_deprecated: self.is_deprecated,
                has_nsfw_content: self.has_nsfw_content,
                category_ids,
            },
        )
    }

    /// The row for this record: its identifier read as a UUID, its date of
    /// update as ISO 8601, its description and icon taken from the first
    /// version, its categories resolved through `categories`.
    pub fn to_insertable(&self, categories: &StringHashMap<Category>) -> (row: Result<
        InsertMod,
        NormalizeError,
    >)
        ensures
            row matches Ok(m) ==> m.category_ids@.no_duplicates(),
            match row {
                Ok(m) => self.insertable(
                    ids_by_name(categories@),
                    parsed_uuid(self.uuid4@),
                    date_of_text(self.date_updated@),
                ) == Ok::<InsertModView, NormalizeError>(m@),
                Err(e) => self.insertable(
                    ids_by_name(categories@),
                    parsed_uuid(self.uuid4@),
                    date_of_text(self.date_updated@),
                ) == Err::<InsertModView, NormalizeError>(e),
            },
    {
        let id = try_parse_uuid(self.uuid4.as_str());
        let date = parse_date(self.date_updated.as_str());
        self.insertable_from(categories, id, date)
    }
}

/// Whether `items` holds `item`.
fn holds(items: &Vec<i32>, item: i32) -> (found: bool)
    ensures
        found == items@.contains(item),
{
    let mut i: usize = 0;
    while i < items.len()
        invariant
            i <= items@.len(),
            forall|k: int| 0 <= k < i ==> items@[k] != item,
        decreases items@.len() - i,
    {
        if items[i] == item {
            return true;
        }
        i += 1;
    }
    false
}

/// The category names that the records of `mods` mention, in the order of
/// their first mention, each once.
pub open spec fn catalog_category_names(mods: Seq<ModRaw>) -> Seq<Seq<char>>
    decreases mods.len(),
{
    if mods.len() == 0 {
        Seq::empty()
    } else {
        with_new_names(catalog_category_names(mods.drop_last()), texts_of(mods.last().categories@))
    }
}

/// The catalog's category names hold no name twice, and hold exactly the
/// names that some record mentions.
pub proof fn lemma_catalog_category_names(mods: Seq<ModRaw>)
    ensures
        catalog_category_names(mods).no_duplicates(),
        forall|name: Seq<char>|
            #![trigger catalog_category_names(mods).contains(name)]
            catalog_category_names(mods).contains(name) <==> exists|i: int|
                0 <= i < mods.len() && texts_of(#[trigger] mods[i].categories@).contains(name),
    decreases mods.len(),
{
    if mods.len() > 0 {
        let front = mods.drop_last();
        lemma_catalog_category_names(front);
        lemma_with_new_names(catalog_category_names(front), texts_of(mods.last().categories@));
        let all = catalog_category_names(mods);
        assert forall|name: Seq<char>| all.contains(name) implies exists|i: int|
            0 <= i < mods.len() && texts_of(#[trigger] mods[i].categories@).contains(name) by {
            if catalog_category_names(front).contains(name) {
                let i = choose|i: int|
                    0 <= i < front.len() && texts_of(#[trigger] front[i].categories@).contains(
                        name,
                    );
                assert(mods[i] == front[i]);
            } else {
                assert(texts_of(mods[mods.len() - 1].categories@).contains(name));
            }
        }
        assert forall|name: Seq<char>|
            (exists|i: int|
                0 <= i < mods.len() && texts_of(#[trigger] mods[i].categories@).contains(
                    name,
                )) implies all.contains(name) by {
            let i = choose|i: int|
                0 <= i < mods.len() && texts_of(#[trigger] mods[i].categories@).contains(name);
            if i < front.len() {
                assert(front[i] == mods[i]);
                assert(texts_of(front[i].categories@).contains(name));
                assert(catalog_category_names(front).contains(name));
            } else {
                assert(mods[i] == mods.last());
                assert(texts_of(mods.last().categories@).contains(name));
            }
            assert(with_new_names(
                catalog_category_names(front),
                texts_of(mods.last().categories@),
            ).contains(name));
        }
    }
}

/// Collects the category names that the records mention: each name once, in
/// the order of first mention.
pub fn category_names(mods: &Vec<ModRaw>) -> (names: Vec<String>)
    ensures
        texts_of(names@) == catalog_category_names(mods@),
        texts_of(names@).no_duplicates(),
{
    let mut names: Vec<String> = Vec::new();
    proof {
        assert(texts_of(names@) =~= Seq::<Seq<char>>::empty());
    }
    let mut i: usize = 0;
    while i < mods.len()
        invariant
            i <= mods@.len(),
            texts_of(names@) == catalog_category_names(mods@.take(i as int)),
        decreases mods@.len() - i,
    {
        let record = &mods[i];
        let ghost before = texts_of(names@);
        let mut j: usize = 0;
        while j < record.categories.len()
            invariant
                j <= record.categories@.len(),
                texts_of(names@) == with_new_names(
                    before,
                    texts_of(record.categories@).take(j as int),
                ),
            decreases record.categories@.len() - j,
        {
            proof {
                assert(texts_of(record.categories@).take(j + 1).drop_last() == texts_of(
                    record.categories@,
                ).take(j as int));
                assert(texts_of(record.categories@).take(j + 1).last()
                    == record.categories@[j as int]@);
            }
            if !holds_text(&names, record.categories[j].as_str()) {
                let ghost old_names = names@;
                names.push(record.categories[j].clone());
                proof {
                    assert(texts_of(names@) =~= texts_of(old_names).push(record.categories@[j as int]@));
                }
            }
            j += 1;
        }
        proof {
            assert(texts_of(record.categories@).take(j as int) == texts_of(record.categories@));
            assert(mods@.take(i + 1).drop_last() == mods@.take(i as int));
        }
        i += 1;
    }
    proof {
        assert(mods@.take(i as int) == mods@);
        lemma_catalog_category_names(mods@);
    }
    names
}

/// The categories by name; of two with one name the later stands.
pub open spec fn index_by_name(categories: Seq<Category>) -> Map<Seq<char>, Category>
    decreases categories.len(),
{
    if categories.len() == 0 {
        Map::empty()
    } else {
        index_by_name(categories.drop_last()).insert(categories.last().name@, categories.last())
    }
}

/// Builds the lookup from category name to category.
pub fn category_index(categories: &Vec<Category>) -> (index: StringHashMap<Category>)
    ensures
        index@ == index_by_name(categories@),
{
    let mut index: StringHashMap<Category> = StringHashMap::new();
    let mut i: usize = 0;
    while i < categories.len()
        invariant
            i <= categories@.len(),
            index@ == index_by_name(categories@.take(i as int)),
        decreases categories@.len() - i,
    {
        proof {
            assert(categories@.take(i + 1).drop_last() == categories@.take(i as int));
        }
        index.insert(categories[i].name.clone(), categories[i].clone());
        i += 1;
    }
    proof {
        assert(categories@.take(i as int) == categories@);
    }
    index
}

/// The rows of the records of `mods` that can become rows, in order: a
/// record whose identifier or date cannot be read is left out.
pub open spec fn normalized(mods: Seq<ModRaw>, categories: Map<Seq<char>, i32>) -> Seq<
    InsertModView,
>
    decreases mods.len(),
{
    if mods.len() == 0 {
        Seq::empty()
    } else {
        let earlier = normalized(mods.drop_last(), categories);
        let record = mods.last();
        match record.insertable(
            categories,
            parsed_uuid(record.uuid4@),
            date_of_text(record.date_updated@),
        ) {
            Ok(row) => earlier.push(row),
            Err(_) => earlier,
        }
    }
}

/// Turns the feed's records into rows; one bad record is left out and the
/// rest go on.
pub fn insertable_mods(mods: &Vec<ModRaw>, categories: &StringHashMap<Category>) -> (rows: Vec<
    InsertMod,
>)
    ensures
        insert_views(rows@) == normalized(mods@, ids_by_name(categories@)),
{
    let mut rows: Vec<InsertMod> = Vec::new();
    proof {
        assert(insert_views(rows@) =~= Seq::<InsertModView>::empty());
    }
    let mut i: usize = 0;
    while i < mods.len()
        invariant
            i <= mods@.len(),
            insert_views(rows@) == normalized(mods@.take(i as int), ids_by_name(categories@)),
        decreases mods@.len() - i,
    {
        proof {
            assert(mods@.take(i + 1).drop_last() == mods@.take(i as int));
        }
        match mods[i].to_insertable(categories) {
            Ok(row) => {
                let ghost before = rows@;
                let ghost view = row@;
                rows.push(row);
                proof {
                    assert(insert_views(rows@) =~= insert_views(before).push(view));
                }
            },
            Err(_) => {},
        }
        i += 1;
    }
    proof {
        assert(mods@.take(i as int) == mods@);
    }
    rows
}

/// One stage of an import.
#[derive(Debug, Clone, Copy, PartialEq, Eq, Structural)]
pub enum ImportStage {
    /// Fetch the feed from the network.
    Download,
    /// Write what was fetched to the local cache.
    SaveCache,
    /// Read the feed's records from the local cache.
    LoadCache,
    /// Write categories and mods to the store.
    SaveToDatabase,
    /// Record the instant of the import.
    SetImportedDate,
}

/// The stages of one import, in order: the download and the write of the
/// cache only in the mode that fetches, the recording of the instant last.
pub open spec fn import_stages(downloads: bool) -> Seq<ImportStage> {
    if downloads {
        seq![
            ImportStage::Download,
            ImportStage::SaveCache,
            ImportStage::LoadCache,
            ImportStage::SaveToDatabase,
            ImportStage::SetImportedDate,
        ]
    } else {
        seq![ImportStage::LoadCache, ImportStage::SaveToDatabase, ImportStage::SetImportedDate]
    }
}

/// One import as it proceeds: which stages it has, how many of them have
/// succeeded, and whether one has failed.
#[derive(Debug, Clone, Copy, PartialEq, Eq, Structural)]
pub struct ImportRun {
    downloads: bool,
    completed: u8,
    failed: bool,
}

impl ImportRun {
    #[verifier::type_invariant]
    spec fn within_stages(self) -> bool {
        self.completed <= import_stages(self.downloads).len()
    }

    /// Whether this import fetches the feed.
    pub closed spec fn downloads(self) -> bool {
        self.downloads
    }

    /// The stages of this import.
    pub open spec fn stages(self) -> Seq<ImportStage> {
        import_stages(self.downloads())
    }

    /// How many stages have succeeded; they are the first of `stages`.
    pub closed spec fn completed(self) -> nat {
        self.completed as nat
    }

    /// Whether a stage has failed.
    pub closed spec fn has_failed(self) -> bool {
        self.failed
    }

    /// The stage to perform next: the first that has not succeeded, unless a
    /// stage has failed or none is left.
    pub open spec fn spec_next_stage(self) -> Option<ImportStage> {
        if self.has_failed() || self.completed() >= self.stages().len() {
            None
        } else {
            Some(self.stages()[self.completed() as int])
        }
    }

    /// Whether every stage has succeeded.
    pub open spec fn spec_is_complete(self) -> bool {
        !self.has_failed() && self.completed() == self.stages().len()
    }

    /// An import that has performed nothing yet.
    pub fn start(options: &ModRefreshOptions) -> (run: ImportRun)
        ensures
            run.downloads() == (*options is DownloadIfExpired),
            run.completed() == 0,
            !run.has_failed(),
    {
        let downloads = match options {
            ModRefreshOptions::DownloadIfExpired(_) => true,
            _ => false,
        };
        ImportRun { downloads, completed: 0, failed: false }
    }

    /// The stage to perform next, if the import goes on.
    pub fn next_stage(&self) -> (stage: Option<ImportStage>)
        ensures
            stage == self.spec_next_stage(),
            self.completed() <= self.stages().len(),
    {
        proof {
            use_type_invariant(self);
        }
        if self.failed {
            return None;
        }
        if self.downloads {
            match self.completed {
                0 => Some(ImportStage::Download),
                1 => Some(ImportStage::SaveCache),
                2 => Some(ImportStage::LoadCache),
                3 => Some(ImportStage::SaveToDatabase),
                4 => Some(ImportStage::SetImportedDate),
                _ => None,
            }
        } else {
            match self.completed {
                0 => Some(ImportStage::LoadCache),
                1 => Some(ImportStage::SaveToDatabase),
                2 => Some(ImportStage::SetImportedDate),
                _ => None,
            }
        }
    }

    /// Records how the stage that `next_stage` named went. A success moves
    /// the import on by one stage; a failure ends it, and no stage follows.
    /// Where no stage was due nothing changes.
    pub fn stage_done(&mut self, succeeded: bool)
        ensures
            final(self).downloads() == old(self).downloads(),
            old(self).spec_next_stage() is None ==> *final(self) == *old(self),
            old(self).spec_next_stage() is Some && succeeded ==> final(self).completed() == old(
                self,
            ).completed() + 1 && !final(self).has_failed(),
            old(self).spec_next_stage() is Some && !succeeded ==> final(self).completed() == old(
                self,
            ).completed() && final(self).has_failed(),
    {
        proof {
            use_type_invariant(&*self);
        }
        let stages: u8 = if self.downloads {
            5
        } else {
            3
        };
        if self.failed || self.completed >= stages {
            return ;
        }
        if succeeded {
            self.completed = self.completed + 1;
        } else {
            self.failed = true;
        }
    }

    /// Whether every stage has succeeded.
    pub fn is_complete(&self) -> (complete: bool)
        ensures
            complete == self.spec_is_complete(),
    {
        proof {
            use_type_invariant(self);
        }
        let stages: u8 = if self.downloads {
            5
        } else {
            3
        };
        !self.failed && self.completed == stages
    }
}

/// The instant of an import is recorded only as the last stage, after every
/// other stage has succeeded; and after a failure no stage is due.
pub proof fn import_date_is_set_last(run: ImportRun)
    requires
        run.completed() <= run.stages().len(),
    ensures
        run.spec_next_stage() == Some(ImportStage::SetImportedDate) <==> !run.has_failed()
            && run.completed() + 1 == run.stages().len(),
        run.has_failed() ==> run.spec_next_stage() is None,
{
}

/// Starts an import, whatever the policy says of staleness: the feed is
/// fetched only in the mode that downloads, and in every mode the cache is
/// read, the store written and the instant recorded.
pub fn do_import_mods(options: &ModRefreshOptions) -> (run: ImportRun)
    ensures
        run.downloads() == (*options is DownloadIfExpired),
        run.completed() == 0,
        !run.has_failed(),
{
    ImportRun::start(options)
}

/// Starts an import where the policy says one is due, and none otherwise.
pub fn import_mods_if_expired(
    options: &ModRefreshOptions,
    last_import: Option<Timestamp>,
    now: Timestamp,
) -> (run: Option<ImportRun>)
    ensures
        run is Some <==> refresh_due(*options, last_import, now),
        run matches Some(r) ==> r.downloads() == (*options is DownloadIfExpired) && r.completed()
            == 0 && !r.has_failed(),
{
    if are_mods_expired(options, last_import, now) {
        Some(do_import_mods(options))
    } else {
        None
    }
}

/// The lookup built from the categories of valid tables, each with its
/// identifier, gives every name the identifier that the tables give it.
pub proof fn lemma_index_of_categories(categories: Seq<Category>, tables: Tables, upto: int)
    requires
        tables.valid(),
        categories.len() == tables.categories.len(),
        forall|i: int|
            0 <= i < categories.len() ==> (#[trigger] categories[i]).name@ == tables.categories[i]
                && categories[i].id == i + 1,
        0 <= upto <= categories.len(),
    ensures
        forall|name: Seq<char>|
            #![trigger index_by_name(categories.take(upto)).contains_key(name)]
            index_by_name(categories.take(upto)).contains_key(name) <==> exists|i: int|
                0 <= i < upto && #[trigger] tables.categories[i] == name,
        forall|i: int|
            0 <= i < upto ==> index_by_name(categories.take(upto))[#[trigger] tables.categories[i]].id
                == i + 1,
        upto == categories.len() ==> ids_by_name(index_by_name(categories)) == tables.category_ids(),
    decreases upto,
{
    let here = index_by_name(categories.take(upto));
    if upto > 0 {
        lemma_index_of_categories(categories, tables, upto - 1);
        let front = index_by_name(categories.take(upto - 1));
        assert(categories.take(upto).drop_last() =~= categories.take(upto - 1));
        assert(categories.take(upto).last() == categories[upto - 1]);
        assert(here == front.insert(categories[upto - 1].name@, categories[upto - 1]));
        assert forall|name: Seq<char>|
            #![trigger here.contains_key(name)]
            here.contains_key(name) <==> exists|i: int|
                0 <= i < upto && #[trigger] tables.categories[i] == name by {
            if here.contains_key(name) {
                if name == categories[upto - 1].name@ {
                    assert(tables.categories[upto - 1] == name);
                } else {
                    assert(front.contains_key(name));
                    let i = choose|i: int| 0 <= i < upto - 1 && #[trigger] tables.categories[i] == name;
                    assert(tables.categories[i] == name);
                }
            }
            if exists|i: int| 0 <= i < upto && #[trigger] tables.categories[i] == name {
                let i = choose|i: int| 0 <= i < upto && #[trigger] tables.categories[i] == name;
                if i < upto - 1 {
                    assert(front.contains_key(name));
                }
            }
        }
        assert forall|i: int| 0 <= i < upto implies here[#[trigger] tables.categories[i]].id == i
            + 1 by {
            if i < upto - 1 {
                assert(tables.categories[i] != tables.categories[upto - 1]);
                assert(front[tables.categories[i]].id == i + 1);
            }
        }
    }
    if upto == categories.len() {
        assert(categories.take(upto) =~= categories);
        let ids = ids_by_name(index_by_name(categories));
        let expected = tables.category_ids();
        assert forall|name: Seq<char>| ids.contains_key(name) == expected.contains_key(name) by {
            if here.contains_key(name) {
                let i = choose|i: int| 0 <= i < upto && #[trigger] tables.categories[i] == name;
                assert(tables.categories.contains(name));
            }
            if tables.categories.contains(name) {
                let i = choose|i: int|
                    0 <= i < tables.categories.len() && tables.categories[i] == name;
                assert(tables.categories[i] == name);
            }
        }
        assert forall|name: Seq<char>| ids.contains_key(name) implies ids[name] == expected[name] by {
            let i = tables.categories.index_of(name);
            assert(tables.categories.contains(name));
            assert(0 <= i < tables.categories.len() && tables.categories[i] == name);
            assert(here[tables.categories[i]].id == i + 1);
        }
        assert(ids =~= expected);
    }
}

/// The tables after the records of `mods` were saved: the categories that
/// the records mention added, and the records that can become rows imported,
/// their categories resolved against the categories then there.
pub open spec fn saved(tables: Tables, mods: Seq<ModRaw>) -> Tables {
    let named = tables.with_categories(catalog_category_names(mods));
    named.imported(normalized(mods, named.category_ids()))
}

/// Saves the feed's records: adds their categories, turns the records into
/// rows and imports the rows in chunks of `chunk_size`. Refused, with
/// nothing changed, where the new categories are more than the table has
/// identifiers left.
pub fn save_mods_to_db(db: &mut Database, mods: &Vec<ModRaw>, chunk_size: usize) -> (done: Result<
    (),
    StoreError,
>)
    requires
        old(db).wf(),
        chunk_size > 0,
    ensures
        final(db).wf(),
        done is Err <==> old(db)@.with_categories(
            catalog_category_names(mods@),
        ).categories.len() > i32::MAX,
        done matches Err(e) ==> e == StoreError::OutOfIdentifiers && final(db)@ == old(db)@,
        done is Ok ==> final(db)@ == saved(old(db)@, mods@),
{
    let names = category_names(mods);
    match db.insert_categories(&names) {
        Ok(()) => {},
        Err(e) => {
            return Err(e);
        },
    }
    let categories = db.get_categories();
    let index = category_index(&categories);
    proof {
        db.lemma_valid();
        lemma_index_of_categories(categories@, db@, categories@.len() as int);
    }
    let rows = insertable_mods(mods, &index);
    db.insert_mods(&rows, chunk_size);
    Ok(())
}

/// Saving the same records a second time changes nothing: no category, no
/// row and no link.
pub proof fn saving_twice_is_saving_once(tables: Tables, mods: Seq<ModRaw>)
    requires
        tables.valid(),
    ensures
        saved(saved(tables, mods), mods) == saved(tables, mods),
{
    let names = catalog_category_names(mods);
    let named = tables.with_categories(names);
    let rows = normalized(mods, named.category_ids());
    let once = saved(tables, mods);
    lemma_with_new_names(tables.categories, names);
    assert forall|i: int| 0 <= i < names.len() implies once.categories.contains(
        #[trigger] names[i],
    ) by {
        assert(names.contains(names[i]));
        assert(with_new_names(tables.categories, names).contains(names[i]));
    }
    lemma_known_names_add_nothing(once.categories, names);
    assert(once.with_categories(names) =~= once);
    assert(once.category_ids() =~= named.category_ids());
    import_twice_is_import_once(named, rows);
}

} // verus!
